use game_server::objects::{Cuboid, Shape, Sphere};
use game_server::reader::{
    body_kind_of, face_index, object_codes, scene_role, shape_of, split, vertex_index, BodyKind, SceneRole,
};

#[test]
fn split_reads_face_index_from_one() {
    assert_eq!(split("12/7/3"), 11);
    assert_eq!(split("1"), 0);
    assert_eq!(split("+5//2"), 4);
    assert_eq!(split("4294967295/1"), 4294967294);
    assert_eq!(vertex_index("12/7/3"), Some(11));
}

#[test]
fn split_refuses_what_is_no_index() {
    assert_eq!(vertex_index("0/1"), None);
    assert_eq!(vertex_index(""), None);
    assert_eq!(vertex_index("/3"), None);
    assert_eq!(vertex_index("x/3"), None);
    assert_eq!(vertex_index("4294967296"), None);
    assert_eq!(vertex_index("-1"), None);
}

#[test]
fn code_letters() {
    assert_eq!(body_kind_of(b'D'), Some(BodyKind::Dynamic));
    assert_eq!(body_kind_of(b'F'), Some(BodyKind::Fixed));
    assert_eq!(body_kind_of(b'K'), None);
    assert_eq!(shape_of(b'C'), Some(Shape::CONVEX));
    assert_eq!(shape_of(b'M'), Some(Shape::MULTI));
    assert_eq!(shape_of(b'S'), Some(Shape::SensorMulti));
    assert_eq!(shape_of(b'B'), Some(Shape::SPHERE(Sphere::new(1.0f32.to_bits()))));
    assert_eq!(shape_of(b'X'), None);
}

#[test]
fn roles_by_name() {
    assert_eq!(scene_role(b"DC_Player"), SceneRole::Scenery);
    assert_eq!(scene_role(b"DCPlayer"), SceneRole::Template);
    assert_eq!(scene_role(b"DBBall"), SceneRole::Ball);
    assert_eq!(scene_role(b"FMFloor"), SceneRole::Scenery);
    assert_eq!(scene_role(b"D"), SceneRole::Scenery);
}

#[test]
fn shape_accessors() {
    let c = Shape::CUBOID(Cuboid::new(1, 2, 3));
    assert_eq!(c.cuboid(), Cuboid::new(1, 2, 3));
    let s = Shape::SPHERE(Sphere::new(9));
    assert_eq!(s.sphere().radius, 9);
}

#[test]
fn face_indices_are_rebased_on_their_object() {
    assert_eq!(face_index("12/7/3", 4), Some(7));
    assert_eq!(face_index("5", 4), Some(0));
    assert_eq!(face_index("4", 4), None);
    assert_eq!(face_index("0", 0), None);
}

#[test]
fn object_codes_read_the_first_two_letters() {
    assert_eq!(object_codes(b"FMFloor"), Some((BodyKind::Fixed, Shape::MULTI)));
    assert_eq!(object_codes(b"DBBall"), Some((BodyKind::Dynamic, Shape::SPHERE(Sphere::new(1.0f32.to_bits())))));
    assert_eq!(object_codes(b"XCThing"), None);
    assert_eq!(object_codes(b"DQThing"), None);
    assert_eq!(object_codes(b"D"), None);
}
