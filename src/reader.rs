//! The scene description's own vocabulary: face indices, the two-letter
//! code that opens an object's name, and the role its name gives it.
use crate::objects::{Shape, Sphere};
use crate::player::ONE;
use vstd::prelude::*;
use vstd::string::StringSliceAdditionalSpecFns;

verus! {

/// How a body moves in the physics engine.
#[derive(Clone, Copy, Debug, PartialEq, Eq, Structural)]
pub enum BodyKind {
    Fixed,
    Dynamic,
    KinematicPositionBased,
    KinematicVelocityBased,
}

/// What the scene's name of an object makes of it.
#[derive(Clone, Copy, Debug, PartialEq, Eq, Structural)]
pub enum SceneRole {
    /// The avatar every player is cloned from.
    Template,
    /// A ball: a unit sphere whatever its mesh.
    Ball,
    /// Anything else.
    Scenery,
}

pub open spec fn is_digit(c: u8) -> bool {
    48 <= c <= 57
}

/// The number a string of decimal digits writes.
pub open spec fn digits_value(d: Seq<u8>) -> int
    decreases d.len(),
{
    if d.len() == 0 {
        0
    } else {
        digits_value(d.drop_last()) * 10 + (d.last() - 48)
    }
}

/// The bytes before the first `/`, or all of them.
pub open spec fn first_field(b: Seq<u8>) -> Seq<u8> {
    if exists|i: int| 0 <= i < b.len() && b[i] == 47 {
        let i = choose|i: int| 0 <= i < b.len() && b[i] == 47 && forall|k: int| 0 <= k < i ==> b[k] != 47;
        b.subrange(0, i)
    } else {
        b
    }
}

/// The digits of an unsigned decimal: what follows an optional `+`.
pub open spec fn unsigned_digits(b: Seq<u8>) -> Seq<u8> {
    if b.len() > 0 && b[0] == 43 {
        b.subrange(1, b.len() as int)
    } else {
        b
    }
}

pub open spec fn all_digits(d: Seq<u8>) -> bool {
    forall|i: int| 0 <= i < d.len() ==> is_digit(#[trigger] d[i])
}

/// An unsigned decimal: an optional `+`, then one or more digits whose
/// value fits 32 bits.
pub open spec fn decimal_u32(b: Seq<u8>) -> Option<u32> {
    let d = unsigned_digits(b);
    if d.len() > 0 && all_digits(d) && digits_value(d) <= u32::MAX {
        Some(digits_value(d) as u32)
    } else {
        None
    }
}

fn parse_decimal(b: &[u8], start: usize, end: usize) -> (r: Option<u32>)
    requires
        start <= end <= b@.len(),
    ensures
        r == decimal_u32(b@.subrange(start as int, end as int)),
{
    let ghost f = b@.subrange(start as int, end as int);
    let mut s = start;
    if s < end && b[s] == 43 {
        s = s + 1;
    }
    let ghost d = b@.subrange(s as int, end as int);
    assert(d =~= unsigned_digits(f));
    if s == end {
        return None;
    }
    let mut v: u64 = 0;
    let mut i = s;
    while i < end
        invariant
            s <= i <= end <= b@.len(),
            d == b@.subrange(s as int, end as int),
            d == unsigned_digits(f),
            f == b@.subrange(start as int, end as int),
            v == digits_value(b@.subrange(s as int, i as int)),
            v <= u32::MAX,
            forall|k: int| s <= k < i ==> is_digit(b@[k]),
        decreases end - i,
    {
        let c = b[i];
        assert(b@.subrange(s as int, i + 1int).drop_last() =~= b@.subrange(s as int, i as int));
        if c < 48 || c > 57 {
            assert(d[i - s] == c);
            assert(!is_digit(d[i - s]));
            assert(!all_digits(d));
            assert(decimal_u32(f) is None);
            return None;
        }
        let nv = v * 10 + (c - 48) as u64;
        if nv > u32::MAX as u64 {
            proof {
                let pre = b@.subrange(s as int, i + 1int);
                assert(digits_value(pre) == v * 10 + (c - 48));
                if all_digits(d) {
                    lemma_digits_grow(d, (i - s + 1) as int);
                    assert(d.subrange(0, (i - s + 1) as int) =~= pre);
                    assert(digits_value(d) > u32::MAX);
                }
                assert(decimal_u32(f) is None);
            }
            return None;
        }
        v = nv;
        i = i + 1;
    }
    assert(b@.subrange(s as int, i as int) =~= d);
    Some(v as u32)
}

/// The value of a digit string is at least the value of each prefix.
proof fn lemma_digits_grow(d: Seq<u8>, k: int)
    requires
        0 <= k <= d.len(),
        forall|i: int| 0 <= i < d.len() ==> is_digit(#[trigger] d[i]),
    ensures
        digits_value(d) >= digits_value(d.subrange(0, k)),
    decreases d.len(),
{
    if d.len() > k {
        assert(d.drop_last().subrange(0, k) =~= d.subrange(0, k));
        lemma_digits_grow(d.drop_last(), k);
        lemma_digits_nonneg(d.drop_last());
    } else {
        assert(d.subrange(0, k) =~= d);
    }
}

proof fn lemma_digits_nonneg(d: Seq<u8>)
    requires
        forall|i: int| 0 <= i < d.len() ==> is_digit(#[trigger] d[i]),
    ensures
        digits_value(d) >= 0,
    decreases d.len(),
{
    if d.len() > 0 {
        lemma_digits_nonneg(d.drop_last());
    }
}

/// The zero-based vertex a face entry names; see `split`.
pub open spec fn split_spec(b: Seq<u8>) -> Option<u32> {
    match decimal_u32(first_field(b)) {
        Some(v) => if v >= 1 {
            Some((v - 1) as u32)
        } else {
            None
        },
        None => None,
    }
}

/// A face entry such as `12/7/3` names its vertex by the number before the
/// first `/`, counted from one; the result counts from zero. `None` when
/// that number is not an unsigned decimal of 32 bits, or is zero.
pub fn vertex_index(data: &str) -> (r: Option<u32>)
    ensures
        r == split_spec(data.spec_bytes()),
{
    let b = data.as_bytes();
    let mut i: usize = 0;
    while i < b.len() && b[i] != 47
        invariant
            i <= b@.len(),
            forall|k: int| 0 <= k < i ==> b@[k] != 47,
        decreases b@.len() - i,
    {
        i = i + 1;
    }
    proof {
        if i < b@.len() {
            assert(b@[i as int] == 47);
            let j = choose|j: int| 0 <= j < b@.len() && b@[j] == 47 && forall|k: int| 0 <= k < j ==> b@[k] != 47;
            assert(j == i) by {
                if j < i {
                    assert(b@[j] != 47);
                } else if j > i {
                    assert(b@[i as int] != 47);
                }
            }
            assert(first_field(b@) == b@.subrange(0, i as int));
        } else {
            assert(b@.subrange(0, i as int) =~= b@);
        }
    }
    match parse_decimal(b, 0, i) {
        Some(v) => if v >= 1 {
            Some(v - 1)
        } else {
            None
        },
        None => None,
    }
}

/// The body kind a code letter stands for: `D` dynamic, `F` fixed.
pub open spec fn body_kind_spec(code: u8) -> Option<BodyKind> {
    if code == 68 {
        Some(BodyKind::Dynamic)
    } else if code == 70 {
        Some(BodyKind::Fixed)
    } else {
        None
    }
}

/// The shape a code letter stands for: `C` convex hull, `M` convex
/// decomposition, `S` sensor decomposition, `B` unit ball.
pub open spec fn shape_spec(code: u8) -> Option<Shape> {
    if code == 67 {
        Some(Shape::CONVEX)
    } else if code == 77 {
        Some(Shape::MULTI)
    } else if code == 83 {
        Some(Shape::SensorMulti)
    } else if code == 66 {
        Some(Shape::SPHERE(Sphere { radius: ONE }))
    } else {
        None
    }
}

pub fn body_kind_of(code: u8) -> (r: Option<BodyKind>)
    ensures
        r == body_kind_spec(code),
{
    if code == 68 {
        Some(BodyKind::Dynamic)
    } else if code == 70 {
        Some(BodyKind::Fixed)
    } else {
        None
    }
}

pub fn shape_of(code: u8) -> (r: Option<Shape>)
    ensures
        r == shape_spec(code),
{
    if code == 67 {
        Some(Shape::CONVEX)
    } else if code == 77 {
        Some(Shape::MULTI)
    } else if code == 83 {
        Some(Shape::SensorMulti)
    } else if code == 66 {
        Some(Shape::SPHERE(Sphere::new(ONE)))
    } else {
        None
    }
}

/// `Player` in ASCII.
pub open spec fn template_word() -> Seq<u8> {
    seq![80u8, 108u8, 97u8, 121u8, 101u8, 114u8]
}

/// `Ball` in ASCII.
pub open spec fn ball_word() -> Seq<u8> {
    seq![66u8, 97u8, 108u8, 108u8]
}

/// The role an object's name gives it, read after its two code letters.
pub open spec fn role_spec(name: Seq<u8>) -> SceneRole {
    if name.len() >= 2 && name.subrange(2, name.len() as int) == template_word() {
        SceneRole::Template
    } else if name.len() >= 2 && name.subrange(2, name.len() as int) == ball_word() {
        SceneRole::Ball
    } else {
        SceneRole::Scenery
    }
}

fn tail_is(name: &[u8], word: &[u8]) -> (r: bool)
    requires
        name@.len() >= 2,
    ensures
        r == (name@.subrange(2, name@.len() as int) == word@),
{
    if name.len() - 2 != word.len() {
        assert(name@.subrange(2, name@.len() as int).len() != word@.len());
        return false;
    }
    let mut i: usize = 0;
    while i < word.len()
        invariant
            name@.len() >= 2,
            name@.len() <= usize::MAX,
            name@.len() - 2 == word@.len(),
            i <= word@.len(),
            forall|k: int| 0 <= k < i ==> name@[k + 2] == word@[k],
        decreases word@.len() - i,
    {
        if name[i + 2] != word[i] {
            assert(name@.subrange(2, name@.len() as int)[i as int] != word@[i as int]);
            return false;
        }
        i = i + 1;
    }
    assert(name@.subrange(2, name@.len() as int) =~= word@);
    true
}

/// The role of an object named `name`.
pub fn scene_role(name: &[u8]) -> (r: SceneRole)
    ensures
        r == role_spec(name@),
{
    if name.len() < 2 {
        return SceneRole::Scenery;
    }
    let player = [80u8, 108u8, 97u8, 121u8, 101u8, 114u8];
    let ball = [66u8, 97u8, 108u8, 108u8];
    assert(player@ =~= template_word());
    assert(ball@ =~= ball_word());
    if tail_is(name, player.as_slice()) {
        SceneRole::Template
    } else if tail_is(name, ball.as_slice()) {
        SceneRole::Ball
    } else {
        SceneRole::Scenery
    }
}

/// The zero-based vertex a well-formed face entry names; entries that name
/// no vertex are the caller's to refuse (see `vertex_index`).
pub fn split(data: &str) -> (r: u32)
    requires
        split_spec(data.spec_bytes()) is Some,
    ensures
        Some(r) == split_spec(data.spec_bytes()),
{
    vertex_index(data).unwrap()
}

/// The vertex a face entry names, counted from the first vertex of its own
/// object. `None` when the entry names no vertex (see `vertex_index`) or one that
/// comes before the object.
pub fn face_index(data: &str, first_vertex: u32) -> (r: Option<u32>)
    ensures
        r == (match split_spec(data.spec_bytes()) {
            Some(v) => if v >= first_vertex {
                Some((v - first_vertex) as u32)
            } else {
                None
            },
            None => None,
        }),
{
    match vertex_index(data) {
        Some(v) => if v >= first_vertex {
            Some(v - first_vertex)
        } else {
            None
        },
        None => None,
    }
}

/// The body kind and shape that the two code letters at the start of an
/// object's name stand for.
pub fn object_codes(name: &[u8]) -> (r: Option<(BodyKind, Shape)>)
    ensures
        name@.len() < 2 ==> r is None,
        name@.len() >= 2 ==> r == (match (body_kind_spec(name@[0]), shape_spec(name@[1])) {
            (Some(b), Some(s)) => Some((b, s)),
            _ => None,
        }),
{
    if name.len() < 2 {
        return None;
    }
    match (body_kind_of(name[0]), shape_of(name[1])) {
        (Some(b), Some(s)) => Some((b, s)),
        _ => None,
    }
}

} // verus!
