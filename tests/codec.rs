use game_server::network::{Reason, ServerResponse};
use game_server::player::{NetworkObject, PlayerSignal, ResponseSignal, FORWARD, ORIGIN, RIGHT};
use game_server::session::{JoinResponse, JoinSessionRequest, NewSessionRequest, ServerRequest};

fn v3(x: f32, y: f32, z: f32) -> [u32; 3] {
    [x.to_bits(), y.to_bits(), z.to_bits()]
}

fn same_signal(a: &ResponseSignal, b: &ResponseSignal) -> bool {
    a.translation == b.translation
        && a.camera_pos == b.camera_pos
        && a.camera_target == b.camera_target
        && a.fwd == b.fwd
        && a.right == b.right
        && a.objects == b.objects
        && a.players.len() == b.players.len()
        && a.players.iter().zip(b.players.iter()).all(|(x, y)| same_signal(x, y))
}

#[test]
fn player_signal_round_trip() {
    let s = PlayerSignal::new(v3(1.0, 0.0, 0.0), [0.5f32.to_bits(), (-2.0f32).to_bits()], 0.016f32.to_bits());
    let b = s.to_bytes();
    assert_eq!(b.len(), 24);
    let (d, n) = PlayerSignal::from_bytes(&b).unwrap();
    assert_eq!(n, 24);
    assert_eq!(d, s);
    assert_eq!(f32::from_bits(d.desired_mov[0]), 1.0);
}

#[test]
fn player_signal_layout_is_little_endian() {
    let s = PlayerSignal::new([1, 2, 3], [4, 5], 6);
    let b = s.to_bytes();
    assert_eq!(&b[0..4], &[1, 0, 0, 0]);
    assert_eq!(&b[20..24], &[6, 0, 0, 0]);
}

#[test]
fn player_signal_ignores_trailing_bytes() {
    let s = PlayerSignal::new([7, 8, 9], [10, 11], 12);
    let mut b = s.to_bytes();
    b.extend_from_slice(&[0xff; 1000]);
    let (d, n) = PlayerSignal::from_bytes(&b).unwrap();
    assert_eq!(n, 24);
    assert_eq!(d, s);
}

#[test]
fn player_signal_too_short() {
    let b = PlayerSignal::new([1, 2, 3], [4, 5], 6).to_bytes();
    assert!(PlayerSignal::from_bytes(&b[..23]).is_none());
    assert!(PlayerSignal::from_bytes(&[]).is_none());
}

#[test]
fn response_signal_round_trip_empty_lists() {
    let s = ResponseSignal::new(v3(1.0, 2.0, 3.0), ORIGIN, FORWARD, FORWARD, RIGHT);
    let b = s.to_bytes();
    assert_eq!(b.len(), 76);
    assert_eq!(&b[0..16], &[0u8; 16]);
    let (d, n) = ResponseSignal::from_bytes(&b).unwrap();
    assert_eq!(n, 76);
    assert!(same_signal(&d, &s));
}

#[test]
fn response_signal_round_trip_nested_lists() {
    let mut s = ResponseSignal::new(v3(1.0, 2.0, 3.0), v3(0.0, 5.0, -5.0), FORWARD, FORWARD, RIGHT);
    s.players.push(ResponseSignal::new(v3(4.0, 0.0, 0.0), ORIGIN, FORWARD, FORWARD, RIGHT));
    s.players.push(ResponseSignal::new(v3(-4.0, 0.0, 0.0), ORIGIN, FORWARD, FORWARD, RIGHT));
    let mut inner = ResponseSignal::new(ORIGIN, ORIGIN, ORIGIN, FORWARD, RIGHT);
    inner.players.push(ResponseSignal::default());
    s.players.push(inner);
    s.objects.push(NetworkObject::new(b"FC_Floor".to_vec(), v3(0.0, -1.0, 0.0), [0, 0, 0, 1.0f32.to_bits()]));
    s.objects.push(NetworkObject::new(Vec::new(), ORIGIN, [1, 2, 3, 4]));
    let b = s.to_bytes();
    assert_eq!(b.len(), 76 + 3 * 76 + 76 + (36 + 8) + 36);
    assert_eq!(&b[0..8], &[3, 0, 0, 0, 0, 0, 0, 0]);
    assert_eq!(&b[8..16], &[2, 0, 0, 0, 0, 0, 0, 0]);
    let (d, n) = ResponseSignal::from_bytes(&b).unwrap();
    assert_eq!(n, b.len());
    assert!(same_signal(&d, &s));
    assert_eq!(d.players[2].players.len(), 1);
}

#[test]
fn response_signal_truncated_list_is_refused() {
    let mut s = ResponseSignal::default();
    s.players.push(ResponseSignal::default());
    let b = s.to_bytes();
    assert!(ResponseSignal::from_bytes(&b[..b.len() - 1]).is_none());
    let mut huge = ResponseSignal::default().to_bytes();
    huge[0] = 0xff;
    huge[7] = 0xff;
    assert!(ResponseSignal::from_bytes(&huge).is_none());
}

#[test]
fn response_default_values() {
    let s = ResponseSignal::default();
    assert_eq!(s.translation, ORIGIN);
    assert_eq!(s.fwd, FORWARD);
    assert_eq!(s.right, FORWARD);
    assert_eq!(FORWARD, v3(0.0, 0.0, 1.0));
    assert_eq!(RIGHT, v3(1.0, 0.0, 0.0));
    assert!(s.players.is_empty() && s.objects.is_empty());
}

#[test]
fn new_session_request_round_trip() {
    let r = NewSessionRequest::new("room1", "pw");
    assert_eq!(r.id, b"room1".to_vec());
    assert_eq!(r.password, b"pw".to_vec());
    assert_eq!(r.player_limit, 8);
    let q = ServerRequest::NewSession(r);
    let b = q.to_bytes();
    assert_eq!(b[0], 1);
    assert_eq!(b.len(), 1 + 8 + 5 + 8 + 2 + 1);
    assert_eq!(*b.last().unwrap(), 8);
    let (d, n) = ServerRequest::from_bytes(&b).unwrap();
    assert_eq!(n, b.len());
    assert_eq!(d, q);
}

#[test]
fn join_session_request_round_trip() {
    let q = ServerRequest::JoinSession(JoinSessionRequest::new("room1", "secret"));
    let mut b = q.to_bytes();
    assert_eq!(b[0], 2);
    let len = b.len();
    b.resize(4096, 0);
    let (d, n) = ServerRequest::from_bytes(&b).unwrap();
    assert_eq!(n, len);
    assert_eq!(d, q);
}

#[test]
fn unknown_request_tag_is_refused() {
    let mut b = ServerRequest::JoinSession(JoinSessionRequest::new("a", "b")).to_bytes();
    b[0] = 3;
    assert!(ServerRequest::from_bytes(&b).is_none());
    assert!(ServerRequest::from_bytes(&[1, 200, 0, 0, 0, 0, 0, 0, 0]).is_none());
}

#[test]
fn response_encodings() {
    assert_eq!(JoinResponse::Accepted.to_bytes(), vec![1]);
    assert_eq!(JoinResponse::Refused(Reason::WrongPassword).to_bytes(), vec![2, 6]);
    assert_eq!(ServerResponse::InvalidRequest(Reason::IdInUse).to_bytes(), vec![2, 1]);
    assert_eq!(ServerResponse::InvalidRequest(Reason::IdDoesntExist).to_bytes(), vec![2, 5]);
    let ok = ServerResponse::Accepted(ResponseSignal::default()).to_bytes();
    assert_eq!(ok[0], 1);
    assert_eq!(ok.len(), 77);
}

#[test]
fn reason_tags_round_trip() {
    let all = [
        Reason::IdInUse,
        Reason::InvalidRequestFormat,
        Reason::InvalidIdFormat,
        Reason::InvalidPassword,
        Reason::IdDoesntExist,
        Reason::WrongPassword,
    ];
    for (i, r) in all.iter().enumerate() {
        assert_eq!(r.tag() as usize, i + 1);
        assert_eq!(Reason::from_tag(r.tag()), Some(*r));
    }
    assert_eq!(Reason::from_tag(0), None);
    assert_eq!(Reason::from_tag(7), None);
}
