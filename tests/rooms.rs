use game_server::actor::{ActorAction, ActorEvent, ActorState, PlayerActor};
use game_server::game::{GameManager, TICK_INTERVAL};
use game_server::network::{GameNetwork, Reason, ServerResponse};
use game_server::objects::Handle;
use game_server::player::{NetworkObject, Player, PlayerSignal, ResponseSignal, FORWARD, ORIGIN, RIGHT};
use game_server::session::{JoinResponse, JoinSessionRequest, NewSessionRequest, ServerRequest, Session};

fn v3(x: f32, y: f32, z: f32) -> [u32; 3] {
    [x.to_bits(), y.to_bits(), z.to_bits()]
}

fn base_world() -> GameManager {
    let mut m = GameManager::new();
    m.set_default_player(Player::new(0, 1.0f32.to_bits(), Handle::new(0, 0), v3(0.0, 2.0, 0.0), 100.0f32.to_bits()));
    m.add_object(
        NetworkObject::new(b"FC_Floor".to_vec(), ORIGIN, [0, 0, 0, 1.0f32.to_bits()]),
        Handle::new(1, 0),
        Handle::new(1, 0),
    );
    m
}

fn room(password: &str) -> Session {
    match Session::new(NewSessionRequest::new("room1", password), base_world()) {
        Ok(s) => s,
        Err(_) => panic!("room refused"),
    }
}

#[test]
fn tick_interval_is_sixteen_milliseconds() {
    assert_eq!(f32::from_bits(TICK_INTERVAL), 0.016);
    assert_eq!(GameManager::new().dt, TICK_INTERVAL);
}

#[test]
fn joins_with_right_password_fill_roster_with_unique_ids() {
    let mut s = room("pw");
    let mut ids = Vec::new();
    for k in 0..5u32 {
        let (resp, p) = s.join_player(&JoinSessionRequest::new("room1", "pw"), Handle::new(10 + k, 0));
        assert_eq!(resp, JoinResponse::Accepted);
        let p = p.unwrap();
        assert_eq!(p.collider, Handle::new(10 + k, 0));
        assert_eq!(p.position, v3(0.0, 2.0, 0.0));
        ids.push(p.id);
    }
    assert_eq!(s.game_manager.players.len(), 5);
    let mut sorted = ids.clone();
    sorted.sort();
    sorted.dedup();
    assert_eq!(sorted.len(), 5);
}

#[test]
fn colliding_candidates_get_the_next_free_id() {
    let mut s = room("pw");
    let req = JoinSessionRequest::new("room1", "pw");
    let (_, a) = s.admit_request(&req, 7, Handle::new(1, 1));
    let (_, b) = s.admit_request(&req, 7, Handle::new(2, 1));
    let (_, c) = s.admit_request(&req, 7, Handle::new(3, 1));
    assert_eq!(a.unwrap().id, 7);
    assert_eq!(b.unwrap().id, 8);
    assert_eq!(c.unwrap().id, 9);
    let (_, d) = s.admit_request(&req, u64::MAX, Handle::new(4, 1));
    let (_, e) = s.admit_request(&req, u64::MAX, Handle::new(5, 1));
    assert_eq!(d.unwrap().id, u64::MAX);
    assert_eq!(e.unwrap().id, 0);
    assert_eq!(s.game_manager.fresh_id(8), 10);
}

#[test]
fn wrong_password_leaves_roster_unchanged() {
    let mut s = room("pw");
    s.join_player(&JoinSessionRequest::new("room1", "pw"), Handle::new(3, 0));
    let before: Vec<u64> = s.game_manager.players.iter().map(|p| p.id).collect();
    let (resp, p) = s.join_player(&JoinSessionRequest::new("room1", "nope"), Handle::new(4, 0));
    assert_eq!(resp, JoinResponse::Refused(Reason::WrongPassword));
    assert!(p.is_none());
    let after: Vec<u64> = s.game_manager.players.iter().map(|p| p.id).collect();
    assert_eq!(before, after);
}

#[test]
fn session_refuses_malformed_text() {
    let mut bad_pw = NewSessionRequest::new("room1", "pw");
    bad_pw.password = vec![0xff, 0xfe];
    assert!(matches!(Session::new(bad_pw, base_world()), Err(Reason::InvalidPassword)));
    let mut bad_id = NewSessionRequest::new("room1", "pw");
    bad_id.id = vec![0xc3];
    assert!(matches!(Session::new(bad_id, base_world()), Err(Reason::InvalidIdFormat)));
    let mut both = NewSessionRequest::new("room1", "pw");
    both.id = vec![0xc3];
    both.password = vec![0x80];
    assert!(matches!(Session::new(both, base_world()), Err(Reason::InvalidPassword)));
    let s = room("pw");
    assert_eq!(s.player_limit(), 8);
}

#[test]
fn second_room_with_same_id_is_refused() {
    let mut net: GameNetwork<u32> = GameNetwork::new("127.0.0.1:9001".to_string(), base_world());
    let (resp, s) = net.create_session(NewSessionRequest::new("room1", "pw"), 1, Handle::new(7, 0));
    match resp {
        ServerResponse::Accepted(sig) => {
            assert_eq!(sig.translation, ORIGIN);
            assert_eq!(sig.fwd, FORWARD);
            assert_eq!(sig.right, RIGHT);
        }
        ServerResponse::InvalidRequest(_) => panic!("first room refused"),
    }
    let (room, creator) = s.unwrap();
    assert_eq!(creator.collider, Handle::new(7, 0));
    assert_eq!(room.game_manager.players.len(), 1);
    assert_eq!(room.game_manager.players[0].id, creator.id);
    assert_eq!(room.game_manager.objects.len(), 1);
    assert_eq!(net.manager.players.len(), 0);
    let (resp2, s2) = net.create_session(NewSessionRequest::new("room1", "other"), 2, Handle::new(8, 0));
    assert!(matches!(resp2, ServerResponse::InvalidRequest(Reason::IdInUse)));
    assert!(s2.is_none());
    assert_eq!(net.active_sessions.len(), 1);
    assert_eq!(net.active_sessions[0].1, 1);
}

#[test]
fn join_routes_to_open_rooms_only() {
    let mut net: GameNetwork<u32> = GameNetwork::new("addr".to_string(), base_world());
    net.create_session(NewSessionRequest::new("a", "x"), 10, Handle::new(1, 0));
    net.create_session(NewSessionRequest::new("room1", "pw"), 20, Handle::new(2, 0));
    let i = net.join_session(&JoinSessionRequest::new("room1", "pw")).unwrap();
    assert_eq!(net.active_sessions[i].1, 20);
    assert_eq!(net.join_session(&JoinSessionRequest::new("room2", "pw")), Err(Reason::IdDoesntExist));
}

#[test]
fn malformed_first_message_is_refused() {
    assert!(matches!(GameNetwork::<u32>::classify(&[9, 9, 9]), Err(Reason::InvalidRequestFormat)));
    let b = ServerRequest::NewSession(NewSessionRequest::new("room1", "pw")).to_bytes();
    assert!(matches!(GameNetwork::<u32>::classify(&b), Ok(ServerRequest::NewSession(_))));
}

#[test]
fn moved_player_snapshot_carries_new_position() {
    let mut s = room("pw");
    let (resp, p) = s.join_player(&JoinSessionRequest::new("room1", "pw"), Handle::new(5, 0));
    assert_eq!(resp, JoinResponse::Accepted);
    let mut p = p.unwrap();
    p.position = v3(1.0, 2.0, 0.0);
    let sig = s.game_manager.update_player(p).unwrap();
    assert_eq!(sig.translation, v3(1.0, 2.0, 0.0));
    assert_eq!(sig.players.len(), 1);
    assert_eq!(sig.players[0].translation, v3(1.0, 2.0, 0.0));
    assert_eq!(sig.objects.len(), 1);
    assert_eq!(sig.objects[0].id, b"FC_Floor".to_vec());
    assert_eq!(s.game_manager.players[0].position, v3(1.0, 2.0, 0.0));
}

#[test]
fn disconnect_removes_player_and_spares_others() {
    let mut s = room("pw");
    let req = JoinSessionRequest::new("room1", "pw");
    let (_, a) = s.admit_request(&req, 1, Handle::new(1, 0));
    let (_, b) = s.admit_request(&req, 2, Handle::new(2, 0));
    let (_, c) = s.admit_request(&req, 3, Handle::new(3, 0));
    let (a, b, c) = (a.unwrap(), b.unwrap(), c.unwrap());
    let mut actor = PlayerActor::new(b.id);
    match actor.step(ActorEvent::Closed) {
        ActorAction::Leave(id) => {
            let gone = s.leave(id);
            assert_eq!(gone.collider, Handle::new(2, 0));
        }
        _ => panic!("expected a departure"),
    }
    let ids: Vec<u64> = s.game_manager.players.iter().map(|p| p.id).collect();
    assert_eq!(ids, vec![a.id, c.id]);
    assert!(s.game_manager.find_player(b.id).is_none());
    assert!(s.game_manager.update_player(b).is_none());
    assert_eq!(s.game_manager.players.len(), 2);
    assert!(s.game_manager.update_player(c).is_some());
}

#[test]
fn step_moves_objects_and_no_player() {
    let mut m = base_world();
    let p = m.admit_player(4, Handle::new(9, 0));
    m.refresh_objects(&vec![(v3(0.0, -3.0, 0.0), [1, 2, 3, 4])]);
    assert_eq!(m.objects[0].0.position, v3(0.0, -3.0, 0.0));
    assert_eq!(m.objects[0].0.rotation, [1, 2, 3, 4]);
    assert_eq!(m.objects[0].0.id, b"FC_Floor".to_vec());
    assert_eq!(m.objects[0].1, Handle::new(1, 0));
    assert_eq!(m.players.len(), 1);
    assert_eq!(m.players[0].position, p.position);
}

#[test]
fn sensor_bodies_follow_object_order() {
    let mut m = GameManager::new();
    let o = || NetworkObject::new(Vec::new(), ORIGIN, [0, 0, 0, 0]);
    m.add_object(o(), Handle::new(1, 0), Handle::new(11, 0));
    m.add_object(o(), Handle::new(2, 0), Handle::new(12, 0));
    m.add_object(o(), Handle::new(1, 0), Handle::new(13, 0));
    assert_eq!(m.bodies_of_collider(Handle::new(1, 0)), vec![Handle::new(11, 0), Handle::new(13, 0)]);
    assert!(m.bodies_of_collider(Handle::new(3, 0)).is_empty());
}

#[test]
fn duplicate_world_is_independent() {
    let m = base_world();
    let mut d = m.duplicate();
    d.admit_player(1, Handle::new(2, 0));
    assert_eq!(m.players.len(), 0);
    assert_eq!(d.players.len(), 1);
    assert_eq!(d.objects[0].0.id, m.objects[0].0.id);
}

#[test]
fn actor_answers_each_intent_once_in_order() {
    let mut actor = PlayerActor::new(42);
    let intent = PlayerSignal::new(v3(1.0, 0.0, 0.0), [0, 0], 0.016f32.to_bits()).to_bytes();
    match actor.step(ActorEvent::Received(intent.clone())) {
        ActorAction::Submit(s) => assert_eq!(s.desired_mov, v3(1.0, 0.0, 0.0)),
        _ => panic!("expected a submission"),
    }
    assert_eq!(actor.state, ActorState::AwaitAuthoritative);
    assert!(matches!(actor.step(ActorEvent::Received(intent.clone())), ActorAction::Ignore));
    let first = ResponseSignal::new(v3(1.0, 0.0, 0.0), ORIGIN, FORWARD, FORWARD, RIGHT);
    let first_bytes = first.to_bytes();
    match actor.step(ActorEvent::Authoritative(first)) {
        ActorAction::Emit(b) => assert_eq!(b, first_bytes),
        _ => panic!("expected an emission"),
    }
    assert!(matches!(actor.step(ActorEvent::Authoritative(ResponseSignal::default())), ActorAction::Ignore));
    assert!(matches!(actor.step(ActorEvent::Received(intent)), ActorAction::Submit(_)));
    assert!(matches!(actor.step(ActorEvent::Closed), ActorAction::Ignore));
    assert!(matches!(actor.step(ActorEvent::Authoritative(ResponseSignal::default())), ActorAction::Emit(_)));
    assert!(matches!(actor.step(ActorEvent::Received(vec![1, 2])), ActorAction::Ignore));
    assert_eq!(actor.state, ActorState::AwaitInput);
    assert!(matches!(actor.step(ActorEvent::Closed), ActorAction::Leave(42)));
    assert_eq!(actor.state, ActorState::Disconnected);
    assert!(matches!(actor.step(ActorEvent::Closed), ActorAction::Ignore));
}

#[test]
fn a_tick_of_joins_answers_each_request_in_order() {
    let mut s = room("pw");
    let requests = vec![
        (JoinSessionRequest::new("room1", "pw"), Handle::new(1, 0)),
        (JoinSessionRequest::new("room1", "bad"), Handle::new(2, 0)),
        (JoinSessionRequest::new("room1", "pw"), Handle::new(3, 0)),
    ];
    let answers = s.join_players(&requests);
    assert_eq!(answers.len(), 3);
    assert_eq!(answers[0].0, JoinResponse::Accepted);
    assert_eq!(answers[1].0, JoinResponse::Refused(Reason::WrongPassword));
    assert!(answers[1].1.is_none());
    assert_eq!(answers[2].0, JoinResponse::Accepted);
    let ids: Vec<u64> = s.game_manager.players.iter().map(|p| p.id).collect();
    assert_eq!(ids, vec![answers[0].1.unwrap().id, answers[2].1.unwrap().id]);
    assert_ne!(ids[0], ids[1]);
    assert_eq!(s.game_manager.players[1].collider, Handle::new(3, 0));
}

#[test]
fn a_tick_of_intents_answers_present_players_in_order() {
    let mut m = base_world();
    let a = m.admit_player(1, Handle::new(1, 0));
    let b = m.admit_player(2, Handle::new(2, 0));
    let mut a2 = a;
    a2.position = v3(1.0, 0.0, 0.0);
    let mut ghost = b;
    ghost.id = 99;
    let mut b2 = b;
    b2.position = v3(0.0, 0.0, 3.0);
    let answers = m.update_players(&vec![a2, ghost, b2]);
    assert_eq!(answers.len(), 3);
    let first = answers[0].as_ref().unwrap();
    assert_eq!(first.translation, v3(1.0, 0.0, 0.0));
    assert_eq!(first.players[1].translation, b.position);
    assert!(answers[1].is_none());
    let third = answers[2].as_ref().unwrap();
    assert_eq!(third.players[0].translation, v3(1.0, 0.0, 0.0));
    assert_eq!(third.players[1].translation, v3(0.0, 0.0, 3.0));
    assert_eq!(m.players.len(), 2);
    assert!(m.update_players(&Vec::new()).is_empty());
    assert_eq!(m.players[1].position, v3(0.0, 0.0, 3.0));
}
