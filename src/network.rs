//! Connection routing: the first message of each connection either opens a
//! room or asks to join one, and the routing table maps room ids to rooms.
use crate::game::GameManager;
use crate::player::{signal_bytes, ResponseSignal, FORWARD, ORIGIN, RIGHT};
use crate::objects::Handle;
use crate::player::Player;
use crate::session::{admits, parse_request, NewSessionRequest, JoinSessionRequest, ServerRequest, Session};
use crate::wire::bytes_equal;
use vstd::utf8::valid_utf8;
use vstd::prelude::*;

verus! {

/// Why a control request was refused.
#[derive(Clone, Copy, Debug, PartialEq, Eq, Structural)]
pub enum Reason {
    IdInUse,
    InvalidRequestFormat,
    InvalidIdFormat,
    InvalidPassword,
    IdDoesntExist,
    WrongPassword,
}

/// The byte that stands for each reason on the wire.
pub open spec fn reason_tag(r: Reason) -> u8 {
    match r {
        Reason::IdInUse => 1,
        Reason::InvalidRequestFormat => 2,
        Reason::InvalidIdFormat => 3,
        Reason::InvalidPassword => 4,
        Reason::IdDoesntExist => 5,
        Reason::WrongPassword => 6,
    }
}

impl Reason {
    pub fn tag(&self) -> (r: u8)
        ensures
            r == reason_tag(*self),
    {
        match self {
            Reason::IdInUse => 1,
            Reason::InvalidRequestFormat => 2,
            Reason::InvalidIdFormat => 3,
            Reason::InvalidPassword => 4,
            Reason::IdDoesntExist => 5,
            Reason::WrongPassword => 6,
        }
    }

    /// The reason a tag byte stands for, if any.
    pub fn from_tag(t: u8) -> (r: Option<Reason>)
        ensures
            r matches Some(x) ==> reason_tag(x) == t,
            r is None <==> !(1 <= t <= 6),
    {
        match t {
            1 => Some(Reason::IdInUse),
            2 => Some(Reason::InvalidRequestFormat),
            3 => Some(Reason::InvalidIdFormat),
            4 => Some(Reason::InvalidPassword),
            5 => Some(Reason::IdDoesntExist),
            6 => Some(Reason::WrongPassword),
            _ => None,
        }
    }
}

/// The answer to a request that opens a room.
pub enum ServerResponse {
    Accepted(ResponseSignal),
    InvalidRequest(Reason),
}

pub open spec fn server_response_bytes(r: ServerResponse) -> Seq<u8> {
    match r {
        ServerResponse::Accepted(s) => seq![1u8] + signal_bytes(s@),
        ServerResponse::InvalidRequest(why) => seq![2u8, reason_tag(why)],
    }
}

impl ServerResponse {
    pub fn to_bytes(&self) -> (r: Vec<u8>)
        ensures
            r@ == server_response_bytes(*self),
    {
        let mut out: Vec<u8> = Vec::new();
        match self {
            ServerResponse::Accepted(s) => {
                out.push(1u8);
                s.write(&mut out);
            },
            ServerResponse::InvalidRequest(why) => {
                out.push(2u8);
                out.push(why.tag());
            },
        }
        assert(out@ =~= server_response_bytes(*self));
        out
    }
}

/// The snapshot a room's creator receives: at the origin, looking forward.
pub open spec fn opening_view() -> crate::player::SignalView {
    crate::player::SignalView {
        translation: ORIGIN@,
        camera_pos: ORIGIN@,
        camera_target: ORIGIN@,
        fwd: FORWARD@,
        right: RIGHT@,
        players: Seq::empty(),
        objects: Seq::empty(),
    }
}

/// Two object lists that hold the same objects, names, poses and handles
/// alike, in the same order.
pub open spec fn same_objects(
    a: Seq<(crate::player::NetworkObject, Handle, Handle)>,
    b: Seq<(crate::player::NetworkObject, Handle, Handle)>,
) -> bool {
    a.map_values(|t: (crate::player::NetworkObject, Handle, Handle)| (t.0@, t.1, t.2)) == b.map_values(
        |t: (crate::player::NetworkObject, Handle, Handle)| (t.0@, t.1, t.2),
    )
}

/// The room ids of a routing table, in the order the rooms were opened.
pub open spec fn room_ids<R>(table: Seq<(Vec<u8>, R)>) -> Seq<Seq<u8>> {
    table.map_values(|e: (Vec<u8>, R)| e.0@)
}

/// The accept side of the server: its address, the base scene every new
/// room starts from, and the routing table from room id to the way into
/// that room.
pub struct GameNetwork<R> {
    pub address: String,
    pub manager: GameManager,
    pub active_sessions: Vec<(Vec<u8>, R)>,
}

impl<R> GameNetwork<R> {
    pub open spec fn wf(&self) -> bool {
        &&& self.manager.wf()
        &&& self.manager.default_player is Some
        &&& room_ids(self.active_sessions@).no_duplicates()
    }

    /// A server with no rooms whose rooms start from `manager`.
    pub fn new(address: String, manager: GameManager) -> (r: Self)
        requires
            manager.wf(),
            manager.default_player is Some,
        ensures
            r.wf(),
            r.address@ == address@,
            r.manager == manager,
            r.active_sessions@.len() == 0,
    {
        GameNetwork { address, manager, active_sessions: Vec::new() }
    }

    /// Where the room `id` stands in the routing table, if it is open.
    pub fn find_session(&self, id: &[u8]) -> (r: Option<usize>)
        ensures
            r matches Some(i) ==> i < self.active_sessions@.len() && self.active_sessions@[i as int].0@
                == id@,
            r is None <==> !room_ids(self.active_sessions@).contains(id@),
    {
        let mut i: usize = 0;
        while i < self.active_sessions.len()
            invariant
                i <= self.active_sessions@.len(),
                forall|k: int| 0 <= k < i ==> self.active_sessions@[k].0@ != id@,
            decreases self.active_sessions@.len() - i,
        {
            if bytes_equal(self.active_sessions[i].0.as_slice(), id) {
                assert(room_ids(self.active_sessions@)[i as int] == id@);
                return Some(i);
            }
            i = i + 1;
        }
        proof {
            if room_ids(self.active_sessions@).contains(id@) {
                let k = choose|k: int| 0 <= k < room_ids(self.active_sessions@).len() && room_ids(self.active_sessions@)[k] == id@;
                assert(self.active_sessions@[k].0@ == id@);
            }
        }
        None
    }

    /// Reads the first message of a connection. Bytes that do not start
    /// with a control request are refused as malformed.
    pub fn classify(b: &[u8]) -> (r: Result<ServerRequest, Reason>)
        ensures
            parse_request(b@) is None <==> r == Err::<ServerRequest, Reason>(
                Reason::InvalidRequestFormat,
            ),
            parse_request(b@) is Some ==> r is Ok,
            r matches Ok(q) ==> parse_request(b@) matches Some((v, _)) && q@ == v,
    {
        match ServerRequest::from_bytes(b) {
            Some((q, _)) => Ok(q),
            None => Err(Reason::InvalidRequestFormat),
        }
    }

    /// Opens the room `request` asks for, reached through `route`. An id in
    /// use is refused first; then the room's own checks apply (see
    /// `Session::new`). On success the room, running a copy of the base
    /// scene, is returned for its tick loop to own, the routing table gains
    /// `(id, route)` at its end, and the creator, with the collider
    /// `creator` made for it, is the room's first newcomer: a copy of the
    /// template avatar under a fresh id, returned with the room. The creator
    /// is told where it stands.
    pub fn create_session(&mut self, request: NewSessionRequest, route: R, creator: Handle) -> (r: (
        ServerResponse,
        Option<(Session, Player)>,
    ))
        requires
            old(self).wf(),
        ensures
            final(self).wf(),
            final(self).manager == old(self).manager,
            room_ids(old(self).active_sessions@).contains(request.id@) ==> {
                &&& r.0 == ServerResponse::InvalidRequest(Reason::IdInUse)
                &&& r.1 is None
                &&& final(self).active_sessions@ == old(self).active_sessions@
            },
            !room_ids(old(self).active_sessions@).contains(request.id@) && !valid_utf8(
                request.password@,
            ) ==> {
                &&& r.0 == ServerResponse::InvalidRequest(Reason::InvalidPassword)
                &&& r.1 is None
                &&& final(self).active_sessions@ == old(self).active_sessions@
            },
            !room_ids(old(self).active_sessions@).contains(request.id@) && valid_utf8(
                request.password@,
            ) && !valid_utf8(request.id@) ==> {
                &&& r.0 == ServerResponse::InvalidRequest(Reason::InvalidIdFormat)
                &&& r.1 is None
                &&& final(self).active_sessions@ == old(self).active_sessions@
            },
            !room_ids(old(self).active_sessions@).contains(request.id@) && valid_utf8(
                request.password@,
            ) && valid_utf8(request.id@) ==> {
                &&& r.0 matches ServerResponse::Accepted(sig) && sig@ == opening_view()
                &&& r.1 matches Some((s, p)) && s.wf() && s.id@ == request.id@ && s.password_spec()
                    == request.password@ && s.player_limit_spec() == request.player_limit
                    && admits(old(self).manager.players@, s.game_manager.players@)
                    && s.game_manager.players@ == old(self).manager.players@.push(p)
                    && p == (Player {
                    id: p.id,
                    collider: creator,
                    ..old(self).manager.default_player.unwrap()
                }) && s.game_manager.default_player == old(self).manager.default_player
                    && s.game_manager.dt == old(self).manager.dt && same_objects(
                    s.game_manager.objects@,
                    old(self).manager.objects@,
                )
                &&& room_ids(final(self).active_sessions@) == room_ids(
                    old(self).active_sessions@,
                ).push(request.id@)
                &&& final(self).active_sessions@.last().1 == route
            },
    {
        if self.find_session(request.id.as_slice()).is_some() {
            return (ServerResponse::InvalidRequest(Reason::IdInUse), None);
        }
        let key = vstd::slice::slice_to_vec(request.id.as_slice());
        match Session::new(request, self.manager.duplicate()) {
            Ok(mut session) => {
                let player = session.game_manager.new_player(creator);
                let ghost before = self.active_sessions@;
                self.active_sessions.push((key, route));
                proof {
                    let ids = room_ids(self.active_sessions@);
                    assert(ids =~= room_ids(before).push(key@));
                    assert forall|a: int, b: int|
                        0 <= a < ids.len() && 0 <= b < ids.len() && a != b implies ids[a]
                        != ids[b] by {
                        if a == ids.len() - 1 {
                            assert(room_ids(before)[b] == ids[b]);
                        } else if b == ids.len() - 1 {
                            assert(room_ids(before)[a] == ids[a]);
                        } else {
                            assert(room_ids(before)[a] == ids[a]);
                            assert(room_ids(before)[b] == ids[b]);
                        }
                    }
                }
                let opening = ResponseSignal::new(ORIGIN, ORIGIN, ORIGIN, FORWARD, RIGHT);
                assert(opening@.players =~= Seq::<crate::player::SignalView>::empty());
                assert(opening@.objects =~= Seq::<crate::player::ObjectView>::empty());
                (ServerResponse::Accepted(opening), Some((session, player)))
            },
            Err(why) => (ServerResponse::InvalidRequest(why), None),
        }
    }

    /// Finds the room a join request is for. The request itself, with the
    /// connection, is then handed to that room, which checks the password.
    pub fn join_session(&self, request: &JoinSessionRequest) -> (r: Result<usize, Reason>)
        ensures
            !room_ids(self.active_sessions@).contains(request.id@) <==> r == Err::<usize, Reason>(
                Reason::IdDoesntExist,
            ),
            room_ids(self.active_sessions@).contains(request.id@) ==> r is Ok,
            r matches Ok(i) ==> i < self.active_sessions@.len() && self.active_sessions@[i as int].0@
                == request.id@,
    {
        match self.find_session(request.id.as_slice()) {
            Some(i) => Ok(i),
            None => Err(Reason::IdDoesntExist),
        }
    }
}

} // verus!
