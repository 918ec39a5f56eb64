//! Control requests and the room they open: admission of players by
//! password, and the roster each room keeps.
use crate::game::{has_id, ids_unique, GameManager};
use crate::network::{reason_tag, Reason};
use crate::objects::Handle;
use crate::player::Player;
use crate::wire::{
    bytes_equal, counted, lemma_parse_counted, lemma_parse_u8, parse_counted, parse_u8,
    read_counted, read_u8, write_counted,
};
use vstd::utf8::valid_utf8;
use vstd::prelude::*;
use vstd::slice::slice_to_vec;
use vstd::string::StringSliceAdditionalSpecFns;

verus! {

/// A request to open a room with an id, a password and a player limit.
#[derive(Clone, Debug, PartialEq, Eq)]
pub struct NewSessionRequest {
    pub id: Vec<u8>,
    pub password: Vec<u8>,
    pub player_limit: u8,
}

/// The player limit a room gets when its creator does not choose one.
pub const DEFAULT_PLAYER_LIMIT: u8 = 8;

impl NewSessionRequest {
    /// A request for room `id` with the given password and the default limit.
    pub fn new(id: &str, password: &str) -> (r: Self)
        ensures
            r.id@ == id.spec_bytes(),
            r.password@ == password.spec_bytes(),
            r.player_limit == DEFAULT_PLAYER_LIMIT,
    {
        NewSessionRequest {
            id: slice_to_vec(id.as_bytes()),
            password: slice_to_vec(password.as_bytes()),
            player_limit: DEFAULT_PLAYER_LIMIT,
        }
    }
}

/// A request to join the room `id`, proving knowledge of its password.
#[derive(Clone, Debug, PartialEq, Eq)]
pub struct JoinSessionRequest {
    pub id: Vec<u8>,
    pub password: Vec<u8>,
}

impl JoinSessionRequest {
    pub fn new(id: &str, password: &str) -> (r: Self)
        ensures
            r.id@ == id.spec_bytes(),
            r.password@ == password.spec_bytes(),
    {
        JoinSessionRequest {
            id: slice_to_vec(id.as_bytes()),
            password: slice_to_vec(password.as_bytes()),
        }
    }
}

/// The first message of every connection.
#[derive(Clone, Debug, PartialEq, Eq)]
pub enum ServerRequest {
    NewSession(NewSessionRequest),
    JoinSession(JoinSessionRequest),
}

/// What the wire carries of a control request, as plain sequences.
pub enum RequestView {
    NewSession { id: Seq<u8>, password: Seq<u8>, player_limit: u8 },
    JoinSession { id: Seq<u8>, password: Seq<u8> },
}

impl View for ServerRequest {
    type V = RequestView;

    open spec fn view(&self) -> RequestView {
        match self {
            ServerRequest::NewSession(r) => RequestView::NewSession {
                id: r.id@,
                password: r.password@,
                player_limit: r.player_limit,
            },
            ServerRequest::JoinSession(r) => RequestView::JoinSession {
                id: r.id@,
                password: r.password@,
            },
        }
    }
}

pub open spec fn request_wf(r: RequestView) -> bool {
    match r {
        RequestView::NewSession { id, password, .. } => id.len() <= u64::MAX && password.len()
            <= u64::MAX,
        RequestView::JoinSession { id, password } => id.len() <= u64::MAX && password.len()
            <= u64::MAX,
    }
}

/// A tag byte (1 opens a room, 2 joins one), then the counted id and
/// password, and for a new room the limit byte.
pub open spec fn request_bytes(r: RequestView) -> Seq<u8> {
    match r {
        RequestView::NewSession { id, password, player_limit } => seq![1u8] + counted(id)
            + counted(password) + seq![player_limit],
        RequestView::JoinSession { id, password } => seq![2u8] + counted(id) + counted(password),
    }
}

pub open spec fn parse_request(b: Seq<u8>) -> Option<(RequestView, int)> {
    match parse_u8(b, 0) {
        Some((tag, at0)) => match parse_counted(b, at0) {
            Some((id, at1)) => match parse_counted(b, at1) {
                Some((password, at2)) => if tag == 1 {
                    match parse_u8(b, at2) {
                        Some((limit, at3)) => Some(
                            (RequestView::NewSession { id, password, player_limit: limit }, at3),
                        ),
                        None => None,
                    }
                } else if tag == 2 {
                    Some((RequestView::JoinSession { id, password }, at2))
                } else {
                    None
                },
                None => None,
            },
            None => None,
        },
        None => None,
    }
}

impl ServerRequest {
    pub fn to_bytes(&self) -> (r: Vec<u8>)
        ensures
            r@ == request_bytes(self@),
    {
        let mut out: Vec<u8> = Vec::new();
        match self {
            ServerRequest::NewSession(r) => {
                out.push(1u8);
                write_counted(&mut out, r.id.as_slice());
                write_counted(&mut out, r.password.as_slice());
                out.push(r.player_limit);
            },
            ServerRequest::JoinSession(r) => {
                out.push(2u8);
                write_counted(&mut out, r.id.as_slice());
                write_counted(&mut out, r.password.as_slice());
            },
        }
        assert(out@ =~= request_bytes(self@));
        out
    }

    /// Reads a control request from the front of `b`; returns it with the
    /// number of bytes it took.
    pub fn from_bytes(b: &[u8]) -> (r: Option<(ServerRequest, usize)>)
        ensures
            r matches Some((q, n)) ==> parse_request(b@) == Some((q@, n as int)),
            r is None ==> parse_request(b@) is None,
    {
        let (tag, at0) = read_u8(b, 0)?;
        let (id, at1) = read_counted(b, at0)?;
        let (password, at2) = read_counted(b, at1)?;
        if tag == 1 {
            let (limit, at3) = read_u8(b, at2)?;
            Some((ServerRequest::NewSession(NewSessionRequest { id, password, player_limit: limit }), at3))
        } else if tag == 2 {
            Some((ServerRequest::JoinSession(JoinSessionRequest { id, password }), at2))
        } else {
            None
        }
    }
}

/// Decoding an encoded control request gives back the same request,
/// whatever bytes follow it.
pub proof fn lemma_request_round_trip(r: RequestView, rest: Seq<u8>)
    requires
        request_wf(r),
    ensures
        parse_request(request_bytes(r) + rest) == Some((r, request_bytes(r).len() as int)),
{
    let e = Seq::<u8>::empty();
    match r {
        RequestView::NewSession { id, password, player_limit } => {
            let b = request_bytes(r) + rest;
            let t = seq![1u8];
            assert(b =~= e + t + (counted(id) + counted(password) + seq![player_limit] + rest));
            lemma_parse_u8(1u8, e, counted(id) + counted(password) + seq![player_limit] + rest);
            assert(b =~= t + counted(id) + (counted(password) + seq![player_limit] + rest));
            lemma_parse_counted(id, t, counted(password) + seq![player_limit] + rest);
            assert(b =~= (t + counted(id)) + counted(password) + (seq![player_limit] + rest));
            lemma_parse_counted(password, t + counted(id), seq![player_limit] + rest);
            assert(b =~= (t + counted(id) + counted(password)) + seq![player_limit] + rest);
            lemma_parse_u8(player_limit, t + counted(id) + counted(password), rest);
        },
        RequestView::JoinSession { id, password } => {
            let b = request_bytes(r) + rest;
            let t = seq![2u8];
            assert(b =~= e + t + (counted(id) + counted(password) + rest));
            lemma_parse_u8(2u8, e, counted(id) + counted(password) + rest);
            assert(b =~= t + counted(id) + (counted(password) + rest));
            lemma_parse_counted(id, t, counted(password) + rest);
            assert(b =~= (t + counted(id)) + counted(password) + rest);
            lemma_parse_counted(password, t + counted(id), rest);
        },
    }
}

/// The answer to a request that joins a room.
#[derive(Clone, Copy, Debug, PartialEq, Eq, Structural)]
pub enum JoinResponse {
    Accepted,
    Refused(Reason),
}

pub open spec fn join_response_bytes(r: JoinResponse) -> Seq<u8> {
    match r {
        JoinResponse::Accepted => seq![1u8],
        JoinResponse::Refused(why) => seq![2u8, reason_tag(why)],
    }
}

impl JoinResponse {
    pub fn to_bytes(&self) -> (r: Vec<u8>)
        ensures
            r@ == join_response_bytes(*self),
    {
        let mut out: Vec<u8> = Vec::new();
        match self {
            JoinResponse::Accepted => {
                out.push(1u8);
            },
            JoinResponse::Refused(why) => {
                out.push(2u8);
                out.push(why.tag());
            },
        }
        assert(out@ =~= join_response_bytes(*self));
        out
    }
}

/// `after` is `before` with one player added at the end, under an id that
/// no player of `before` holds.
pub open spec fn admits(before: Seq<Player>, after: Seq<Player>) -> bool {
    exists|p: Player| after == before.push(p) && !has_id(before, p.id)
}

/// The players a run of join answers admitted, in order.
pub open spec fn admitted(rs: Seq<(JoinResponse, Option<Player>)>) -> Seq<Player>
    decreases rs.len(),
{
    if rs.len() == 0 {
        Seq::empty()
    } else {
        let prev = admitted(rs.drop_last());
        match rs.last().1 {
            Some(p) => prev.push(p),
            None => prev,
        }
    }
}

/// When every request of a tick was admitted, the roster grew by one player
/// per request: `N` right-password joins into an empty room leave `N`
/// players, whose ids are unique by the room's invariant.
pub proof fn lemma_all_admitted(rs: Seq<(JoinResponse, Option<Player>)>)
    requires
        forall|k: int| 0 <= k < rs.len() ==> (#[trigger] rs[k]).1 is Some,
    ensures
        admitted(rs).len() == rs.len(),
    decreases rs.len(),
{
    if rs.len() > 0 {
        let prev = rs.drop_last();
        assert forall|k: int| 0 <= k < prev.len() implies (#[trigger] prev[k]).1 is Some by {
            assert(prev[k] == rs[k]);
        }
        lemma_all_admitted(prev);
        assert(rs.last() == rs[rs.len() - 1]);
    }
}

/// A roster that starts empty and goes through `n` admissions holds `n`
/// players, no two of them with the same id.
pub proof fn lemma_admissions_fill_roster(rosters: Seq<Seq<Player>>)
    requires
        rosters.len() >= 1,
        rosters[0].len() == 0,
        forall|k: int| 0 <= k < rosters.len() - 1 ==> admits(#[trigger] rosters[k], rosters[k + 1]),
    ensures
        rosters.last().len() == rosters.len() - 1,
        ids_unique(rosters.last()),
    decreases rosters.len(),
{
    if rosters.len() > 1 {
        let prev = rosters.drop_last();
        assert forall|k: int| 0 <= k < prev.len() - 1 implies admits(#[trigger] prev[k], prev[k + 1]) by {
            assert(prev[k] == rosters[k] && prev[k + 1] == rosters[k + 1]);
        }
        lemma_admissions_fill_roster(prev);
        let before = prev.last();
        let after = rosters.last();
        assert(admits(rosters[rosters.len() - 2], rosters[rosters.len() - 1]));
        let p = choose|p: Player| after == before.push(p) && !has_id(before, p.id);
        assert forall|i: int, j: int|
            0 <= i < after.len() && 0 <= j < after.len() && i != j implies after[i].id
            != after[j].id by {
            if i == after.len() - 1 {
                assert(after[j] == before[j]);
            } else if j == after.len() - 1 {
                assert(after[i] == before[i]);
            } else {
                assert(after[i] == before[i] && after[j] == before[j]);
            }
        }
    }
}

/// Relies on `std::str::from_utf8`: it succeeds exactly on well-formed UTF-8.
#[verifier::external_body]
fn is_utf8(b: &[u8]) -> (r: bool)
    ensures
        r == valid_utf8(b@),
{
    std::str::from_utf8(b).is_ok()
}

/// One room: its id and password, its player limit, and the world it runs.
/// Only the room's own tick loop changes the world.
pub struct Session {
    pub id: Vec<u8>,
    pub game_manager: GameManager,
    pub password: Vec<u8>,
    pub player_limit: u8,
}

impl Session {
    pub open spec fn wf(&self) -> bool {
        &&& self.game_manager.wf()
        &&& self.game_manager.default_player is Some
        &&& valid_utf8(self.id@)
        &&& valid_utf8(self.password@)
    }

    /// Everything of the room but its roster is as in `before`.
    pub open spec fn unchanged_but_roster(&self, before: Session) -> bool {
        &&& self.id == before.id
        &&& self.password == before.password
        &&& self.player_limit == before.player_limit
        &&& self.game_manager.objects@ == before.game_manager.objects@
        &&& self.game_manager.default_player == before.game_manager.default_player
        &&& self.game_manager.dt == before.game_manager.dt
    }

    pub open spec fn password_spec(&self) -> Seq<u8> {
        self.password@
    }

    pub open spec fn player_limit_spec(&self) -> u8 {
        self.player_limit
    }

    /// Opens a room as `request` asks, running `game_manager`. A password
    /// that is not UTF-8 is refused first, then an id that is not.
    pub fn new(request: NewSessionRequest, game_manager: GameManager) -> (r: Result<Session, Reason>)
        requires
            game_manager.wf(),
            game_manager.default_player is Some,
        ensures
            !valid_utf8(request.password@) ==> r == Err::<Session, Reason>(Reason::InvalidPassword),
            valid_utf8(request.password@) && !valid_utf8(request.id@) ==> r == Err::<
                Session,
                Reason,
            >(Reason::InvalidIdFormat),
            valid_utf8(request.password@) && valid_utf8(request.id@) ==> (r matches Ok(s) && {
                &&& s.wf()
                &&& s.id@ == request.id@
                &&& s.password_spec() == request.password@
                &&& s.player_limit_spec() == request.player_limit
                &&& s.game_manager == game_manager
            }),
    {
        if !is_utf8(request.password.as_slice()) {
            return Err(Reason::InvalidPassword);
        }
        if !is_utf8(request.id.as_slice()) {
            return Err(Reason::InvalidIdFormat);
        }
        Ok(Session {
            id: request.id,
            game_manager,
            password: request.password,
            player_limit: request.player_limit,
        })
    }

    pub fn player_limit(&self) -> (r: u8)
        ensures
            r == self.player_limit_spec(),
    {
        self.player_limit
    }

    /// Whether `request` carries this room's password.
    pub fn password_matches(&self, request: &JoinSessionRequest) -> (r: bool)
        ensures
            r == (request.password@ == self.password_spec()),
    {
        bytes_equal(request.password.as_slice(), self.password.as_slice())
    }

    /// Answers a join request with the id candidate `candidate` and the
    /// collider the physics engine made for the newcomer. A wrong password
    /// is refused and leaves the roster as it was; a right one admits a copy
    /// of the template avatar under the first free id at or after
    /// `candidate`.
    pub fn admit_request(&mut self, request: &JoinSessionRequest, candidate: u64, collider: Handle) -> (r: (
        JoinResponse,
        Option<Player>,
    ))
        requires
            old(self).wf(),
        ensures
            final(self).wf(),
            final(self).unchanged_but_roster(*old(self)),
            request.password@ != old(self).password_spec() ==> {
                &&& r == (JoinResponse::Refused(Reason::WrongPassword), None::<Player>)
                &&& final(self).game_manager.players@ == old(self).game_manager.players@
            },
            request.password@ == old(self).password_spec() ==> (r.1 matches Some(p) && r.0
                == JoinResponse::Accepted && {
                &&& crate::game::first_free(old(self).game_manager.players@, candidate, p.id)
                &&& p == (Player {
                    id: p.id,
                    collider,
                    ..old(self).game_manager.default_player.unwrap()
                })
                &&& final(self).game_manager.players@ == old(self).game_manager.players@.push(p)
            }),
    {
        if !self.password_matches(request) {
            return (JoinResponse::Refused(Reason::WrongPassword), None);
        }
        let p = self.game_manager.admit_player(candidate, collider);
        (JoinResponse::Accepted, Some(p))
    }

    /// Answers a join request as `admit_request` does, with an id candidate drawn at
    /// random.
    pub fn join_player(&mut self, request: &JoinSessionRequest, collider: Handle) -> (r: (
        JoinResponse,
        Option<Player>,
    ))
        requires
            old(self).wf(),
        ensures
            final(self).wf(),
            final(self).unchanged_but_roster(*old(self)),
            request.password@ != old(self).password_spec() ==> {
                &&& r == (JoinResponse::Refused(Reason::WrongPassword), None::<Player>)
                &&& final(self).game_manager.players@ == old(self).game_manager.players@
            },
            request.password@ == old(self).password_spec() ==> (r.1 matches Some(p) && r.0
                == JoinResponse::Accepted && {
                &&& admits(old(self).game_manager.players@, final(self).game_manager.players@)
                &&& final(self).game_manager.players@ == old(self).game_manager.players@.push(p)
                &&& p == (Player {
                    id: p.id,
                    collider,
                    ..old(self).game_manager.default_player.unwrap()
                })
            }),
    {
        if !self.password_matches(request) {
            return (JoinResponse::Refused(Reason::WrongPassword), None);
        }
        let p = self.game_manager.new_player(collider);
        (JoinResponse::Accepted, Some(p))
    }

    /// Answers a tick's join requests in the order they came, each with the
    /// collider made for it, as `join_player` answers one. The roster grows
    /// by the admitted players, in that order.
    pub fn join_players(&mut self, requests: &Vec<(JoinSessionRequest, Handle)>) -> (r: Vec<
        (JoinResponse, Option<Player>),
    >)
        requires
            old(self).wf(),
        ensures
            final(self).wf(),
            final(self).unchanged_but_roster(*old(self)),
            r@.len() == requests@.len(),
            final(self).game_manager.players@ == old(self).game_manager.players@ + admitted(r@),
            forall|k: int|
                0 <= k < requests@.len() && (#[trigger] requests@[k]).0.password@
                    != old(self).password_spec() ==> r@[k] == (
                    JoinResponse::Refused(Reason::WrongPassword),
                    None::<Player>,
                ),
            forall|k: int|
                0 <= k < requests@.len() && (#[trigger] requests@[k]).0.password@
                    == old(self).password_spec() ==> (r@[k].1 matches Some(p) && r@[k].0
                    == JoinResponse::Accepted && p == (Player {
                    id: p.id,
                    collider: requests@[k].1,
                    ..old(self).game_manager.default_player.unwrap()
                })),
    {
        let mut r: Vec<(JoinResponse, Option<Player>)> = Vec::new();
        let mut i: usize = 0;
        assert(old(self).game_manager.players@ + admitted(r@) =~= old(self).game_manager.players@);
        while i < requests.len()
            invariant
                i <= requests@.len(),
                r@.len() == i,
                self.wf(),
                self.unchanged_but_roster(*old(self)),
                self.game_manager.players@ == old(self).game_manager.players@ + admitted(r@),
                forall|k: int|
                    0 <= k < i && (#[trigger] requests@[k]).0.password@ != old(self).password_spec()
                        ==> r@[k] == (JoinResponse::Refused(Reason::WrongPassword), None::<Player>),
                forall|k: int|
                    0 <= k < i && (#[trigger] requests@[k]).0.password@ == old(self).password_spec()
                        ==> (r@[k].1 matches Some(p) && r@[k].0 == JoinResponse::Accepted && p == (
                    Player {
                        id: p.id,
                        collider: requests@[k].1,
                        ..old(self).game_manager.default_player.unwrap()
                    })),
            decreases requests@.len() - i,
        {
            let ghost before = self.game_manager.players@;
            let ghost rv = r@;
            let answer = self.join_player(&requests[i].0, requests[i].1);
            r.push(answer);
            proof {
                assert(r@.drop_last() =~= rv);
                match answer.1 {
                    Some(p) => {
                        assert(self.game_manager.players@ =~= old(self).game_manager.players@
                            + admitted(r@));
                    },
                    None => {
                        assert(self.game_manager.players@ =~= old(self).game_manager.players@
                            + admitted(r@));
                    },
                }
            }
            i = i + 1;
        }
        r
    }

    /// Drops a departed player from the roster; see
    /// `GameManager::remove_player`.
    pub fn leave(&mut self, id: u64) -> (r: Player)
        requires
            old(self).wf(),
            has_id(old(self).game_manager.players@, id),
        ensures
            final(self).wf(),
            !has_id(final(self).game_manager.players@, id),
            r.id == id,
            exists|i: int|
                0 <= i < old(self).game_manager.players@.len()
                    && old(self).game_manager.players@[i] == r
                    && final(self).game_manager.players@ == old(
                    self,
                ).game_manager.players@.remove(i),
            final(self).unchanged_but_roster(*old(self)),
    {
        self.game_manager.remove_player(id)
    }
}

} // verus!
