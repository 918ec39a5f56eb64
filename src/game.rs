//! The world state of one room: the scene objects with their physics
//! handles, the roster of players, and the snapshot each tick sends back.
//!
//! The physics engine itself lives outside the library; it is handed the
//! handles recorded here and hands back poses.
use crate::objects::Handle;
use crate::player::{pose_view, NetworkObject, ObjectView, Player, ResponseSignal, SignalView};
use vstd::prelude::*;
use vstd::set_lib::lemma_len_subset;

verus! {

/// The bit pattern of the fixed tick interval, `0.016` seconds.
pub const TICK_INTERVAL: u32 = 0x3c83_126f;

/// `id` belongs to some player of `players`.
pub open spec fn has_id(players: Seq<Player>, id: u64) -> bool {
    exists|i: int| 0 <= i < players.len() && players[i].id == id
}

/// No two players share an id.
pub open spec fn ids_unique(players: Seq<Player>) -> bool {
    forall|i: int, j: int|
        0 <= i < players.len() && 0 <= j < players.len() && i != j ==> players[i].id
            != players[j].id
}

/// The `j`-th id tried after `c` when `c` is taken: `c + j`, wrapping past
/// the largest id to zero.
pub open spec fn probe(c: u64, j: int) -> u64 {
    if c + j <= u64::MAX {
        (c + j) as u64
    } else {
        (c + j - u64::MAX - 1) as u64
    }
}

/// `r` is the first id at or after `c`, in wrapping order, that no player of
/// `players` holds.
pub open spec fn first_free(players: Seq<Player>, c: u64, r: u64) -> bool {
    exists|j: int|
        0 <= j <= players.len() && r == probe(c, j) && !has_id(players, r) && forall|k: int|
            0 <= k < j ==> has_id(players, #[trigger] probe(c, k))
}

/// The snapshot that `p` receives: its own pose, the poses of every player
/// in roster order, and every scene object.
pub open spec fn snapshot(
    players: Seq<Player>,
    objects: Seq<(NetworkObject, Handle, Handle)>,
    p: Player,
) -> SignalView {
    SignalView {
        players: players.map_values(|q: Player| pose_view(q)),
        objects: objects.map_values(|t: (NetworkObject, Handle, Handle)| t.0@),
        ..pose_view(p)
    }
}

/// One room's authoritative world: the tick interval, the scene objects in
/// the order they were added with their collider and body handles, the
/// roster, and the avatar every new player is cloned from.
pub struct GameManager {
    pub dt: u32,
    pub objects: Vec<(NetworkObject, Handle, Handle)>,
    pub players: Vec<Player>,
    pub default_player: Option<Player>,
}

impl GameManager {
    pub open spec fn wf(&self) -> bool {
        ids_unique(self.players@)
    }

    /// An empty world ticking at the fixed interval.
    pub fn new() -> (r: Self)
        ensures
            r.wf(),
            r.dt == TICK_INTERVAL,
            r.objects@.len() == 0,
            r.players@.len() == 0,
            r.default_player is None,
    {
        GameManager {
            dt: TICK_INTERVAL,
            objects: Vec::new(),
            players: Vec::new(),
            default_player: None,
        }
    }

    /// A copy of this world, for a new room seeded from a base scene.
    pub fn duplicate(&self) -> (r: Self)
        ensures
            r.dt == self.dt,
            r.players@ == self.players@,
            r.objects@.map_values(|t: (NetworkObject, Handle, Handle)| (t.0@, t.1, t.2))
                == self.objects@.map_values(|t: (NetworkObject, Handle, Handle)| (t.0@, t.1, t.2)),
            r.default_player == self.default_player,
    {
        let mut objects: Vec<(NetworkObject, Handle, Handle)> = Vec::new();
        let mut i: usize = 0;
        while i < self.objects.len()
            invariant
                i <= self.objects@.len(),
                objects@.len() == i,
                forall|k: int|
                    0 <= k < i ==> (#[trigger] objects@[k]).0@ == self.objects@[k].0@
                        && objects@[k].1 == self.objects@[k].1 && objects@[k].2
                        == self.objects@[k].2,
            decreases self.objects@.len() - i,
        {
            let t = &self.objects[i];
            objects.push((t.0.duplicate(), t.1, t.2));
            i = i + 1;
        }
        let mut players: Vec<Player> = Vec::new();
        let mut j: usize = 0;
        while j < self.players.len()
            invariant
                j <= self.players@.len(),
                players@ == self.players@.subrange(0, j as int),
            decreases self.players@.len() - j,
        {
            players.push(self.players[j]);
            j = j + 1;
            assert(players@ =~= self.players@.subrange(0, j as int));
        }
        assert(players@ =~= self.players@);
        let r = GameManager { dt: self.dt, objects, players, default_player: self.default_player };
        assert(r.objects@.map_values(|t: (NetworkObject, Handle, Handle)| (t.0@, t.1, t.2))
            =~= self.objects@.map_values(|t: (NetworkObject, Handle, Handle)| (t.0@, t.1, t.2)));
        r
    }

    /// Where the player `id` stands in the roster, if it is there.
    pub fn find_player(&self, id: u64) -> (r: Option<usize>)
        ensures
            r matches Some(i) ==> i < self.players@.len() && self.players@[i as int].id == id,
            r is None <==> !has_id(self.players@, id),
    {
        let mut i: usize = 0;
        while i < self.players.len()
            invariant
                i <= self.players@.len(),
                forall|k: int| 0 <= k < i ==> self.players@[k].id != id,
            decreases self.players@.len() - i,
        {
            if self.players[i].id == id {
                return Some(i);
            }
            i = i + 1;
        }
        None
    }

    /// The first id at or after `candidate`, in wrapping order, that no
    /// player of the roster holds. There is one, since the roster is shorter
    /// than the id space.
    pub fn fresh_id(&self, candidate: u64) -> (r: u64)
        ensures
            first_free(self.players@, candidate, r),
            !has_id(self.players@, candidate) ==> r == candidate,
    {
        let n = self.players.len();
        let ghost ps = self.players@;
        let ghost ids = ps.map_values(|p: Player| p.id).to_set();
        proof {
            ps.map_values(|p: Player| p.id).lemma_cardinality_of_set();
        }
        let ghost mut tried: Set<u64> = Set::empty();
        let mut c = candidate;
        let mut j: usize = 0;
        while self.find_player(c).is_some()
            invariant
                ps == self.players@,
                n == ps.len(),
                ids == ps.map_values(|p: Player| p.id).to_set(),
                ids.len() <= n,
                j <= n,
                c == probe(candidate, j as int),
                tried.finite(),
                tried.len() == j,
                tried.subset_of(ids),
                forall|x: u64| tried.contains(x) ==> exists|k: int| 0 <= k < j && x == probe(candidate, k),
                forall|k: int| 0 <= k < j ==> has_id(ps, #[trigger] probe(candidate, k)),
            decreases n - j,
        {
            proof {
                let i = choose|i: int| 0 <= i < ps.len() && ps[i].id == c;
                assert(ps.map_values(|p: Player| p.id)[i] == c);
                assert(ids.contains(c));
                assert(!tried.contains(c));
                tried = tried.insert(c);
                lemma_len_subset(tried, ids);
            }
            c = if c == u64::MAX { 0 } else { c + 1 };
            j = j + 1;
        }
        assert(probe(candidate, 0) == candidate);
        c
    }

    /// Installs the avatar that new players are cloned from.
    pub fn set_default_player(&mut self, player: Player)
        ensures
            final(self).default_player == Some(player),
            final(self).players@ == old(self).players@,
            final(self).objects@ == old(self).objects@,
            final(self).dt == old(self).dt,
    {
        self.default_player = Some(player);
    }

    /// Admits a new player: a copy of the template avatar with the collider
    /// `collider` and the first free id at or after `candidate`. The roster
    /// grows by that player at its end.
    ///
    /// Draws the candidate at random, as `new_player` does, to keep ids hard
    /// to guess; the scan that follows a taken id makes the id unique.
    pub fn admit_player(&mut self, candidate: u64, collider: Handle) -> (r: Player)
        requires
            old(self).wf(),
            old(self).default_player is Some,
        ensures
            final(self).wf(),
            first_free(old(self).players@, candidate, r.id),
            r == (Player { id: r.id, collider, ..old(self).default_player.unwrap() }),
            final(self).players@ == old(self).players@.push(r),
            final(self).objects@ == old(self).objects@,
            final(self).default_player == old(self).default_player,
            final(self).dt == old(self).dt,
    {
        let id = self.fresh_id(candidate);
        let template = self.default_player.unwrap();
        let player = Player { id, collider, ..template };
        self.players.push(player);
        proof {
            let ps = self.players@;
            assert forall|i: int, j: int|
                0 <= i < ps.len() && 0 <= j < ps.len() && i != j implies ps[i].id != ps[j].id by {
                if i == ps.len() - 1 {
                    assert(!has_id(old(self).players@, id));
                    assert(old(self).players@[j] == ps[j]);
                } else if j == ps.len() - 1 {
                    assert(!has_id(old(self).players@, id));
                    assert(old(self).players@[i] == ps[i]);
                }
            }
        }
        player
    }

    /// Drops the player `id` from the roster and returns its record, so that
    /// the caller can free its collider. Only a player of the roster may be
    /// removed; a caller that is not sure checks `find_player` first.
    pub fn remove_player(&mut self, id: u64) -> (r: Player)
        requires
            old(self).wf(),
            has_id(old(self).players@, id),
        ensures
            final(self).wf(),
            !has_id(final(self).players@, id),
            final(self).objects@ == old(self).objects@,
            final(self).default_player == old(self).default_player,
            final(self).dt == old(self).dt,
            r.id == id,
            exists|i: int|
                0 <= i < old(self).players@.len() && old(self).players@[i] == r
                    && final(self).players@ == old(self).players@.remove(i),
    {
        let i = self.find_player(id).unwrap();
        let p = self.players.remove(i);
        proof {
            let ps = self.players@;
            let os = old(self).players@;
            assert forall|a: int, b: int|
                0 <= a < ps.len() && 0 <= b < ps.len() && a != b implies ps[a].id
                != ps[b].id by {
                let a2 = if a < i { a } else { a + 1 };
                let b2 = if b < i { b } else { b + 1 };
                assert(ps[a] == os[a2]);
                assert(ps[b] == os[b2]);
            }
            assert forall|k: int| 0 <= k < ps.len() implies ps[k].id != id by {
                let k2 = if k < i { k } else { k + 1 };
                assert(ps[k] == os[k2]);
            }
        }
        p
    }

    /// The snapshot that `player` receives this tick.
    pub fn build_signal(&self, player: &Player) -> (r: ResponseSignal)
        ensures
            r@ == snapshot(self.players@, self.objects@, *player),
    {
        let mut signal = player.pose();
        let mut players: Vec<ResponseSignal> = Vec::new();
        let mut i: usize = 0;
        while i < self.players.len()
            invariant
                i <= self.players@.len(),
                players@.len() == i,
                forall|k: int| 0 <= k < i ==> (#[trigger] players@[k])@ == pose_view(self.players@[k]),
            decreases self.players@.len() - i,
        {
            players.push(self.players[i].pose());
            i = i + 1;
        }
        let mut objects: Vec<NetworkObject> = Vec::new();
        let mut j: usize = 0;
        while j < self.objects.len()
            invariant
                j <= self.objects@.len(),
                objects@.len() == j,
                forall|k: int| 0 <= k < j ==> (#[trigger] objects@[k])@ == self.objects@[k].0@,
            decreases self.objects@.len() - j,
        {
            objects.push(self.objects[j].0.duplicate());
            j = j + 1;
        }
        signal.players = players;
        signal.objects = objects;
        proof {
            let v = signal@;
            let want = snapshot(self.players@, self.objects@, *player);
            assert(v.players =~= want.players);
            assert(v.objects =~= want.objects);
        }
        signal
    }

    /// Records the pose a player reached this tick and returns the snapshot
    /// it receives. An intent of a player no longer in the roster is dropped:
    /// the roster stays as it is and the result is `None`.
    pub fn update_player(&mut self, player: Player) -> (r: Option<ResponseSignal>)
        requires
            old(self).wf(),
        ensures
            final(self).wf(),
            final(self).objects@ == old(self).objects@,
            final(self).default_player == old(self).default_player,
            final(self).dt == old(self).dt,
            !has_id(old(self).players@, player.id) ==> r is None && final(self).players@ == old(
                self,
            ).players@,
            has_id(old(self).players@, player.id) ==> exists|i: int|
                0 <= i < old(self).players@.len() && old(self).players@[i].id == player.id
                    && final(self).players@ == old(self).players@.update(i, player),
            has_id(old(self).players@, player.id) ==> (r matches Some(sig) && sig@ == snapshot(
                final(self).players@,
                final(self).objects@,
                player,
            )),
    {
        match self.find_player(player.id) {
            Some(i) => {
                self.players.set(i, player);
                proof {
                    let ps = self.players@;
                    let os = old(self).players@;
                    assert forall|a: int, b: int|
                        0 <= a < ps.len() && 0 <= b < ps.len() && a != b implies ps[a].id
                        != ps[b].id by {
                        assert(ps[a].id == os[a].id);
                        assert(ps[b].id == os[b].id);
                    }
                }
                Some(self.build_signal(&player))
            },
            None => None,
        }
    }

    /// Records the poses a tick's intents reached, in the order the intents
    /// came, and returns one answer per intent: the snapshot its player
    /// receives, taken right after its own pose was recorded, or `None` for
    /// a player no longer in the roster. The roster keeps its members and
    /// their order.
    pub fn update_players(&mut self, moved: &Vec<Player>) -> (r: Vec<Option<ResponseSignal>>)
        requires
            old(self).wf(),
        ensures
            final(self).wf(),
            final(self).objects@ == old(self).objects@,
            final(self).default_player == old(self).default_player,
            final(self).dt == old(self).dt,
            final(self).players@ == record_all(old(self).players@, moved@),
            r@.len() == moved@.len(),
            forall|k: int|
                0 <= k < moved@.len() ==> ((#[trigger] r@[k]) is Some <==> has_id(
                    old(self).players@,
                    moved@[k].id,
                )),
            forall|k: int|
                0 <= k < moved@.len() ==> (#[trigger] r@[k] matches Some(sig) ==> sig@
                    == snapshot(
                    record_all(old(self).players@, moved@.subrange(0, k + 1)),
                    old(self).objects@,
                    moved@[k],
                )),
    {
        let mut r: Vec<Option<ResponseSignal>> = Vec::new();
        let mut i: usize = 0;
        assert(moved@.subrange(0, 0) =~= Seq::<Player>::empty());
        while i < moved.len()
            invariant
                i <= moved@.len(),
                r@.len() == i,
                self.wf(),
                self.objects@ == old(self).objects@,
                self.default_player == old(self).default_player,
                self.dt == old(self).dt,
                self.players@ == record_all(old(self).players@, moved@.subrange(0, i as int)),
                self.players@.len() == old(self).players@.len(),
                forall|j: int|
                    0 <= j < self.players@.len() ==> (#[trigger] self.players@[j]).id == old(
                        self,
                    ).players@[j].id,
                forall|k: int|
                    0 <= k < i ==> ((#[trigger] r@[k]) is Some <==> has_id(
                        old(self).players@,
                        moved@[k].id,
                    )),
                forall|k: int|
                    0 <= k < i ==> (#[trigger] r@[k] matches Some(sig) ==> sig@ == snapshot(
                        record_all(old(self).players@, moved@.subrange(0, k + 1)),
                        old(self).objects@,
                        moved@[k],
                    )),
            decreases moved@.len() - i,
        {
            let p = moved[i];
            let ghost before = self.players@;
            proof {
                assert(has_id(before, p.id) == has_id(old(self).players@, p.id)) by {
                    if has_id(before, p.id) {
                        let j = choose|j: int| 0 <= j < before.len() && before[j].id == p.id;
                        assert(old(self).players@[j].id == p.id);
                    }
                    if has_id(old(self).players@, p.id) {
                        let j = choose|j: int|
                            0 <= j < old(self).players@.len() && old(self).players@[j].id == p.id;
                        assert(before[j].id == p.id);
                    }
                }
            }
            let answer = self.update_player(p);
            proof {
                assert(moved@.subrange(0, i + 1int).drop_last() =~= moved@.subrange(0, i as int));
                assert(moved@.subrange(0, i + 1int).last() == p);
                assert(self.players@ =~= record(before, p)) by {
                    if has_id(before, p.id) {
                        let j = choose|j: int|
                            0 <= j < before.len() && before[j].id == p.id && self.players@
                                == before.update(j, p);
                        assert forall|m: int| 0 <= m < before.len() && m != j implies before[m].id
                            != p.id by {}
                    }
                }
            }
            r.push(answer);
            i = i + 1;
        }
        assert(moved@.subrange(0, i as int) =~= moved@);
        r
    }

    /// Admits a new player with a randomly drawn id candidate; see
    /// `admit_player` for everything but the candidate.
    pub fn new_player(&mut self, collider: Handle) -> (r: Player)
        requires
            old(self).wf(),
            old(self).default_player is Some,
        ensures
            final(self).wf(),
            !has_id(old(self).players@, r.id),
            r == (Player { id: r.id, collider, ..old(self).default_player.unwrap() }),
            final(self).players@ == old(self).players@.push(r),
            final(self).objects@ == old(self).objects@,
            final(self).default_player == old(self).default_player,
            final(self).dt == old(self).dt,
    {
        let candidate = random_id();
        self.admit_player(candidate, collider)
    }

    /// Adds a scene object, with the collider and body the physics engine
    /// gave it, at the end of the object list.
    pub fn add_object(&mut self, object: NetworkObject, collider: Handle, body: Handle)
        ensures
            final(self).objects@ == old(self).objects@.push((object, collider, body)),
            final(self).players@ == old(self).players@,
            final(self).default_player == old(self).default_player,
            final(self).dt == old(self).dt,
    {
        self.objects.push((object, collider, body));
    }

    /// Copies the poses the physics engine reports after a step onto the
    /// objects clients see, one pose per object in object order. Names and
    /// handles stay, and so does the roster: a step moves no player.
    pub fn refresh_objects(&mut self, poses: &Vec<([u32; 3], [u32; 4])>)
        requires
            poses@.len() == old(self).objects@.len(),
        ensures
            final(self).players@ == old(self).players@,
            final(self).default_player == old(self).default_player,
            final(self).dt == old(self).dt,
            final(self).objects@.len() == old(self).objects@.len(),
            forall|i: int|
                0 <= i < poses@.len() ==> {
                    &&& (#[trigger] final(self).objects@[i]).0@ == (ObjectView {
                        position: poses@[i].0@,
                        rotation: poses@[i].1@,
                        id: old(self).objects@[i].0.id@,
                    })
                    &&& final(self).objects@[i].1 == old(self).objects@[i].1
                    &&& final(self).objects@[i].2 == old(self).objects@[i].2
                },
    {
        let mut i: usize = 0;
        while i < self.objects.len()
            invariant
                i <= self.objects@.len(),
                poses@.len() == self.objects@.len(),
                self.objects@.len() == old(self).objects@.len(),
                self.players@ == old(self).players@,
                self.default_player == old(self).default_player,
                self.dt == old(self).dt,
                forall|k: int|
                    i <= k < self.objects@.len() ==> #[trigger] self.objects@[k] == old(
                        self,
                    ).objects@[k],
                forall|k: int|
                    0 <= k < i ==> {
                        &&& (#[trigger] self.objects@[k]).0@ == (ObjectView {
                            position: poses@[k].0@,
                            rotation: poses@[k].1@,
                            id: old(self).objects@[k].0.id@,
                        })
                        &&& self.objects@[k].1 == old(self).objects@[k].1
                        &&& self.objects@[k].2 == old(self).objects@[k].2
                    },
            decreases self.objects@.len() - i,
        {
            let c = self.objects[i].1;
            let b = self.objects[i].2;
            let id = vstd::slice::slice_to_vec(self.objects[i].0.id.as_slice());
            let o = NetworkObject { position: poses[i].0, rotation: poses[i].1, id };
            self.objects.set(i, (o, c, b));
            i = i + 1;
        }
    }

    /// The bodies of the scene objects whose collider is `collider`, in
    /// object order: those a sensor touched by that collider pushes.
    pub fn bodies_of_collider(&self, collider: Handle) -> (r: Vec<Handle>)
        ensures
            r@ == bodies_of(self.objects@, collider),
    {
        let mut r: Vec<Handle> = Vec::new();
        let mut i: usize = 0;
        while i < self.objects.len()
            invariant
                i <= self.objects@.len(),
                r@ == bodies_of(self.objects@.subrange(0, i as int), collider),
            decreases self.objects@.len() - i,
        {
            assert(self.objects@.subrange(0, i + 1int).drop_last() =~= self.objects@.subrange(
                0,
                i as int,
            ));
            if self.objects[i].1 == collider {
                r.push(self.objects[i].2);
            }
            i = i + 1;
        }
        assert(self.objects@.subrange(0, i as int) =~= self.objects@);
        r
    }
}

/// The roster once `p`'s pose is recorded: the member with `p`'s id, if
/// any, is replaced by `p`.
pub open spec fn record(players: Seq<Player>, p: Player) -> Seq<Player> {
    Seq::new(players.len(), |i: int| if players[i].id == p.id { p } else { players[i] })
}

/// The roster once each of `moved` is recorded, in order.
pub open spec fn record_all(players: Seq<Player>, moved: Seq<Player>) -> Seq<Player>
    decreases moved.len(),
{
    if moved.len() == 0 {
        players
    } else {
        record(record_all(players, moved.drop_last()), moved.last())
    }
}

/// Recording poses never adds, drops or reorders players: the roster keeps
/// its length and the id at each place.
pub proof fn lemma_record_keeps_members(players: Seq<Player>, moved: Seq<Player>)
    ensures
        record_all(players, moved).len() == players.len(),
        forall|j: int|
            0 <= j < players.len() ==> (#[trigger] record_all(players, moved)[j]).id == players[j].id,
    decreases moved.len(),
{
    if moved.len() > 0 {
        lemma_record_keeps_members(players, moved.drop_last());
    }
}

/// The bodies of the objects whose collider is `c`, in object order.
pub open spec fn bodies_of(objects: Seq<(NetworkObject, Handle, Handle)>, c: Handle) -> Seq<Handle>
    decreases objects.len(),
{
    if objects.len() == 0 {
        Seq::empty()
    } else {
        let rest = bodies_of(objects.drop_last(), c);
        if objects.last().1 == c {
            rest.push(objects.last().2)
        } else {
            rest
        }
    }
}

/// Relies on `rand::Rng::gen_range` over `rand::thread_rng`: a uniform draw
/// from zero up to, and not including, the largest `u64`.
#[verifier::external_body]
fn random_id() -> (r: u64)
    ensures
        r < u64::MAX,
{
    rand::Rng::gen_range(&mut rand::thread_rng(), 0..u64::MAX)
}

} // verus!
