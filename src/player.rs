//! The per-tick messages: a client's movement intent and the server's
//! authoritative snapshot, with the scene objects it carries.
//!
//! Every floating-point quantity travels as the bit pattern of an IEEE-754
//! single-precision number; the library moves those words around and never
//! does arithmetic on them.
use crate::wire::{
    counted, le32, lemma_parse_counted, lemma_parse_u32, lemma_parse_u64, lemma_parse_words,
    len_prefix, parse_counted, parse_u32, parse_u64, parse_words, read_counted, read_u32, read_u64,
    read_vec2, read_vec3, read_vec4, words, write_counted, write_u32, write_u64, write_vec2,
    write_vec3, write_vec4,
};
use crate::objects::Handle;
use vstd::prelude::*;

verus! {

/// A client's intent for one tick: the desired movement, the desired change
/// of look direction, and the client's frame time.
#[derive(Clone, Copy, Debug, PartialEq, Eq)]
pub struct PlayerSignal {
    pub desired_mov: [u32; 3],
    pub desired_rot: [u32; 2],
    pub dt: u32,
}

pub struct PlayerSignalView {
    pub desired_mov: Seq<u32>,
    pub desired_rot: Seq<u32>,
    pub dt: u32,
}

impl View for PlayerSignal {
    type V = PlayerSignalView;

    open spec fn view(&self) -> PlayerSignalView {
        PlayerSignalView { desired_mov: self.desired_mov@, desired_rot: self.desired_rot@, dt: self.dt }
    }
}

/// The shape every encoded intent has: three movement words, two look words.
pub open spec fn player_signal_wf(s: PlayerSignalView) -> bool {
    s.desired_mov.len() == 3 && s.desired_rot.len() == 2
}

pub open spec fn player_signal_bytes(s: PlayerSignalView) -> Seq<u8> {
    words(s.desired_mov) + words(s.desired_rot) + le32(s.dt)
}

pub open spec fn parse_player_signal(b: Seq<u8>, pos: int) -> Option<(PlayerSignalView, int)> {
    match parse_words(b, pos, 3) {
        Some((m, at1)) => match parse_words(b, at1, 2) {
            Some((r, at2)) => match parse_u32(b, at2) {
                Some((d, at3)) => Some((PlayerSignalView { desired_mov: m, desired_rot: r, dt: d }, at3)),
                None => None,
            },
            None => None,
        },
        None => None,
    }
}

impl PlayerSignal {
    pub fn new(desired_mov: [u32; 3], desired_rot: [u32; 2], dt: u32) -> (r: Self)
        ensures
            r.desired_mov == desired_mov,
            r.desired_rot == desired_rot,
            r.dt == dt,
    {
        PlayerSignal { desired_mov, desired_rot, dt }
    }

    pub fn to_bytes(&self) -> (r: Vec<u8>)
        ensures
            r@ == player_signal_bytes(self@),
    {
        let mut out: Vec<u8> = Vec::new();
        write_vec3(&mut out, &self.desired_mov);
        write_vec2(&mut out, &self.desired_rot);
        write_u32(&mut out, self.dt);
        assert(out@ =~= player_signal_bytes(self@));
        out
    }

    /// Reads an intent from the front of `b`; returns it with the number of
    /// bytes it took. Bytes after it are left alone.
    pub fn from_bytes(b: &[u8]) -> (r: Option<(PlayerSignal, usize)>)
        ensures
            r matches Some((s, n)) ==> parse_player_signal(b@, 0) == Some((s@, n as int)),
            r is None ==> parse_player_signal(b@, 0) is None,
    {
        let (m, at1) = read_vec3(b, 0)?;
        let (r, at2) = read_vec2(b, at1)?;
        let (d, at3) = read_u32(b, at2)?;
        Some((PlayerSignal { desired_mov: m, desired_rot: r, dt: d }, at3))
    }
}

/// Decoding what was encoded gives back the same intent, whatever follows it.
pub proof fn lemma_player_signal_round_trip(s: PlayerSignalView, rest: Seq<u8>)
    requires
        player_signal_wf(s),
    ensures
        parse_player_signal(player_signal_bytes(s) + rest, 0) == Some(
            (s, player_signal_bytes(s).len() as int),
        ),
{
    let e = Seq::<u8>::empty();
    let m = words(s.desired_mov);
    let r = words(s.desired_rot);
    let b = player_signal_bytes(s) + rest;
    assert(b =~= e + m + (r + le32(s.dt) + rest));
    lemma_parse_words(s.desired_mov, e, r + le32(s.dt) + rest);
    assert(parse_words(b, 0, 3) == Some((s.desired_mov, m.len() as int)));
    assert(b =~= (e + m) + r + (le32(s.dt) + rest));
    lemma_parse_words(s.desired_rot, e + m, le32(s.dt) + rest);
    assert(parse_words(b, m.len() as int, 2) == Some((s.desired_rot, (m.len() + r.len()) as int)));
    assert(b =~= (e + m + r) + le32(s.dt) + rest);
    lemma_parse_u32(s.dt, e + m + r, rest);
    assert(parse_u32(b, (m.len() + r.len()) as int) == Some((s.dt, (m.len() + r.len() + 4) as int)));
    assert(player_signal_bytes(s).len() == m.len() + r.len() + 4);
}

/// A scene object as clients see it: its name, position and orientation.
#[derive(Clone, Debug, PartialEq, Eq)]
pub struct NetworkObject {
    pub position: [u32; 3],
    pub rotation: [u32; 4],
    pub id: Vec<u8>,
}

pub struct ObjectView {
    pub position: Seq<u32>,
    pub rotation: Seq<u32>,
    pub id: Seq<u8>,
}

impl View for NetworkObject {
    type V = ObjectView;

    open spec fn view(&self) -> ObjectView {
        ObjectView { position: self.position@, rotation: self.rotation@, id: self.id@ }
    }
}

pub open spec fn object_wf(o: ObjectView) -> bool {
    o.position.len() == 3 && o.rotation.len() == 4 && o.id.len() <= u64::MAX
}

pub open spec fn object_bytes(o: ObjectView) -> Seq<u8> {
    words(o.position) + words(o.rotation) + counted(o.id)
}

pub open spec fn parse_object(b: Seq<u8>, pos: int) -> Option<(ObjectView, int)> {
    match parse_words(b, pos, 3) {
        Some((p, at1)) => match parse_words(b, at1, 4) {
            Some((r, at2)) => match parse_counted(b, at2) {
                Some((id, at3)) => Some((ObjectView { position: p, rotation: r, id }, at3)),
                None => None,
            },
            None => None,
        },
        None => None,
    }
}

pub open spec fn objects_bytes(os: Seq<ObjectView>) -> Seq<u8>
    decreases os.len(),
{
    if os.len() == 0 {
        Seq::empty()
    } else {
        object_bytes(os[0]) + objects_bytes(os.subrange(1, os.len() as int))
    }
}

pub open spec fn parse_objects(b: Seq<u8>, pos: int, n: nat) -> Option<(Seq<ObjectView>, int)>
    decreases n,
{
    if n == 0 {
        Some((Seq::empty(), pos))
    } else {
        match parse_object(b, pos) {
            Some((o, p)) => match parse_objects(b, p, (n - 1) as nat) {
                Some((rest, e)) => Some((seq![o] + rest, e)),
                None => None,
            },
            None => None,
        }
    }
}

proof fn lemma_object_round_trip(o: ObjectView, pre: Seq<u8>, rest: Seq<u8>)
    requires
        object_wf(o),
    ensures
        parse_object(pre + object_bytes(o) + rest, pre.len() as int) == Some(
            (o, (pre.len() + object_bytes(o).len()) as int),
        ),
        object_bytes(o).len() >= 36,
{
    let p = words(o.position);
    let r = words(o.rotation);
    let b = pre + object_bytes(o) + rest;
    assert(b =~= pre + p + (r + counted(o.id) + rest));
    lemma_parse_words(o.position, pre, r + counted(o.id) + rest);
    assert(b =~= (pre + p) + r + (counted(o.id) + rest));
    lemma_parse_words(o.rotation, pre + p, counted(o.id) + rest);
    assert(b =~= (pre + p + r) + counted(o.id) + rest);
    lemma_parse_counted(o.id, pre + p + r, rest);
}

proof fn lemma_objects_round_trip(os: Seq<ObjectView>, pre: Seq<u8>, rest: Seq<u8>)
    requires
        forall|i: int| 0 <= i < os.len() ==> object_wf(#[trigger] os[i]),
    ensures
        parse_objects(pre + objects_bytes(os) + rest, pre.len() as int, os.len()) == Some(
            (os, (pre.len() + objects_bytes(os).len()) as int),
        ),
    decreases os.len(),
{
    if os.len() > 0 {
        let tail = os.subrange(1, os.len() as int);
        let ob = object_bytes(os[0]);
        assert(pre + objects_bytes(os) + rest =~= pre + ob + (objects_bytes(tail) + rest));
        lemma_object_round_trip(os[0], pre, objects_bytes(tail) + rest);
        assert(pre + objects_bytes(os) + rest =~= (pre + ob) + objects_bytes(tail) + rest);
        lemma_objects_round_trip(tail, pre + ob, rest);
        assert(seq![os[0]] + tail =~= os);
    } else {
        assert(pre + objects_bytes(os) + rest =~= pre + rest);
    }
}

proof fn lemma_objects_bytes_push(os: Seq<ObjectView>, o: ObjectView)
    ensures
        objects_bytes(os.push(o)) == objects_bytes(os) + object_bytes(o),
    decreases os.len(),
{
    if os.len() == 0 {
        assert(os.push(o).subrange(1, 1) =~= Seq::<ObjectView>::empty());
        assert(objects_bytes(Seq::<ObjectView>::empty()) =~= Seq::empty());
        assert(os.push(o)[0] == o);
        assert(objects_bytes(os.push(o)) =~= object_bytes(o) + Seq::empty());
        assert(objects_bytes(os) =~= Seq::empty());
    } else {
        let tail = os.subrange(1, os.len() as int);
        assert(os.push(o).subrange(1, os.len() + 1int) =~= tail.push(o));
        lemma_objects_bytes_push(tail, o);
        assert(objects_bytes(os.push(o)) =~= objects_bytes(os) + object_bytes(o));
    }
}

impl NetworkObject {
    pub fn new(id: Vec<u8>, position: [u32; 3], rotation: [u32; 4]) -> (r: Self)
        ensures
            r.id@ == id@,
            r.position == position,
            r.rotation == rotation,
    {
        NetworkObject { position, rotation, id }
    }

    pub fn write(&self, out: &mut Vec<u8>)
        ensures
            final(out)@ == old(out)@ + object_bytes(self@),
    {
        let ghost start = out@;
        write_vec3(out, &self.position);
        write_vec4(out, &self.rotation);
        write_counted(out, self.id.as_slice());
        assert(out@ =~= start + object_bytes(self@));
    }

    pub fn read(b: &[u8], pos: usize) -> (r: Option<(NetworkObject, usize)>)
        ensures
            r matches Some((o, p)) ==> parse_object(b@, pos as int) == Some((o@, p as int)),
            r is None ==> parse_object(b@, pos as int) is None,
    {
        let (p, at1) = read_vec3(b, pos)?;
        let (r, at2) = read_vec4(b, at1)?;
        let (id, at3) = read_counted(b, at2)?;
        Some((NetworkObject { position: p, rotation: r, id }, at3))
    }
}

/// The authoritative state of one tick as a client receives it: the pose of
/// the receiving player, the poses of every player in the room, and the
/// scene objects. On the wire each list is preceded by its length, so the
/// counts always agree with the lists.
#[derive(Debug)]
pub struct ResponseSignal {
    pub translation: [u32; 3],
    pub camera_pos: [u32; 3],
    pub camera_target: [u32; 3],
    pub fwd: [u32; 3],
    pub right: [u32; 3],
    pub players: Vec<ResponseSignal>,
    pub objects: Vec<NetworkObject>,
}

pub struct SignalView {
    pub translation: Seq<u32>,
    pub camera_pos: Seq<u32>,
    pub camera_target: Seq<u32>,
    pub fwd: Seq<u32>,
    pub right: Seq<u32>,
    pub players: Seq<SignalView>,
    pub objects: Seq<ObjectView>,
}

pub open spec fn blank_signal_view() -> SignalView {
    SignalView {
        translation: Seq::empty(),
        camera_pos: Seq::empty(),
        camera_target: Seq::empty(),
        fwd: Seq::empty(),
        right: Seq::empty(),
        players: Seq::empty(),
        objects: Seq::empty(),
    }
}

pub open spec fn signal_view(s: ResponseSignal) -> SignalView
    decreases s,
{
    SignalView {
        translation: s.translation@,
        camera_pos: s.camera_pos@,
        camera_target: s.camera_target@,
        fwd: s.fwd@,
        right: s.right@,
        players: Seq::new(
            s.players@.len(),
            |i: int|
                if 0 <= i < s.players@.len() {
                    signal_view(s.players@[i])
                } else {
                    blank_signal_view()
                },
        ),
        objects: s.objects@.map_values(|o: NetworkObject| o@),
    }
}

impl View for ResponseSignal {
    type V = SignalView;

    open spec fn view(&self) -> SignalView {
        signal_view(*self)
    }
}

/// The shape every snapshot that came from a value has: five vectors of
/// three words each, lists whose lengths fit the 64-bit counts, and
/// well-formed members.
pub open spec fn signal_wf(s: SignalView) -> bool
    decreases s,
{
    &&& s.translation.len() == 3
    &&& s.camera_pos.len() == 3
    &&& s.camera_target.len() == 3
    &&& s.fwd.len() == 3
    &&& s.right.len() == 3
    &&& s.players.len() <= u64::MAX
    &&& s.objects.len() <= u64::MAX
    &&& forall|i: int| 0 <= i < s.objects.len() ==> object_wf(#[trigger] s.objects[i])
    &&& forall|i: int| 0 <= i < s.players.len() ==> signal_wf(#[trigger] s.players[i])
}

pub open spec fn pose_bytes(s: SignalView) -> Seq<u8> {
    words(s.translation) + words(s.camera_pos) + words(s.camera_target) + words(s.fwd) + words(
        s.right,
    )
}

pub open spec fn signal_bytes(s: SignalView) -> Seq<u8>
    decreases s,
{
    len_prefix(s.players.len()) + len_prefix(s.objects.len()) + pose_bytes(s) + signals_bytes(
        s.players,
    ) + objects_bytes(s.objects)
}

pub open spec fn signals_bytes(ps: Seq<SignalView>) -> Seq<u8>
    decreases ps,
{
    if ps.len() == 0 {
        Seq::empty()
    } else {
        signal_bytes(ps[0]) + signals_bytes(ps.subrange(1, ps.len() as int))
    }
}

/// The fixed part of a snapshot: the two counts and the five vectors.
pub open spec fn parse_header(b: Seq<u8>, pos: int) -> Option<(u64, u64, SignalView, int)> {
    match parse_u64(b, pos) {
        Some((np, at1)) => match parse_u64(b, at1) {
            Some((no, at2)) => match parse_words(b, at2, 3) {
                Some((t, at3)) => match parse_words(b, at3, 3) {
                    Some((cp, at4)) => match parse_words(b, at4, 3) {
                        Some((ct, at5)) => match parse_words(b, at5, 3) {
                            Some((f, at6)) => match parse_words(b, at6, 3) {
                                Some((r, at7)) => Some(
                                    (
                                        np,
                                        no,
                                        SignalView {
                                            translation: t,
                                            camera_pos: cp,
                                            camera_target: ct,
                                            fwd: f,
                                            right: r,
                                            players: Seq::empty(),
                                            objects: Seq::empty(),
                                        },
                                        at7,
                                    ),
                                ),
                                None => None,
                            },
                            None => None,
                        },
                        None => None,
                    },
                    None => None,
                },
                None => None,
            },
            None => None,
        },
        None => None,
    }
}

pub open spec fn parse_signal(b: Seq<u8>, pos: int) -> Option<(SignalView, int)>
    decreases b.len() - pos, 0int,
{
    if !(0 <= pos <= b.len()) {
        None
    } else {
        match parse_header(b, pos) {
            Some((np, no, h, p)) => if !(pos < p <= b.len()) {
                None
            } else {
                match parse_signals(b, p, np as nat) {
                    Some((ps, q)) => match parse_objects(b, q, no as nat) {
                        Some((os, e)) => Some((SignalView { players: ps, objects: os, ..h }, e)),
                        None => None,
                    },
                    None => None,
                }
            },
            None => None,
        }
    }
}

pub open spec fn parse_signals(b: Seq<u8>, pos: int, n: nat) -> Option<(Seq<SignalView>, int)>
    decreases b.len() - pos, 1int,
{
    if n == 0 {
        Some((Seq::empty(), pos))
    } else if !(0 <= pos <= b.len()) {
        None
    } else {
        match parse_signal(b, pos) {
            Some((s, p)) => if !(pos < p <= b.len()) {
                None
            } else {
                match parse_signals(b, p, (n - 1) as nat) {
                    Some((rest, e)) => Some((seq![s] + rest, e)),
                    None => None,
                }
            },
            None => None,
        }
    }
}

proof fn lemma_signals_bytes_push(ps: Seq<SignalView>, x: SignalView)
    ensures
        signals_bytes(ps.push(x)) == signals_bytes(ps) + signal_bytes(x),
    decreases ps.len(),
{
    if ps.len() == 0 {
        assert(ps.push(x).subrange(1, 1) =~= Seq::<SignalView>::empty());
        assert(signals_bytes(Seq::<SignalView>::empty()) =~= Seq::empty());
        assert(ps.push(x)[0] == x);
        assert(signals_bytes(ps.push(x)) =~= signal_bytes(x) + Seq::empty());
        assert(signals_bytes(ps) =~= Seq::empty());
    } else {
        let tail = ps.subrange(1, ps.len() as int);
        assert(ps.push(x).subrange(1, ps.len() + 1int) =~= tail.push(x));
        lemma_signals_bytes_push(tail, x);
        assert(signals_bytes(ps.push(x)) =~= signals_bytes(ps) + signal_bytes(x));
    }
}

proof fn lemma_header_round_trip(s: SignalView, pre: Seq<u8>, rest: Seq<u8>)
    requires
        signal_wf(s),
    ensures
        ({
            let b = pre + len_prefix(s.players.len()) + len_prefix(s.objects.len()) + pose_bytes(s)
                + rest;
            let h = SignalView { players: Seq::empty(), objects: Seq::empty(), ..s };
            parse_header(b, pre.len() as int) == Some(
                (
                    s.players.len() as u64,
                    s.objects.len() as u64,
                    h,
                    pre.len() + 76int,
                ),
            )
        }),
        pose_bytes(s).len() == 60,
{
    let np = len_prefix(s.players.len());
    let no = len_prefix(s.objects.len());
    let t = words(s.translation);
    let cp = words(s.camera_pos);
    let ct = words(s.camera_target);
    let f = words(s.fwd);
    let r = words(s.right);
    let b = pre + np + no + pose_bytes(s) + rest;
    assert(b =~= pre + np + (no + t + cp + ct + f + r + rest));
    lemma_parse_u64(s.players.len() as u64, pre, no + t + cp + ct + f + r + rest);
    assert(b =~= (pre + np) + no + (t + cp + ct + f + r + rest));
    lemma_parse_u64(s.objects.len() as u64, pre + np, t + cp + ct + f + r + rest);
    assert(b =~= (pre + np + no) + t + (cp + ct + f + r + rest));
    lemma_parse_words(s.translation, pre + np + no, cp + ct + f + r + rest);
    assert(b =~= (pre + np + no + t) + cp + (ct + f + r + rest));
    lemma_parse_words(s.camera_pos, pre + np + no + t, ct + f + r + rest);
    assert(b =~= (pre + np + no + t + cp) + ct + (f + r + rest));
    lemma_parse_words(s.camera_target, pre + np + no + t + cp, f + r + rest);
    assert(b =~= (pre + np + no + t + cp + ct) + f + (r + rest));
    lemma_parse_words(s.fwd, pre + np + no + t + cp + ct, r + rest);
    assert(b =~= (pre + np + no + t + cp + ct + f) + r + rest);
    lemma_parse_words(s.right, pre + np + no + t + cp + ct + f, rest);
}

/// Decoding an encoded snapshot gives back the same snapshot, nested player
/// lists and object lists included, whatever bytes follow it.
#[verifier::rlimit(40)]
pub proof fn lemma_signal_round_trip(s: SignalView, pre: Seq<u8>, rest: Seq<u8>)
    requires
        signal_wf(s),
    ensures
        parse_signal(pre + signal_bytes(s) + rest, pre.len() as int) == Some(
            (s, (pre.len() + signal_bytes(s).len()) as int),
        ),
        signal_bytes(s).len() >= 76,
    decreases s,
{
    let hd = len_prefix(s.players.len()) + len_prefix(s.objects.len()) + pose_bytes(s);
    let sb = signals_bytes(s.players);
    let ob = objects_bytes(s.objects);
    let b = pre + signal_bytes(s) + rest;
    let h = SignalView { players: Seq::empty(), objects: Seq::empty(), ..s };
    let at0 = pre.len() as int;
    assert(b =~= pre + len_prefix(s.players.len()) + len_prefix(s.objects.len()) + pose_bytes(s)
        + (sb + ob + rest));
    lemma_header_round_trip(s, pre, sb + ob + rest);
    lemma_parse_u64(s.players.len() as u64, pre, rest);
    lemma_parse_u64(s.objects.len() as u64, pre, rest);
    assert(hd.len() == 76);
    assert(parse_header(b, at0) == Some(
        (s.players.len() as u64, s.objects.len() as u64, h, at0 + 76),
    ));
    assert(b =~= (pre + hd) + sb + (ob + rest));
    lemma_signals_round_trip(s.players, pre + hd, ob + rest);
    let q = at0 + 76 + sb.len();
    assert(parse_signals(b, at0 + 76, s.players.len()) == Some((s.players, q)));
    assert(b =~= (pre + hd + sb) + ob + rest);
    lemma_objects_round_trip(s.objects, pre + hd + sb, rest);
    let e = q + ob.len();
    assert(parse_objects(b, q, s.objects.len()) == Some((s.objects, e)));
    assert(signal_bytes(s).len() == 76 + sb.len() + ob.len());
    assert(SignalView { players: s.players, objects: s.objects, ..h } == s);
}

/// Decoding `n` encoded snapshots in a row gives back the same list.
pub proof fn lemma_signals_round_trip(ps: Seq<SignalView>, pre: Seq<u8>, rest: Seq<u8>)
    requires
        forall|i: int| 0 <= i < ps.len() ==> signal_wf(#[trigger] ps[i]),
    ensures
        parse_signals(pre + signals_bytes(ps) + rest, pre.len() as int, ps.len()) == Some(
            (ps, (pre.len() + signals_bytes(ps).len()) as int),
        ),
    decreases ps,
{
    if ps.len() > 0 {
        let tail = ps.subrange(1, ps.len() as int);
        let first = signal_bytes(ps[0]);
        assert(pre + signals_bytes(ps) + rest =~= pre + first + (signals_bytes(tail) + rest));
        lemma_signal_round_trip(ps[0], pre, signals_bytes(tail) + rest);
        assert(pre + signals_bytes(ps) + rest =~= (pre + first) + signals_bytes(tail) + rest);
        assert forall|i: int| 0 <= i < tail.len() implies signal_wf(#[trigger] tail[i]) by {
            assert(tail[i] == ps[i + 1]);
        }
        lemma_signals_round_trip(tail, pre + first, rest);
        assert(seq![ps[0]] + tail =~= ps);
    } else {
        assert(pre + signals_bytes(ps) + rest =~= pre + rest);
    }
}

impl ResponseSignal {
    /// A snapshot of one pose with empty player and object lists.
    pub fn new(
        translation: [u32; 3],
        camera_pos: [u32; 3],
        camera_target: [u32; 3],
        fwd: [u32; 3],
        right: [u32; 3],
    ) -> (r: Self)
        ensures
            r.translation == translation,
            r.camera_pos == camera_pos,
            r.camera_target == camera_target,
            r.fwd == fwd,
            r.right == right,
            r.players@.len() == 0,
            r.objects@.len() == 0,
    {
        ResponseSignal {
            translation,
            camera_pos,
            camera_target,
            fwd,
            right,
            players: Vec::new(),
            objects: Vec::new(),
        }
    }

    /// Appends the encoding of this snapshot to `out`.
    pub fn write(&self, out: &mut Vec<u8>)
        ensures
            final(out)@ == old(out)@ + signal_bytes(self@),
        decreases self,
    {
        let ghost start = out@;
        let ghost v = self@;
        write_u64(out, self.players.len() as u64);
        write_u64(out, self.objects.len() as u64);
        write_vec3(out, &self.translation);
        write_vec3(out, &self.camera_pos);
        write_vec3(out, &self.camera_target);
        write_vec3(out, &self.fwd);
        write_vec3(out, &self.right);
        let ghost mid = out@;
        assert(mid =~= start + len_prefix(v.players.len()) + len_prefix(v.objects.len())
            + pose_bytes(v));
        let mut i: usize = 0;
        while i < self.players.len()
            invariant
                i <= self.players@.len(),
                v == self@,
                out@ == mid + signals_bytes(v.players.subrange(0, i as int)),
            decreases self.players@.len() - i,
        {
            self.players[i].write(out);
            proof {
                lemma_signals_bytes_push(v.players.subrange(0, i as int), v.players[i as int]);
                assert(v.players.subrange(0, i as int).push(v.players[i as int])
                    =~= v.players.subrange(0, i + 1int));
            }
            i = i + 1;
        }
        assert(v.players.subrange(0, i as int) =~= v.players);
        let ghost mid2 = out@;
        let mut j: usize = 0;
        while j < self.objects.len()
            invariant
                j <= self.objects@.len(),
                v == self@,
                out@ == mid2 + objects_bytes(v.objects.subrange(0, j as int)),
            decreases self.objects@.len() - j,
        {
            self.objects[j].write(out);
            proof {
                lemma_objects_bytes_push(v.objects.subrange(0, j as int), v.objects[j as int]);
                assert(v.objects.subrange(0, j as int).push(v.objects[j as int])
                    =~= v.objects.subrange(0, j + 1int));
            }
            j = j + 1;
        }
        assert(v.objects.subrange(0, j as int) =~= v.objects);
        assert(out@ =~= start + signal_bytes(v));
    }

    pub fn to_bytes(&self) -> (r: Vec<u8>)
        ensures
            r@ == signal_bytes(self@),
    {
        let mut out: Vec<u8> = Vec::new();
        self.write(&mut out);
        assert(out@ =~= signal_bytes(self@));
        out
    }
}

/// Puts decoded elements in front of what a list decoder returned for the
/// rest of the list.
pub open spec fn prepend<T>(front: Seq<T>, r: Option<(Seq<T>, int)>) -> Option<(Seq<T>, int)> {
    match r {
        Some((rest, e)) => Some((front + rest, e)),
        None => None,
    }
}

fn read_header(b: &[u8], pos: usize) -> (r: Option<(u64, u64, ResponseSignal, usize)>)
    ensures
        r matches Some((np, no, h, p)) ==> {
            &&& parse_header(b@, pos as int) == Some((np, no, h@, p as int))
            &&& h.players@.len() == 0
            &&& h.objects@.len() == 0
        },
        r is None ==> parse_header(b@, pos as int) is None,
{
    let (np, at1) = read_u64(b, pos)?;
    let (no, at2) = read_u64(b, at1)?;
    let (t, at3) = read_vec3(b, at2)?;
    let (cp, at4) = read_vec3(b, at3)?;
    let (ct, at5) = read_vec3(b, at4)?;
    let (f, at6) = read_vec3(b, at5)?;
    let (r, at7) = read_vec3(b, at6)?;
    let h = ResponseSignal::new(t, cp, ct, f, r);
    assert(h@.players =~= Seq::<SignalView>::empty());
    assert(h@.objects =~= Seq::<ObjectView>::empty());
    Some((np, no, h, at7))
}

impl ResponseSignal {
    /// Reads a snapshot that starts at `pos`; returns it with the position
    /// just after it.
    pub fn read(b: &[u8], pos: usize) -> (r: Option<(ResponseSignal, usize)>)
        ensures
            r matches Some((s, p)) ==> parse_signal(b@, pos as int) == Some((s@, p as int)),
            r is None ==> parse_signal(b@, pos as int) is None,
        decreases b@.len() - pos,
    {
        if pos > b.len() {
            return None;
        }
        let (np, no, mut h, p) = read_header(b, pos)?;
        if !(pos < p && p <= b.len()) {
            return None;
        }
        let ghost bv = b@;
        let ghost all = parse_signals(bv, p as int, np as nat);
        let mut players: Vec<ResponseSignal> = Vec::new();
        let mut cur: usize = p;
        let mut k: u64 = 0;
        while k < np
            invariant
                bv == b@,
                pos < p <= cur <= b@.len(),
                parse_header(bv, pos as int) == Some((np, no, h@, p as int)),
                k <= np,
                all == parse_signals(bv, p as int, np as nat),
                all == prepend(
                    Seq::new(players@.len(), |i: int| players@[i]@),
                    parse_signals(bv, cur as int, (np - k) as nat),
                ),
            decreases np - k,
        {
            let ghost pv = Seq::new(players@.len(), |i: int| players@[i]@);
            let (s, q) = match ResponseSignal::read(b, cur) {
                Some(x) => x,
                None => {
                    assert(parse_signals(bv, cur as int, (np - k) as nat) is None);
                    assert(all is None);
                    return None;
                },
            };
            if !(cur < q && q <= b.len()) {
                assert(parse_signals(bv, cur as int, (np - k) as nat) is None);
                assert(all is None);
                return None;
            }
            proof {
                let tailr = parse_signals(bv, q as int, (np - k - 1) as nat);
                assert(parse_signals(bv, cur as int, (np - k) as nat) == prepend(seq![s@], tailr));
                match tailr {
                    Some((rest, e)) => {
                        assert(pv + (seq![s@] + rest) =~= pv.push(s@) + rest);
                    },
                    None => {},
                }
            }
            players.push(s);
            proof {
                assert(Seq::new(players@.len(), |i: int| players@[i]@) =~= pv.push(s@));
            }
            cur = q;
            k = k + 1;
        }
        let ghost pv = Seq::new(players@.len(), |i: int| players@[i]@);
        assert(pv + Seq::<SignalView>::empty() =~= pv);
        let ghost allo = parse_objects(bv, cur as int, no as nat);
        let mut objects: Vec<NetworkObject> = Vec::new();
        let mut j: u64 = 0;
        let ghost mid = cur;
        assert(all == Some((pv, mid as int)));
        while j < no
            invariant
                bv == b@,
                pos < p <= bv.len(),
                parse_header(bv, pos as int) == Some((np, no, h@, p as int)),
                all == parse_signals(bv, p as int, np as nat),
                all == Some((pv, mid as int)),
                j <= no,
                allo == parse_objects(bv, mid as int, no as nat),
                allo == prepend(
                    objects@.map_values(|o: NetworkObject| o@),
                    parse_objects(bv, cur as int, (no - j) as nat),
                ),
            decreases no - j,
        {
            let ghost ov = objects@.map_values(|o: NetworkObject| o@);
            let (o, q) = match NetworkObject::read(b, cur) {
                Some(x) => x,
                None => {
                    assert(allo is None);
                    return None;
                },
            };
            proof {
                let tailr = parse_objects(bv, q as int, (no - j - 1) as nat);
                assert(parse_objects(bv, cur as int, (no - j) as nat) == prepend(seq![o@], tailr));
                match tailr {
                    Some((rest, e)) => {
                        assert(ov + (seq![o@] + rest) =~= ov.push(o@) + rest);
                    },
                    None => {},
                }
            }
            objects.push(o);
            proof {
                assert(objects@.map_values(|o: NetworkObject| o@) =~= ov.push(o@));
            }
            cur = q;
            j = j + 1;
        }
        let ghost ov = objects@.map_values(|o: NetworkObject| o@);
        assert(ov + Seq::<ObjectView>::empty() =~= ov);
        h.players = players;
        h.objects = objects;
        proof {
            let hv = h@;
            assert(hv.players =~= pv);
            assert(hv.objects =~= ov);
        }
        Some((h, cur))
    }

    /// Reads a snapshot from the front of `b`; returns it with the number of
    /// bytes it took.
    pub fn from_bytes(b: &[u8]) -> (r: Option<(ResponseSignal, usize)>)
        ensures
            r matches Some((s, n)) ==> parse_signal(b@, 0) == Some((s@, n as int)),
            r is None ==> parse_signal(b@, 0) is None,
    {
        ResponseSignal::read(b, 0)
    }
}

/// The bit pattern of `0.0`.
pub const ZERO: u32 = 0;

/// The bit pattern of `1.0`.
pub const ONE: u32 = 0x3f80_0000;

/// The unit vector pointing forward, along `+z`.
pub const FORWARD: [u32; 3] = [ZERO, ZERO, ONE];

/// The unit vector pointing right, along `+x`.
pub const RIGHT: [u32; 3] = [ONE, ZERO, ZERO];

/// The origin.
pub const ORIGIN: [u32; 3] = [ZERO, ZERO, ZERO];

/// A participant's avatar: its id, its collider in the physics engine, and
/// its pose and camera.
#[derive(Clone, Copy, Debug)]
pub struct Player {
    pub id: u64,
    pub collider: Handle,
    pub position: [u32; 3],
    pub fwd: [u32; 3],
    pub camera_position: [u32; 3],
    pub camera_target: [u32; 3],
    pub right: [u32; 3],
    pub speed: u32,
    pub pitch: u32,
    pub yaw: u32,
    pub mass: u32,
    pub dt: u32,
}

/// The pose of a player as a snapshot carries it, with empty lists.
pub open spec fn pose_view(p: Player) -> SignalView {
    SignalView {
        translation: p.position@,
        camera_pos: p.camera_position@,
        camera_target: p.camera_target@,
        fwd: p.fwd@,
        right: p.right@,
        players: Seq::empty(),
        objects: Seq::empty(),
    }
}

impl Player {
    /// An avatar at `position`, looking forward, with its camera at the
    /// origin and no accumulated look rotation.
    pub fn new(id: u64, speed: u32, collider: Handle, position: [u32; 3], mass: u32) -> (r: Self)
        ensures
            r.id == id,
            r.speed == speed,
            r.collider == collider,
            r.position == position,
            r.mass == mass,
            r.fwd == FORWARD,
            r.right == RIGHT,
            r.camera_position == ORIGIN,
            r.camera_target == FORWARD,
            r.pitch == ZERO,
            r.yaw == ZERO,
            r.dt == ZERO,
    {
        Player {
            id,
            collider,
            position,
            fwd: FORWARD,
            camera_position: ORIGIN,
            camera_target: FORWARD,
            right: RIGHT,
            speed,
            pitch: ZERO,
            yaw: ZERO,
            mass,
            dt: ZERO,
        }
    }

    /// This player's pose as a snapshot with empty lists.
    pub fn pose(&self) -> (r: ResponseSignal)
        ensures
            r@ == pose_view(*self),
    {
        let r = ResponseSignal::new(
            self.position,
            self.camera_position,
            self.camera_target,
            self.fwd,
            self.right,
        );
        assert(r@.players =~= Seq::<SignalView>::empty());
        assert(r@.objects =~= Seq::<ObjectView>::empty());
        r
    }
}

impl NetworkObject {
    /// A copy of this object.
    pub fn duplicate(&self) -> (r: NetworkObject)
        ensures
            r@ == self@,
    {
        NetworkObject {
            position: self.position,
            rotation: self.rotation,
            id: vstd::slice::slice_to_vec(self.id.as_slice()),
        }
    }
}

impl Default for ResponseSignal {
    /// A snapshot at the origin with its forward and right vectors both
    /// pointing forward, and empty lists.
    fn default() -> (r: Self)
        ensures
            r.translation == ORIGIN,
            r.camera_pos == ORIGIN,
            r.camera_target == ORIGIN,
            r.fwd == FORWARD,
            r.right == FORWARD,
            r.players@.len() == 0,
            r.objects@.len() == 0,
    {
        ResponseSignal::new(ORIGIN, ORIGIN, ORIGIN, FORWARD, FORWARD)
    }
}

} // verus!
