//! Little-endian primitives shared by every message of the protocol.
//!
//! Encoders append to a byte vector; decoders read at a position of a byte
//! slice and return the value together with the position just after it.
use vstd::bytes::*;
use vstd::prelude::*;
use vstd::slice::slice_subrange;

verus! {

/// The four little-endian bytes of a 32-bit word.
pub open spec fn le32(x: u32) -> Seq<u8> {
    spec_u32_to_le_bytes(x)
}

/// The eight little-endian bytes of a 64-bit word.
pub open spec fn le64(x: u64) -> Seq<u8> {
    spec_u64_to_le_bytes(x)
}

/// A length as it stands on the wire: a 64-bit little-endian count.
pub open spec fn len_prefix(n: nat) -> Seq<u8> {
    le64(n as u64)
}

/// The encoding of a sequence of 32-bit words, one after the other.
pub open spec fn words(w: Seq<u32>) -> Seq<u8>
    decreases w.len(),
{
    if w.len() == 0 {
        Seq::empty()
    } else {
        le32(w[0]) + words(w.subrange(1, w.len() as int))
    }
}

/// A byte string preceded by its length.
pub open spec fn counted(b: Seq<u8>) -> Seq<u8> {
    len_prefix(b.len()) + b
}

/// The byte at `pos`, if there is one.
pub open spec fn parse_u8(b: Seq<u8>, pos: int) -> Option<(u8, int)> {
    if 0 <= pos < b.len() {
        Some((b[pos], pos + 1))
    } else {
        None
    }
}

/// The 32-bit word whose bytes start at `pos`, if all four are there.
pub open spec fn parse_u32(b: Seq<u8>, pos: int) -> Option<(u32, int)> {
    if 0 <= pos && pos + 4 <= b.len() {
        Some((spec_u32_from_le_bytes(b.subrange(pos, pos + 4)), pos + 4))
    } else {
        None
    }
}

/// The 64-bit word whose bytes start at `pos`, if all eight are there.
pub open spec fn parse_u64(b: Seq<u8>, pos: int) -> Option<(u64, int)> {
    if 0 <= pos && pos + 8 <= b.len() {
        Some((spec_u64_from_le_bytes(b.subrange(pos, pos + 8)), pos + 8))
    } else {
        None
    }
}

/// `n` words read one after the other from `pos`.
pub open spec fn parse_words(b: Seq<u8>, pos: int, n: nat) -> Option<(Seq<u32>, int)>
    decreases n,
{
    if n == 0 {
        Some((Seq::empty(), pos))
    } else {
        match parse_u32(b, pos) {
            Some((w, p)) => match parse_words(b, p, (n - 1) as nat) {
                Some((rest, e)) => Some((seq![w] + rest, e)),
                None => None,
            },
            None => None,
        }
    }
}

/// A byte string preceded by its 64-bit length.
pub open spec fn parse_counted(b: Seq<u8>, pos: int) -> Option<(Seq<u8>, int)> {
    match parse_u64(b, pos) {
        Some((n, p)) => if p + n <= b.len() {
            Some((b.subrange(p, p + n), p + n))
        } else {
            None
        },
        None => None,
    }
}

pub proof fn lemma_parse_u32(x: u32, pre: Seq<u8>, rest: Seq<u8>)
    ensures
        parse_u32(pre + le32(x) + rest, pre.len() as int) == Some((x, pre.len() + 4int)),
        le32(x).len() == 4,
{
    lemma_auto_spec_u32_to_from_le_bytes();
    let b = pre + le32(x) + rest;
    assert(b.subrange(pre.len() as int, pre.len() + 4int) =~= le32(x));
}

pub proof fn lemma_parse_u64(x: u64, pre: Seq<u8>, rest: Seq<u8>)
    ensures
        parse_u64(pre + le64(x) + rest, pre.len() as int) == Some((x, pre.len() + 8int)),
        le64(x).len() == 8,
{
    lemma_auto_spec_u64_to_from_le_bytes();
    let b = pre + le64(x) + rest;
    assert(b.subrange(pre.len() as int, pre.len() + 8int) =~= le64(x));
}

pub proof fn lemma_parse_u8(x: u8, pre: Seq<u8>, rest: Seq<u8>)
    ensures
        parse_u8(pre + seq![x] + rest, pre.len() as int) == Some((x, pre.len() + 1int)),
{
    let b = pre + seq![x] + rest;
    assert(b[pre.len() as int] == x);
}

pub proof fn lemma_parse_words(w: Seq<u32>, pre: Seq<u8>, rest: Seq<u8>)
    ensures
        parse_words(pre + words(w) + rest, pre.len() as int, w.len()) == Some(
            (w, (pre.len() + words(w).len()) as int),
        ),
        words(w).len() == 4 * w.len(),
    decreases w.len(),
{
    lemma_auto_spec_u32_to_from_le_bytes();
    if w.len() > 0 {
        let tail = w.subrange(1, w.len() as int);
        lemma_parse_u32(w[0], pre, words(tail) + rest);
        assert(pre + words(w) + rest =~= pre + le32(w[0]) + (words(tail) + rest));
        lemma_parse_words(tail, pre + le32(w[0]), rest);
        assert(pre + le32(w[0]) + words(tail) + rest =~= pre + words(w) + rest);
        assert(seq![w[0]] + tail =~= w);
    } else {
        assert(pre + words(w) + rest =~= pre + rest);
    }
}

pub proof fn lemma_parse_counted(c: Seq<u8>, pre: Seq<u8>, rest: Seq<u8>)
    requires
        c.len() <= u64::MAX,
    ensures
        parse_counted(pre + counted(c) + rest, pre.len() as int) == Some(
            (c, (pre.len() + counted(c).len()) as int),
        ),
        counted(c).len() == 8 + c.len(),
{
    lemma_auto_spec_u64_to_from_le_bytes();
    let b = pre + counted(c) + rest;
    assert(b =~= pre + le64(c.len() as u64) + (c + rest));
    lemma_parse_u64(c.len() as u64, pre, c + rest);
    assert(b.subrange(pre.len() + 8int, pre.len() + 8int + c.len()) =~= c);
}

pub fn read_u8(b: &[u8], pos: usize) -> (r: Option<(u8, usize)>)
    ensures
        r matches Some((v, p)) ==> parse_u8(b@, pos as int) == Some((v, p as int)),
        r is None ==> parse_u8(b@, pos as int) is None,
{
    if pos < b.len() {
        Some((b[pos], pos + 1))
    } else {
        None
    }
}

pub fn read_u32(b: &[u8], pos: usize) -> (r: Option<(u32, usize)>)
    ensures
        r matches Some((v, p)) ==> parse_u32(b@, pos as int) == Some((v, p as int)),
        r is None ==> parse_u32(b@, pos as int) is None,
{
    if pos <= b.len() && b.len() - pos >= 4 {
        let v = u32_from_le_bytes(slice_subrange(b, pos, pos + 4));
        Some((v, pos + 4))
    } else {
        None
    }
}

pub fn read_u64(b: &[u8], pos: usize) -> (r: Option<(u64, usize)>)
    ensures
        r matches Some((v, p)) ==> parse_u64(b@, pos as int) == Some((v, p as int)),
        r is None ==> parse_u64(b@, pos as int) is None,
{
    if pos <= b.len() && b.len() - pos >= 8 {
        let v = u64_from_le_bytes(slice_subrange(b, pos, pos + 8));
        Some((v, pos + 8))
    } else {
        None
    }
}

pub fn read_vec2(b: &[u8], pos: usize) -> (r: Option<([u32; 2], usize)>)
    ensures
        r matches Some((v, p)) ==> parse_words(b@, pos as int, 2) == Some((v@, p as int)),
        r is None ==> parse_words(b@, pos as int, 2) is None,
{
    reveal_with_fuel(parse_words, 3);
    let (x, at1) = read_u32(b, pos)?;
    let (y, at2) = read_u32(b, at1)?;
    let v = [x, y];
    assert(v@ =~= seq![x] + (seq![y] + Seq::empty()));
    Some((v, at2))
}

pub fn write_vec2(out: &mut Vec<u8>, v: &[u32; 2])
    ensures
        final(out)@ == old(out)@ + words(v@),
{
    reveal_with_fuel(words, 3);
    write_u32(out, v[0]);
    write_u32(out, v[1]);
    assert(final(out)@ =~= old(out)@ + words(v@));
}

pub fn read_vec3(b: &[u8], pos: usize) -> (r: Option<([u32; 3], usize)>)
    ensures
        r matches Some((v, p)) ==> parse_words(b@, pos as int, 3) == Some((v@, p as int)),
        r is None ==> parse_words(b@, pos as int, 3) is None,
{
    reveal_with_fuel(parse_words, 4);
    let (x, at1) = read_u32(b, pos)?;
    let (y, at2) = read_u32(b, at1)?;
    let (z, at3) = read_u32(b, at2)?;
    let v = [x, y, z];
    assert(v@ =~= seq![x] + (seq![y] + (seq![z] + Seq::empty())));
    Some((v, at3))
}

pub fn read_vec4(b: &[u8], pos: usize) -> (r: Option<([u32; 4], usize)>)
    ensures
        r matches Some((v, p)) ==> parse_words(b@, pos as int, 4) == Some((v@, p as int)),
        r is None ==> parse_words(b@, pos as int, 4) is None,
{
    reveal_with_fuel(parse_words, 5);
    let (x, at1) = read_u32(b, pos)?;
    let (y, at2) = read_u32(b, at1)?;
    let (z, at3) = read_u32(b, at2)?;
    let (w, at4) = read_u32(b, at3)?;
    let v = [x, y, z, w];
    assert(v@ =~= seq![x] + (seq![y] + (seq![z] + (seq![w] + Seq::empty()))));
    Some((v, at4))
}

pub fn read_counted(b: &[u8], pos: usize) -> (r: Option<(Vec<u8>, usize)>)
    ensures
        r matches Some((v, p)) ==> parse_counted(b@, pos as int) == Some((v@, p as int)),
        r is None ==> parse_counted(b@, pos as int) is None,
{
    let (n, p) = read_u64(b, pos)?;
    if n <= (b.len() - p) as u64 {
        let end = p + n as usize;
        let mut v: Vec<u8> = Vec::new();
        let mut i: usize = p;
        while i < end
            invariant
                p <= i <= end <= b@.len(),
                v@ == b@.subrange(p as int, i as int),
            decreases end - i,
        {
            v.push(b[i]);
            i = i + 1;
            assert(v@ =~= b@.subrange(p as int, i as int));
        }
        Some((v, end))
    } else {
        None
    }
}

pub fn write_u32(out: &mut Vec<u8>, x: u32)
    ensures
        final(out)@ == old(out)@ + le32(x),
{
    let mut b = u32_to_le_bytes(x);
    out.append(&mut b);
}

pub fn write_u64(out: &mut Vec<u8>, x: u64)
    ensures
        final(out)@ == old(out)@ + le64(x),
{
    let mut b = u64_to_le_bytes(x);
    out.append(&mut b);
}

pub fn write_vec3(out: &mut Vec<u8>, v: &[u32; 3])
    ensures
        final(out)@ == old(out)@ + words(v@),
{
    reveal_with_fuel(words, 4);
    write_u32(out, v[0]);
    write_u32(out, v[1]);
    write_u32(out, v[2]);
    assert(v@.subrange(1, 3).subrange(1, 2) =~= seq![v@[2]]);
    assert(final(out)@ =~= old(out)@ + words(v@));
}

pub fn write_vec4(out: &mut Vec<u8>, v: &[u32; 4])
    ensures
        final(out)@ == old(out)@ + words(v@),
{
    reveal_with_fuel(words, 5);
    write_u32(out, v[0]);
    write_u32(out, v[1]);
    write_u32(out, v[2]);
    write_u32(out, v[3]);
    assert(final(out)@ =~= old(out)@ + words(v@));
}

pub fn write_counted(out: &mut Vec<u8>, b: &[u8])
    ensures
        final(out)@ == old(out)@ + counted(b@),
{
    write_u64(out, b.len() as u64);
    let ghost mid = out@;
    let mut i: usize = 0;
    while i < b.len()
        invariant
            i <= b@.len(),
            out@ == mid + b@.subrange(0, i as int),
        decreases b@.len() - i,
    {
        out.push(b[i]);
        i = i + 1;
        assert(out@ =~= mid + b@.subrange(0, i as int));
    }
    assert(b@.subrange(0, b@.len() as int) =~= b@);
}

/// Whether two byte strings are the same.
pub fn bytes_equal(a: &[u8], b: &[u8]) -> (r: bool)
    ensures
        r == (a@ == b@),
{
    if a.len() != b.len() {
        return false;
    }
    let mut i: usize = 0;
    while i < a.len()
        invariant
            a@.len() == b@.len(),
            i <= a@.len(),
            a@.subrange(0, i as int) == b@.subrange(0, i as int),
        decreases a@.len() - i,
    {
        if a[i] != b[i] {
            assert(a@[i as int] != b@[i as int]);
            return false;
        }
        i = i + 1;
        assert(a@.subrange(0, i as int) =~= b@.subrange(0, i as int));
    }
    assert(a@ =~= a@.subrange(0, i as int));
    assert(b@ =~= b@.subrange(0, i as int));
    true
}

} // verus!
