//! Byte-sequence utilities: ASCII literals, prefix tests, copying,
//! concatenation, and repeated prefix stripping.

use vstd::prelude::*;
use vstd::string::StrSliceExecFns;

verus! {

broadcast use vstd::string::group_string_axioms;

/// ASCII carriage return.
pub const CR: u8 = 13;

/// ASCII line feed.
pub const LF: u8 = 10;

/// ASCII space.
pub const SP: u8 = 32;

/// ASCII horizontal tab.
pub const TAB: u8 = 9;

/// ASCII vertical tab.
pub const VTAB: u8 = 11;

/// ASCII form feed.
pub const FF: u8 = 12;

/// ASCII forward slash.
pub const SLASH: u8 = 47;

/// ASCII plus sign.
pub const PLUS: u8 = 43;

/// ASCII digit zero.
pub const DIGIT_ZERO: u8 = 48;

/// ASCII digit nine.
pub const DIGIT_NINE: u8 = 57;

/// The bytes of an ASCII character sequence, character by character.
pub open spec fn ascii_of(s: Seq<char>) -> Seq<u8> {
    Seq::new(s.len(), |i: int| s[i] as u8)
}

/// Whether a byte is ASCII whitespace: space, the tabs, form feed,
/// carriage return, or line feed.
pub open spec fn is_ws(b: u8) -> bool {
    b == SP || b == TAB || b == VTAB || b == FF || b == CR || b == LF
}

/// Whether `p` is a prefix of `s`.
pub open spec fn starts_with(s: Seq<u8>, p: Seq<u8>) -> bool {
    p.len() <= s.len() && s.take(p.len() as int) == p
}

/// The sequence left after removing the prefix `p` from `s` as many
/// times as it occurs at the front.
pub open spec fn strip_prefix_all(s: Seq<u8>, p: Seq<u8>) -> Seq<u8>
    decreases s.len(),
{
    if p.len() > 0 && starts_with(s, p) {
        strip_prefix_all(s.skip(p.len() as int), p)
    } else {
        s
    }
}

/// The views of a sequence of byte vectors.
pub open spec fn views_of(vs: Seq<Vec<u8>>) -> Seq<Seq<u8>> {
    Seq::new(vs.len(), |i: int| vs[i]@)
}

/// The byte vector of an ASCII string slice.
pub fn ascii_bytes(s: &str) -> (r: Vec<u8>)
    requires
        vstd::string::is_ascii(s),
    ensures
        r@ == ascii_of(s@),
{
    let r = s.as_bytes_vec();
    proof {
        assert(r@ =~= ascii_of(s@));
    }
    r
}

/// Whether the byte `b` is ASCII whitespace.
pub fn is_ws_byte(b: u8) -> (r: bool)
    ensures
        r == is_ws(b),
{
    b == SP || b == TAB || b == VTAB || b == FF || b == CR || b == LF
}

/// Whether `p` occurs in `v` starting at position `at`.
pub fn has_prefix_at(v: &Vec<u8>, at: usize, p: &Vec<u8>) -> (r: bool)
    requires
        at <= v@.len(),
    ensures
        r == starts_with(v@.skip(at as int), p@),
{
    if v.len() - at < p.len() {
        return false;
    }
    let ghost s = v@.skip(at as int);
    let vlen = v.len();
    let mut i: usize = 0;
    while i < p.len()
        invariant
            vlen == v@.len(),
            at + p@.len() <= v@.len(),
            i <= p@.len(),
            s == v@.skip(at as int),
            forall|j: int| 0 <= j < i ==> v@[at + j] == p@[j],
        decreases p@.len() - i,
    {
        if v[at + i] != p[i] {
            proof {
                assert(s.take(p@.len() as int)[i as int] != p@[i as int]);
            }
            return false;
        }
        i += 1;
    }
    proof {
        assert(s.take(p@.len() as int) =~= p@);
    }
    true
}

/// Whether `p` is a prefix of `v`.
pub fn starts_with_bytes(v: &Vec<u8>, p: &Vec<u8>) -> (r: bool)
    ensures
        r == starts_with(v@, p@),
{
    let r = has_prefix_at(v, 0, p);
    proof {
        assert(v@.skip(0) =~= v@);
    }
    r
}

/// Whether two byte vectors hold the same bytes.
pub fn bytes_eq(a: &Vec<u8>, b: &Vec<u8>) -> (r: bool)
    ensures
        r == (a@ == b@),
{
    if a.len() != b.len() {
        return false;
    }
    let mut i: usize = 0;
    while i < a.len()
        invariant
            a@.len() == b@.len(),
            i <= a@.len(),
            forall|j: int| 0 <= j < i ==> a@[j] == b@[j],
        decreases a@.len() - i,
    {
        if a[i] != b[i] {
            return false;
        }
        i += 1;
    }
    proof {
        assert(a@ =~= b@);
    }
    true
}

/// A copy of the bytes of `v` from position `from` up to position `to`.
pub fn subvec(v: &Vec<u8>, from: usize, to: usize) -> (r: Vec<u8>)
    requires
        from <= to <= v@.len(),
    ensures
        r@ == v@.subrange(from as int, to as int),
{
    let mut r: Vec<u8> = Vec::new();
    let mut i: usize = from;
    while i < to
        invariant
            from <= i <= to <= v@.len(),
            r@ == v@.subrange(from as int, i as int),
        decreases to - i,
    {
        r.push(v[i]);
        i += 1;
        proof {
            assert(r@ =~= v@.subrange(from as int, i as int));
        }
    }
    r
}

/// Appends a copy of `src` to `dst`.
pub fn append_bytes(dst: &mut Vec<u8>, src: &Vec<u8>)
    ensures
        final(dst)@ == old(dst)@ + src@,
{
    let mut i: usize = 0;
    while i < src.len()
        invariant
            i <= src@.len(),
            dst@ == old(dst)@ + src@.take(i as int),
        decreases src@.len() - i,
    {
        dst.push(src[i]);
        i += 1;
        proof {
            assert(dst@ =~= old(dst)@ + src@.take(i as int));
        }
    }
    proof {
        assert(old(dst)@ + src@.take(src@.len() as int) =~= old(dst)@ + src@);
    }
}

/// The first position in `v` at or past `from` where `p` no longer
/// occurs as a prefix, after skipping it as many times as it occurs.
fn strip_from(v: &Vec<u8>, from: usize, p: &Vec<u8>) -> (r: usize)
    requires
        from <= v@.len(),
        p@.len() > 0,
    ensures
        from <= r <= v@.len(),
        strip_prefix_all(v@.skip(from as int), p@) == v@.skip(r as int),
    decreases v@.len() - from,
{
    if has_prefix_at(v, from, p) {
        let vlen = v.len();
        proof {
            assert(v@.skip(from as int).len() == v@.len() - from);
            assert(from + p@.len() <= vlen);
        }
        let next = from + p.len();
        proof {
            assert(v@.skip(from as int).skip(p@.len() as int) =~= v@.skip(next as int));
        }
        strip_from(v, next, p)
    } else {
        from
    }
}

/// A copy of `v` with the prefix `p` removed from the front as many
/// times as it occurs, matching repeated prefix trimming.
pub fn strip_prefix_repeated(v: &Vec<u8>, p: &Vec<u8>) -> (r: Vec<u8>)
    ensures
        r@ == strip_prefix_all(v@, p@),
{
    if p.len() == 0 {
        let r = subvec(v, 0, v.len());
        proof {
            assert(v@.subrange(0, v@.len() as int) =~= v@);
        }
        return r;
    }
    let start = strip_from(v, 0, p);
    let r = subvec(v, start, v.len());
    proof {
        assert(v@.skip(0) =~= v@);
        assert(v@.subrange(start as int, v@.len() as int) =~= v@.skip(start as int));
    }
    r
}

} // verus!
