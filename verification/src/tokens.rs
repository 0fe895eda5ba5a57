//! Splitting a request line into whitespace-separated tokens, and
//! trimming whitespace from header values.

use vstd::prelude::*;

use crate::bytes::{is_ws, is_ws_byte, subvec, views_of};

verus! {

/// The suffix of `s` after its leading whitespace.
pub open spec fn skip_ws(s: Seq<u8>) -> Seq<u8>
    decreases s.len(),
{
    if s.len() > 0 && is_ws(s[0]) {
        skip_ws(s.skip(1))
    } else {
        s
    }
}

/// The length of the run of non-whitespace bytes at the front of `s`.
pub open spec fn token_len(s: Seq<u8>) -> nat
    decreases s.len(),
{
    if s.len() > 0 && !is_ws(s[0]) {
        (1 + token_len(s.skip(1))) as nat
    } else {
        0
    }
}

/// Skipping whitespace never lengthens a sequence and leaves either
/// nothing or a non-whitespace byte at the front.
pub proof fn lemma_skip_ws(s: Seq<u8>)
    ensures
        skip_ws(s).len() <= s.len(),
        skip_ws(s).len() > 0 ==> !is_ws(skip_ws(s)[0]),
    decreases s.len(),
{
    if s.len() > 0 && is_ws(s[0]) {
        lemma_skip_ws(s.skip(1));
    }
}

/// The front token never runs past the end of the sequence.
pub proof fn lemma_token_len(s: Seq<u8>)
    ensures
        token_len(s) <= s.len(),
    decreases s.len(),
{
    if s.len() > 0 && !is_ws(s[0]) {
        lemma_token_len(s.skip(1));
    }
}

/// The whitespace-separated tokens of `s`, in order, each nonempty.
pub open spec fn tokens_of(s: Seq<u8>) -> Seq<Seq<u8>>
    decreases s.len(),
    via tokens_of_dec
{
    let t = skip_ws(s);
    if t.len() == 0 {
        Seq::empty()
    } else {
        seq![t.take(token_len(t) as int)] + tokens_of(t.skip(token_len(t) as int))
    }
}

#[via_fn]
proof fn tokens_of_dec(s: Seq<u8>) {
    lemma_skip_ws(s);
    lemma_token_len(skip_ws(s));
}

/// The first position at or past `from` in `v` holding a byte that is
/// not whitespace.
fn ws_end(v: &Vec<u8>, from: usize) -> (r: usize)
    requires
        from <= v@.len(),
    ensures
        from <= r <= v@.len(),
        v@.skip(r as int) == skip_ws(v@.skip(from as int)),
        r < v@.len() ==> !is_ws(v@[r as int]),
    decreases v@.len() - from,
{
    if from < v.len() && is_ws_byte(v[from]) {
        proof {
            assert(v@.skip(from as int).skip(1) =~= v@.skip(from as int + 1));
        }
        ws_end(v, from + 1)
    } else {
        from
    }
}

/// The end of the non-whitespace token starting at `from` in `v`.
fn token_end(v: &Vec<u8>, from: usize) -> (r: usize)
    requires
        from <= v@.len(),
    ensures
        from <= r <= v@.len(),
        r - from == token_len(v@.skip(from as int)),
    decreases v@.len() - from,
{
    if from < v.len() && !is_ws_byte(v[from]) {
        proof {
            assert(v@.skip(from as int).skip(1) =~= v@.skip(from as int + 1));
        }
        token_end(v, from + 1)
    } else {
        from
    }
}

/// Pushes onto `out` the tokens of `v` from position `from` on.
fn tokenize_from(v: &Vec<u8>, from: usize, out: &mut Vec<Vec<u8>>)
    requires
        from <= v@.len(),
    ensures
        views_of(final(out)@) == views_of(old(out)@) + tokens_of(v@.skip(from as int)),
    decreases v@.len() - from,
{
    let ghost s = v@.skip(from as int);
    let ws = ws_end(v, from);
    proof {
        assert(skip_ws(s) == v@.skip(ws as int));
        assert(v@.skip(ws as int).len() == v@.len() - ws);
    }
    if ws == v.len() {
        proof {
            assert(skip_ws(s).len() == 0);
            assert(views_of(out@) =~= views_of(old(out)@) + tokens_of(s));
        }
    } else {
        let te = token_end(v, ws);
        proof {
            assert(skip_ws(s)[0] == v@[ws as int]);
            assert(token_len(skip_ws(s)) >= 1);
        }
        let tok = subvec(v, ws, te);
        out.push(tok);
        let ghost mid = out@;
        tokenize_from(v, te, out);
        proof {
            let t = skip_ws(s);
            assert(tok@ =~= t.take(token_len(t) as int));
            assert(v@.skip(te as int) =~= t.skip(token_len(t) as int));
            assert(views_of(mid) =~= views_of(old(out)@) + seq![tok@]);
            assert(views_of(out@) =~= views_of(old(out)@) + tokens_of(s));
        }
    }
}

/// The whitespace-separated tokens of a request line.
pub fn tokenize(v: &Vec<u8>) -> (r: Vec<Vec<u8>>)
    ensures
        views_of(r@) == tokens_of(v@),
{
    let mut out: Vec<Vec<u8>> = Vec::new();
    tokenize_from(v, 0, &mut out);
    proof {
        assert(v@.skip(0) =~= v@);
        assert(views_of(Seq::<Vec<u8>>::empty()) =~= Seq::<Seq<u8>>::empty());
        assert(views_of(out@) =~= tokens_of(v@));
    }
    out
}

/// The prefix of `s` left after dropping trailing whitespace.
pub open spec fn trim_end_ws(s: Seq<u8>) -> Seq<u8>
    decreases s.len(),
{
    if s.len() > 0 && is_ws(s[s.len() - 1]) {
        trim_end_ws(s.drop_last())
    } else {
        s
    }
}

/// `s` with whitespace removed from both ends.
pub open spec fn trim_ws(s: Seq<u8>) -> Seq<u8> {
    trim_end_ws(skip_ws(s))
}

/// The end of `v`'s slice from `start` to `end` once trailing
/// whitespace is dropped.
fn trim_end_at(v: &Vec<u8>, start: usize, end: usize) -> (r: usize)
    requires
        start <= end <= v@.len(),
    ensures
        start <= r <= end,
        trim_end_ws(v@.subrange(start as int, end as int)) == v@.subrange(start as int, r as int),
    decreases end,
{
    if end > start && is_ws_byte(v[end - 1]) {
        proof {
            let s = v@.subrange(start as int, end as int);
            assert(s[s.len() - 1] == v@[end - 1]);
            assert(s.drop_last() =~= v@.subrange(start as int, end as int - 1));
        }
        trim_end_at(v, start, end - 1)
    } else {
        end
    }
}

/// A copy of `v` with ASCII whitespace removed from both ends.
pub fn trim(v: &Vec<u8>) -> (r: Vec<u8>)
    ensures
        r@ == trim_ws(v@),
{
    let start = ws_end(v, 0);
    let end = trim_end_at(v, start, v.len());
    let r = subvec(v, start, end);
    proof {
        assert(v@.skip(0) =~= v@);
        assert(v@.subrange(start as int, v@.len() as int) =~= v@.skip(start as int));
    }
    r
}

} // verus!
