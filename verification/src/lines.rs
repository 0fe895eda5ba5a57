//! Splitting a request into lines on CRLF, finding the header
//! terminator, and looking headers up by their literal prefix.

use vstd::prelude::*;

use crate::bytes::{
    starts_with, starts_with_bytes, subvec, views_of, CR, LF,
};

verus! {

/// The position of the first CRLF pair in `s`, if any.
pub open spec fn find_crlf(s: Seq<u8>) -> Option<nat>
    decreases s.len(),
{
    if s.len() < 2 {
        None
    } else if s[0] == CR && s[1] == LF {
        Some(0nat)
    } else {
        match find_crlf(s.skip(1)) {
            None => None,
            Some(i) => Some((i + 1) as nat),
        }
    }
}

/// What `find_crlf` returns: the first position holding CR LF when
/// one exists, and nothing otherwise.
pub proof fn lemma_find_crlf(s: Seq<u8>)
    ensures
        match find_crlf(s) {
            Some(i) => i + 1 < s.len() && s[i as int] == CR && s[i as int + 1] == LF
                && forall|j: int| 0 <= j < i ==> !(#[trigger] s[j] == CR && s[j + 1] == LF),
            None => forall|j: int| 0 <= j && j + 1 < s.len() ==> !(#[trigger] s[j] == CR && s[j + 1] == LF),
        },
    decreases s.len(),
{
    if s.len() < 2 {
    } else if s[0] == CR && s[1] == LF {
    } else {
        let t = s.skip(1);
        lemma_find_crlf(t);
        match find_crlf(t) {
            None => {
                assert forall|j: int| 0 <= j && j + 1 < s.len() implies !(#[trigger] s[j] == CR
                    && s[j + 1] == LF) by {
                    if j > 0 {
                        assert(t[j - 1] == s[j]);
                        assert(t[j] == s[j + 1]);
                    }
                }
            },
            Some(i) => {
                assert(s[i as int + 1] == t[i as int]);
                assert(s[i as int + 2] == t[i as int + 1]);
                assert forall|j: int| 0 <= j < i + 1 implies !(#[trigger] s[j] == CR && s[j + 1]
                    == LF) by {
                    if j > 0 {
                        assert(t[j - 1] == s[j]);
                        assert(t[j] == s[j + 1]);
                    }
                }
            },
        }
    }
}

/// The lines of `s`, split on CRLF; the separators are dropped and a
/// request with no CRLF is one single line.
pub open spec fn lines_of(s: Seq<u8>) -> Seq<Seq<u8>>
    decreases s.len(),
    via lines_of_dec
{
    match find_crlf(s) {
        None => seq![s],
        Some(i) => seq![s.take(i as int)] + lines_of(s.skip(i as int + 2)),
    }
}

#[via_fn]
proof fn lines_of_dec(s: Seq<u8>) {
    lemma_find_crlf(s);
}

/// Whether `s` holds the header terminator CR LF CR LF somewhere.
pub open spec fn has_terminator(s: Seq<u8>) -> bool {
    exists|i: int|
        0 <= i && i + 3 < s.len() && #[trigger] s[i] == CR && s[i + 1] == LF && s[i + 2] == CR
            && s[i + 3] == LF
}

/// Whether the bytes read so far hold the header terminator, the
/// condition on which a server stops reading a request.
pub fn saw_terminator(v: &Vec<u8>) -> (r: bool)
    ensures
        r == has_terminator(v@),
{
    let vlen = v.len();
    if vlen < 4 {
        return false;
    }
    let mut i: usize = 0;
    while i < vlen - 3
        invariant
            vlen == v@.len(),
            4 <= vlen,
            i <= v@.len(),
            forall|j: int|
                0 <= j < i ==> !(#[trigger] v@[j] == CR && v@[j + 1] == LF && v@[j + 2] == CR && v@[j + 3]
                    == LF),
        decreases v@.len() - i,
    {
        if v[i] == CR && v[i + 1] == LF && v[i + 2] == CR && v[i + 3] == LF {
            proof {
                assert(has_terminator(v@));
            }
            return true;
        }
        i += 1;
    }
    proof {
        assert(forall|j: int|
            0 <= j && j + 3 < v@.len() ==> !(#[trigger] v@[j] == CR && v@[j + 1] == LF && v@[j + 2] == CR
                && v@[j + 3] == LF));
    }
    false
}

/// The first CRLF position in `v` at or past `from`, located so that
/// it matches `find_crlf` on the suffix.
fn find_crlf_at(v: &Vec<u8>, from: usize) -> (r: Option<usize>)
    requires
        from <= v@.len(),
    ensures
        match r {
            Some(i) => from <= i && i + 1 < v@.len() && find_crlf(v@.skip(from as int)) == Some(
                (i - from) as nat,
            ),
            None => find_crlf(v@.skip(from as int)) is None,
        },
{
    let ghost s = v@.skip(from as int);
    proof {
        lemma_find_crlf(s);
    }
    let vlen = v.len();
    if vlen < 2 || from >= vlen - 1 {
        proof {
            assert(s.len() < 2);
        }
        return None;
    }
    let mut i: usize = from;
    while i < vlen - 1
        invariant
            vlen == v@.len(),
            2 <= vlen,
            from <= i <= v@.len(),
            s == v@.skip(from as int),
            forall|j: int| from <= j < i ==> !(#[trigger] v@[j] == CR && v@[j + 1] == LF),
        decreases v@.len() - i,
    {
        if v[i] == CR && v[i + 1] == LF {
            proof {
                lemma_find_crlf(s);
                assert(s.len() == v@.len() - from);
                assert(s[i - from] == v@[i as int]);
                assert(s[i - from + 1] == v@[i as int + 1]);
                if find_crlf(s) is None {
                    assert(false);
                }
                let k = find_crlf(s)->Some_0;
                if k < i - from {
                    assert(s[k as int] == v@[k + from]);
                    assert(s[k as int + 1] == v@[k + from + 1]);
                    assert(false);
                }
                if k > i - from {
                    assert(false);
                }
            }
            return Some(i);
        }
        i += 1;
    }
    proof {
        lemma_find_crlf(s);
        assert(s.len() == v@.len() - from);
        if find_crlf(s) is Some {
            let k = find_crlf(s)->Some_0;
            assert(s[k as int] == v@[k + from]);
            assert(s[k as int + 1] == v@[k + from + 1]);
            assert(false);
        }
    }
    None
}

/// Pushes onto `out` the lines of `v` from position `from` on.
fn split_lines_into(v: &Vec<u8>, from: usize, out: &mut Vec<Vec<u8>>)
    requires
        from <= v@.len(),
    ensures
        views_of(final(out)@) == views_of(old(out)@) + lines_of(v@.skip(from as int)),
    decreases v@.len() - from,
{
    let ghost s = v@.skip(from as int);
    match find_crlf_at(v, from) {
        None => {
            let tail = subvec(v, from, v.len());
            out.push(tail);
            proof {
                assert(tail@ =~= s);
                assert(views_of(out@) =~= views_of(old(out)@) + lines_of(s));
            }
        },
        Some(i) => {
            let vlen = v.len();
            proof {
                assert(i + 1 < vlen);
            }
            let head = subvec(v, from, i);
            out.push(head);
            let ghost mid = out@;
            split_lines_into(v, i + 2, out);
            proof {
                assert(head@ =~= s.take((i - from) as int));
                assert(v@.skip(i as int + 2) =~= s.skip((i - from) as int + 2));
                assert(views_of(mid) =~= views_of(old(out)@) + seq![head@]);
                assert(views_of(out@) =~= views_of(old(out)@) + lines_of(s));
            }
        },
    }
}

/// The lines of a request, split on CRLF.
pub fn split_lines(v: &Vec<u8>) -> (r: Vec<Vec<u8>>)
    ensures
        views_of(r@) == lines_of(v@),
        r@.len() >= 1,
{
    let mut out: Vec<Vec<u8>> = Vec::new();
    split_lines_into(v, 0, &mut out);
    proof {
        assert(v@.skip(0) =~= v@);
        assert(views_of(Seq::<Vec<u8>>::empty()) =~= Seq::<Seq<u8>>::empty());
        assert(views_of(out@) =~= lines_of(v@));
        assert(out@.len() == views_of(out@).len());
    }
    out
}

/// The value of the first line of `ls` that starts with `p`, with the
/// prefix removed; nothing when no line matches.
pub open spec fn header_value(ls: Seq<Seq<u8>>, p: Seq<u8>) -> Option<Seq<u8>>
    decreases ls.len(),
{
    if ls.len() == 0 {
        None
    } else if starts_with(ls[0], p) {
        Some(ls[0].skip(p.len() as int))
    } else {
        header_value(ls.skip(1), p)
    }
}

/// Looks up the first line of `lines` that starts with `prefix` and
/// returns a copy of the rest of that line.
pub fn find_header(lines: &Vec<Vec<u8>>, prefix: &Vec<u8>) -> (r: Option<Vec<u8>>)
    ensures
        match r {
            Some(value) => header_value(views_of(lines@), prefix@) == Some(value@),
            None => header_value(views_of(lines@), prefix@) is None,
        },
{
    let ghost ls = views_of(lines@);
    proof {
        assert(ls.skip(0) =~= ls);
    }
    let mut i: usize = 0;
    while i < lines.len()
        invariant
            i <= lines@.len(),
            ls == views_of(lines@),
            header_value(ls, prefix@) == header_value(ls.skip(i as int), prefix@),
        decreases lines@.len() - i,
    {
        if starts_with_bytes(&lines[i], prefix) {
            let line = &lines[i];
            let value = subvec(line, prefix.len(), line.len());
            proof {
                assert(ls.skip(i as int)[0] == lines@[i as int]@);
                assert(value@ =~= lines@[i as int]@.skip(prefix@.len() as int));
            }
            return Some(value);
        }
        i += 1;
        proof {
            assert(ls.skip(i as int - 1)[0] == lines@[i - 1]@);
            assert(ls.skip(i as int - 1).skip(1) =~= ls.skip(i as int));
        }
    }
    proof {
        assert(ls.skip(i as int).len() == 0);
    }
    None
}

} // verus!
