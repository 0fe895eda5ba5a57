//! Decimal numerals: formatting a length for a Content-Length header
//! and parsing the value of one.

use vstd::prelude::*;

use crate::bytes::{DIGIT_NINE, DIGIT_ZERO};

verus! {

/// Whether a byte is an ASCII decimal digit.
pub open spec fn is_digit(b: u8) -> bool {
    DIGIT_ZERO <= b <= DIGIT_NINE
}

/// Whether every byte of `s` is an ASCII decimal digit.
pub open spec fn all_digits(s: Seq<u8>) -> bool {
    forall|i: int| 0 <= i < s.len() ==> is_digit(#[trigger] s[i])
}

/// The decimal numeral of `n`, most significant digit first, with no
/// leading zeros except for the numeral of zero itself.
pub open spec fn dec_digits(n: nat) -> Seq<u8>
    decreases n,
{
    if n < 10 {
        seq![(DIGIT_ZERO + n) as u8]
    } else {
        dec_digits(n / 10).push((DIGIT_ZERO + n % 10) as u8)
    }
}

/// The value of a digit string, most significant digit first.
pub open spec fn dec_val(s: Seq<u8>) -> nat
    decreases s.len(),
{
    if s.len() == 0 {
        0
    } else {
        (dec_val(s.drop_last()) * 10 + (s.last() - DIGIT_ZERO)) as nat
    }
}

/// A digit string is worth at least as much as any of its prefixes.
pub proof fn lemma_dec_val_prefix(s: Seq<u8>, k: int)
    requires
        all_digits(s),
        0 <= k <= s.len(),
    ensures
        dec_val(s) >= dec_val(s.take(k)),
    decreases s.len() - k,
{
    if k < s.len() {
        assert(s.take(k + 1).drop_last() =~= s.take(k));
        assert(s.take(k + 1).last() == s[k]);
        assert(dec_val(s.take(k + 1)) >= dec_val(s.take(k)));
        lemma_dec_val_prefix(s, k + 1);
    } else {
        assert(s.take(k) =~= s);
    }
}

/// Round trip: the decimal numeral of `n` is a nonempty string of
/// digits whose value is `n` again.
pub proof fn lemma_dec_round_trip(n: nat)
    ensures
        dec_digits(n).len() >= 1,
        all_digits(dec_digits(n)),
        dec_val(dec_digits(n)) == n,
    decreases n,
{
    if n < 10 {
        let d = dec_digits(n);
        assert(d.len() == 1);
        assert(d.last() == (DIGIT_ZERO + n) as u8);
        assert(d.drop_last() =~= Seq::<u8>::empty());
        assert(dec_val(d.drop_last()) == 0);
        assert(dec_val(d) == n);
    } else {
        lemma_dec_round_trip(n / 10);
        let d = dec_digits(n);
        let prefix = dec_digits(n / 10);
        assert(d.drop_last() =~= prefix);
        assert(d.last() == (DIGIT_ZERO + n % 10) as u8);
        assert(dec_val(d) == dec_val(prefix) * 10 + n % 10);
        assert(forall|i: int|
            0 <= i < d.len() ==> (#[trigger] d[i] == if i < prefix.len() {
                prefix[i]
            } else {
                d.last()
            }));
        assert(all_digits(d));
    }
}

/// The decimal numeral of `n`, as bytes.
pub fn format_dec(n: usize) -> (r: Vec<u8>)
    ensures
        r@ == dec_digits(n as nat),
    decreases n,
{
    if n < 10 {
        let mut r: Vec<u8> = Vec::new();
        r.push(DIGIT_ZERO + n as u8);
        proof {
            assert(r@ =~= dec_digits(n as nat));
        }
        r
    } else {
        let mut r = format_dec(n / 10);
        r.push(DIGIT_ZERO + (n % 10) as u8);
        proof {
            assert(r@ =~= dec_digits(n as nat));
        }
        r
    }
}

/// Parses `v` as an unsigned decimal numeral. Returns its value
/// exactly when `v` is nonempty, holds digits only, and the value
/// fits in `usize`; returns nothing otherwise.
pub fn parse_dec(v: &Vec<u8>) -> (r: Option<usize>)
    ensures
        match r {
            Some(n) => v@.len() > 0 && all_digits(v@) && n as nat == dec_val(v@),
            None => v@.len() == 0 || !all_digits(v@) || dec_val(v@) > usize::MAX,
        },
{
    if v.len() == 0 {
        return None;
    }
    let mut i: usize = 0;
    let mut acc: usize = 0;
    while i < v.len()
        invariant
            0 < v@.len(),
            i <= v@.len(),
            all_digits(v@.take(i as int)),
            acc as nat == dec_val(v@.take(i as int)),
        decreases v@.len() - i,
    {
        let b = v[i];
        if b < DIGIT_ZERO || b > DIGIT_NINE {
            proof {
                assert(!is_digit(v@[i as int]));
            }
            return None;
        }
        let d = (b - DIGIT_ZERO) as usize;
        let ghost prev = acc as nat;
        let next = match acc.checked_mul(10) {
            Some(m) => m.checked_add(d),
            None => None,
        };
        match next {
            Some(x) => {
                acc = x;
            },
            None => {
                proof {
                    if all_digits(v@) {
                        lemma_overflow(v@, i as int, prev, d as nat);
                    }
                }
                return None;
            },
        }
        i += 1;
        proof {
            assert(v@.take(i as int).drop_last() =~= v@.take(i as int - 1));
            assert(v@.take(i as int).last() == v@[i - 1]);
            assert(all_digits(v@.take(i as int)));
        }
    }
    proof {
        assert(v@.take(v@.len() as int) =~= v@);
    }
    Some(acc)
}

/// If the numeral's prefix up to and past position `i` is already too
/// large for `usize`, so is the whole numeral, provided it is all
/// digits.
proof fn lemma_overflow(s: Seq<u8>, i: int, prev: nat, d: nat)
    requires
        0 <= i < s.len(),
        all_digits(s),
        prev == dec_val(s.take(i)),
        d == s[i] - DIGIT_ZERO,
        prev * 10 + d > usize::MAX,
    ensures
        dec_val(s) > usize::MAX,
{
    assert(s.take(i + 1).drop_last() =~= s.take(i));
    assert(s.take(i + 1).last() == s[i]);
    assert(dec_val(s.take(i + 1)) == prev * 10 + d);
    lemma_dec_val_prefix(s, i + 1);
}

} // verus!
