//! Reading decimal numbers from text as Rust's integer types read them.
use vstd::prelude::*;
use crate::lexer::{digits_value, is_ascii_digit};

verus! {

/// Whether every character is an ASCII digit.
pub open spec fn all_digits(d: Seq<char>) -> bool {
    forall|i: int| 0 <= i < d.len() ==> is_ascii_digit(#[trigger] d[i])
}

/// How `usize` reads a decimal text: an optional `+`, then at least one
/// ASCII digit, with a value that fits.
pub open spec fn parse_usize(s: Seq<char>) -> Option<usize> {
    let d = if s.len() > 0 && s[0] == '+' { s.drop_first() } else { s };
    if d.len() > 0 && all_digits(d) && digits_value(d) <= usize::MAX {
        Some(digits_value(d) as usize)
    } else {
        None
    }
}

proof fn lemma_digits_nonneg(d: Seq<char>)
    requires
        all_digits(d),
    ensures
        digits_value(d) >= 0,
    decreases d.len(),
{
    if d.len() > 0 {
        assert(is_ascii_digit(d[d.len() - 1]));
        lemma_digits_nonneg(d.drop_last());
    }
}

proof fn lemma_digits_prefix(d: Seq<char>, k: int)
    requires
        all_digits(d),
        0 <= k <= d.len(),
    ensures
        digits_value(d.subrange(0, k)) <= digits_value(d),
    decreases d.len(),
{
    if k < d.len() {
        lemma_digits_prefix(d.drop_last(), k);
        assert(d.drop_last().subrange(0, k) =~= d.subrange(0, k));
        lemma_digits_nonneg(d.drop_last());
        assert(is_ascii_digit(d[d.len() - 1]));
    } else {
        assert(d.subrange(0, k) =~= d);
    }
}

/// Reads a decimal text as `usize` does.
pub fn parse_usize_chars(s: &Vec<char>) -> (r: Option<usize>)
    ensures
        r == parse_usize(s@),
{
    let start: usize = if s.len() > 0 && s[0] == '+' { 1 } else { 0 };
    let ghost t = if s@.len() > 0 && s@[0] == '+' { s@.drop_first() } else { s@ };
    assert(t =~= s@.subrange(start as int, s@.len() as int));
    if start >= s.len() {
        return None;
    }
    let mut acc: usize = 0;
    let mut i: usize = start;
    assert(t.subrange(0, 0) =~= Seq::<char>::empty());
    while i < s.len()
        invariant
            start <= i <= s@.len(),
            start < s@.len(),
            t == s@.subrange(start as int, s@.len() as int),
            t == (if s@.len() > 0 && s@[0] == '+' { s@.drop_first() } else { s@ }),
            all_digits(t.subrange(0, i - start)),
            acc == digits_value(t.subrange(0, i - start)),
        decreases s@.len() - i,
    {
        let ghost k: int = i - start;
        assert(t[k] == s@[i as int]);
        assert(t.subrange(0, k + 1).drop_last() =~= t.subrange(0, k));
        let ch = s[i];
        if ch < '0' || ch > '9' {
            assert(!is_ascii_digit(t[k]));
            return None;
        }
        assert(all_digits(t.subrange(0, k + 1))) by {
            assert forall|q: int| 0 <= q < k + 1 implies is_ascii_digit(#[trigger] t.subrange(0, k + 1)[q]) by {
                if q < k {
                    assert(t.subrange(0, k + 1)[q] == t.subrange(0, k)[q]);
                }
            }
        }
        let v = ((ch as u32) - 48) as usize;
        let next = match acc.checked_mul(10) {
            Some(m) => m.checked_add(v),
            None => None,
        };
        match next {
            Some(n) => {
                acc = n;
            },
            None => {
                proof {
                    if all_digits(t) && digits_value(t) <= usize::MAX {
                        lemma_digits_prefix(t, k + 1);
                    }
                }
                return None;
            },
        }
        i = i + 1;
    }
    assert(t.subrange(0, t.len() as int) =~= t);
    Some(acc)
}

/// How `i64` reads a decimal text: an optional sign, then at least one
/// ASCII digit, with a value in range.
pub open spec fn parse_i64(s: Seq<char>) -> Option<i64> {
    let neg = s.len() > 0 && s[0] == '-';
    let d = if s.len() > 0 && (s[0] == '+' || s[0] == '-') { s.drop_first() } else { s };
    let v = if neg { -digits_value(d) } else { digits_value(d) };
    if d.len() > 0 && all_digits(d) && i64::MIN <= v <= i64::MAX {
        Some(v as i64)
    } else {
        None
    }
}

/// Reads a decimal text as `i64` does.
pub fn parse_i64_chars(s: &Vec<char>) -> (r: Option<i64>)
    ensures
        r == parse_i64(s@),
{
    let neg = s.len() > 0 && s[0] == '-';
    let start: usize = if s.len() > 0 && (s[0] == '+' || s[0] == '-') { 1 } else { 0 };
    let ghost t = if s@.len() > 0 && (s@[0] == '+' || s@[0] == '-') { s@.drop_first() } else { s@ };
    assert(t =~= s@.subrange(start as int, s@.len() as int));
    if start >= s.len() {
        return None;
    }
    let mut acc: u64 = 0;
    let mut i: usize = start;
    assert(t.subrange(0, 0) =~= Seq::<char>::empty());
    while i < s.len()
        invariant
            start <= i <= s@.len(),
            start < s@.len(),
            t == s@.subrange(start as int, s@.len() as int),
            t == (if s@.len() > 0 && (s@[0] == '+' || s@[0] == '-') { s@.drop_first() } else { s@ }),
            neg == (s@.len() > 0 && s@[0] == '-'),
            all_digits(t.subrange(0, i - start)),
            acc == digits_value(t.subrange(0, i - start)),
        decreases s@.len() - i,
    {
        let ghost k: int = i - start;
        assert(t[k] == s@[i as int]);
        assert(t.subrange(0, k + 1).drop_last() =~= t.subrange(0, k));
        let ch = s[i];
        if ch < '0' || ch > '9' {
            assert(!is_ascii_digit(t[k]));
            return None;
        }
        assert(all_digits(t.subrange(0, k + 1))) by {
            assert forall|q: int| 0 <= q < k + 1 implies is_ascii_digit(#[trigger] t.subrange(0, k + 1)[q]) by {
                if q < k {
                    assert(t.subrange(0, k + 1)[q] == t.subrange(0, k)[q]);
                }
            }
        }
        let v = ((ch as u32) - 48) as u64;
        let next = match acc.checked_mul(10) {
            Some(m) => m.checked_add(v),
            None => None,
        };
        match next {
            Some(n) => {
                acc = n;
            },
            None => {
                proof {
                    if all_digits(t) {
                        lemma_digits_prefix(t, k + 1);
                    }
                }
                return None;
            },
        }
        i = i + 1;
    }
    assert(t.subrange(0, t.len() as int) =~= t);
    if neg {
        if acc <= 0x8000_0000_0000_0000u64 {
            let r: i128 = -(acc as i128);
            Some(r as i64)
        } else {
            None
        }
    } else if acc <= 0x7fff_ffff_ffff_ffffu64 {
        Some(acc as i64)
    } else {
        None
    }
}

} // verus!
