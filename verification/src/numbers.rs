//! Base-10 parsing of tokens, with the same accept rules as std's
//! `str::parse` for `u64` and `i32`: an optional sign (only `+` for the
//! unsigned form), then one or more decimal digits, and a value in range.

use vstd::prelude::*;

verus! {

pub open spec fn is_digit(b: u8) -> bool {
    48 <= b <= 57
}

pub open spec fn all_digits(t: Seq<u8>) -> bool {
    forall|i: int| 0 <= i < t.len() ==> is_digit(#[trigger] t[i])
}

pub open spec fn digit_of(b: u8) -> nat {
    if 48 <= b {
        (b - 48) as nat
    } else {
        0
    }
}

/// Value of a string of decimal digits, most significant first.
pub open spec fn digits_val(t: Seq<u8>) -> nat
    decreases t.len(),
{
    if t.len() == 0 {
        0
    } else {
        digits_val(t.drop_last()) * 10 + digit_of(t.last())
    }
}

/// A digit string is worth at least any of its prefixes.
pub proof fn lemma_digits_val_prefix_le(t: Seq<u8>, m: int)
    requires
        0 <= m <= t.len(),
    ensures
        digits_val(t.take(m)) <= digits_val(t),
    decreases t.len() - m,
{
    if m < t.len() {
        assert(t.take(m + 1).drop_last() =~= t.take(m));
        assert(t.take(m + 1).last() == t[m]);
        assert(digits_val(t.take(m + 1)) == digits_val(t.take(m)) * 10 + digit_of(t[m]));
        lemma_digits_val_prefix_le(t, m + 1);
    } else {
        assert(t.take(m) =~= t);
    }
}

/// What `str::parse::<u64>` accepts: optional leading `+`, then one or more
/// decimal digits whose value fits in `u64`.
pub open spec fn parse_u64_spec(t: Seq<u8>) -> Option<u64> {
    let body = if t.len() >= 1 && t[0] == 43 {
        t.drop_first()
    } else {
        t
    };
    if body.len() >= 1 && all_digits(body) && digits_val(body) <= u64::MAX {
        Some(digits_val(body) as u64)
    } else {
        None
    }
}

/// What `str::parse::<i32>` accepts: optional leading `+` or `-`, then one or
/// more decimal digits whose signed value fits in `i32`.
pub open spec fn parse_i32_spec(t: Seq<u8>) -> Option<i32> {
    if t.len() >= 1 && t[0] == 45 {
        let body = t.drop_first();
        if body.len() >= 1 && all_digits(body) && digits_val(body) <= 0x8000_0000 {
            Some((-(digits_val(body) as int)) as i32)
        } else {
            None
        }
    } else {
        let body = if t.len() >= 1 && t[0] == 43 {
            t.drop_first()
        } else {
            t
        };
        if body.len() >= 1 && all_digits(body) && digits_val(body) <= i32::MAX {
            Some(digits_val(body) as i32)
        } else {
            None
        }
    }
}

/// Parses the digit run `t[from..]` as a `u64`, rejecting empty runs,
/// non-digit bytes and values beyond `u64::MAX`.
fn parse_digits_u64(t: &[u8], from: usize) -> (r: Option<u64>)
    requires
        from <= t@.len(),
    ensures
        ({
            let body = t@.skip(from as int);
            r == if body.len() >= 1 && all_digits(body) && digits_val(body) <= u64::MAX {
                Some(digits_val(body) as u64)
            } else {
                None::<u64>
            }
        }),
{
    let ghost body = t@.skip(from as int);
    if from == t.len() {
        return None;
    }
    let mut acc: u64 = 0;
    let mut k: usize = from;
    while k < t.len()
        invariant
            from <= k <= t@.len(),
            body == t@.skip(from as int),
            acc == digits_val(body.take(k - from)),
            forall|m: int| 0 <= m < k - from ==> is_digit(#[trigger] body[m]),
        decreases t@.len() - k,
    {
        let b = t[k];
        if b < 48 || b > 57 {
            assert(!is_digit(body[k - from]));
            return None;
        }
        let d: u64 = (b - 48) as u64;
        proof {
            assert(body.take(k - from + 1).drop_last() =~= body.take(k - from));
            assert(body.take(k - from + 1).last() == body[k - from]);
            assert(digit_of(body[k - from]) == d);
        }
        if acc > (u64::MAX - d) / 10 {
            proof {
                vstd::arithmetic::div_mod::lemma_fundamental_div_mod(
                    (u64::MAX - d) as int,
                    10,
                );
                assert(acc * 10 + d > u64::MAX);
                assert(digits_val(body.take(k - from + 1)) > u64::MAX);
                lemma_digits_val_prefix_le(body, k - from + 1);
            }
            return None;
        }
        proof {
            vstd::arithmetic::div_mod::lemma_fundamental_div_mod((u64::MAX - d) as int, 10);
            assert(acc * 10 + d <= u64::MAX);
        }
        acc = acc * 10 + d;
        k = k + 1;
    }
    proof {
        assert(body.take(t@.len() - from) =~= body);
    }
    Some(acc)
}

/// Parses a whole token as `u64` the way `str::parse::<u64>` would.
pub fn parse_u64_bytes(t: &[u8]) -> (r: Option<u64>)
    ensures
        r == parse_u64_spec(t@),
{
    if t.len() >= 1 && t[0] == 43 {
        proof {
            assert(t@.skip(1) =~= t@.drop_first());
        }
        parse_digits_u64(t, 1)
    } else {
        proof {
            assert(t@.skip(0) =~= t@);
        }
        parse_digits_u64(t, 0)
    }
}

/// Parses a whole token as `i32` the way `str::parse::<i32>` would.
pub fn parse_i32_bytes(t: &[u8]) -> (r: Option<i32>)
    ensures
        r == parse_i32_spec(t@),
{
    if t.len() >= 1 && t[0] == 45 {
        proof {
            assert(t@.skip(1) =~= t@.drop_first());
        }
        match parse_digits_u64(t, 1) {
            Some(v) => {
                if v <= 0x8000_0000 {
                    let m: i64 = v as i64;
                    Some((-m) as i32)
                } else {
                    None
                }
            },
            None => None,
        }
    } else if t.len() >= 1 && t[0] == 43 {
        proof {
            assert(t@.skip(1) =~= t@.drop_first());
        }
        match parse_digits_u64(t, 1) {
            Some(v) => {
                if v <= i32::MAX as u64 {
                    Some(v as i32)
                } else {
                    None
                }
            },
            None => None,
        }
    } else {
        proof {
            assert(t@.skip(0) =~= t@);
        }
        match parse_digits_u64(t, 0) {
            Some(v) => {
                if v <= i32::MAX as u64 {
                    Some(v as i32)
                } else {
                    None
                }
            },
            None => None,
        }
    }
}

} // verus!
