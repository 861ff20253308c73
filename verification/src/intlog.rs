//! Integer logarithm helpers used by the byte formatter.

use vstd::prelude::*;

verus! {

/// Mathematical integer logarithm: the number of times `x` can be divided by
/// `base` before the quotient drops below `base`. Defined as 0 whenever
/// `base <= 1` or `x < base`, matching the permissive fallback of the
/// executable functions below.
pub open spec fn ilog(x: nat, base: nat) -> nat
    decreases x,
    via ilog_decreases
{
    if base <= 1 || x < base {
        0
    } else {
        1 + ilog(x / base, base)
    }
}

#[via_fn]
proof fn ilog_decreases(x: nat, base: nat) {
    if !(base <= 1 || x < base) {
        vstd::arithmetic::div_mod::lemma_div_is_strictly_smaller(x as int, base as int);
    }
}

/// The integer logarithm is strictly below its argument whenever it is
/// defined on a positive argument, so a `u64` counter for it cannot overflow.
pub proof fn lemma_ilog_lt(x: nat, base: nat)
    requires
        base >= 2,
        x >= 1,
    ensures
        ilog(x, base) < x,
    decreases x,
{
    if x >= base {
        vstd::arithmetic::div_mod::lemma_div_non_zero(x as int, base as int);
        vstd::arithmetic::div_mod::lemma_div_is_strictly_smaller(x as int, base as int);
        lemma_ilog_lt(x / base, base);
    }
}

/// Largest `n` with `base^n <= x`, for `base >= 2` and `x >= 1`; `None` when
/// that logarithm is undefined (`x == 0` or `base <= 1`).
pub fn checked_log(x: u64, base: u64) -> (r: Option<u64>)
    ensures
        r == if x == 0 || base <= 1 {
            Option::<u64>::None
        } else {
            Option::<u64>::Some(ilog(x as nat, base as nat) as u64)
        },
{
    if x <= 0 || base <= 1 {
        None
    } else {
        let mut n: u64 = 0;
        let mut r: u64 = x;
        proof {
            lemma_ilog_lt(x as nat, base as nat);
        }
        while r >= base
            invariant
                base >= 2,
                x >= 1,
                r >= 1,
                ilog(x as nat, base as nat) == n + ilog(r as nat, base as nat),
                n <= ilog(x as nat, base as nat),
                ilog(x as nat, base as nat) < x,
            decreases r,
        {
            proof {
                vstd::arithmetic::div_mod::lemma_div_non_zero(r as int, base as int);
                vstd::arithmetic::div_mod::lemma_div_is_strictly_smaller(r as int, base as int);
            }
            r = r / base;
            n = n + 1;
        }
        Some(n)
    }
}

/// `checked_log` with the undefined cases collapsed to 0.
pub fn log(x: u64, base: u64) -> (r: u64)
    ensures
        r == if x == 0 || base <= 1 {
            0u64
        } else {
            ilog(x as nat, base as nat) as u64
        },
{
    match checked_log(x, base) {
        Some(n) => n,
        None => 0,
    }
}

} // verus!
