//! Rendering of byte counts as human-readable binary magnitudes: a scaled
//! decimal value with two fractional digits and a suffix among `KiB`, `MiB`
//! and `GiB`, clamped at the GiB tier. Zero renders as the bare `"0"`.
//!
//! The scaled value is computed as an exact rational rounded to hundredths
//! with ties to even, which agrees with an IEEE double-precision computation
//! for every count below 2^53.

use vstd::prelude::*;

use crate::intlog::ilog;
use crate::intlog::log;

verus! {

pub open spec fn digit_char(d: nat) -> char {
    if d == 0 {
        '0'
    } else if d == 1 {
        '1'
    } else if d == 2 {
        '2'
    } else if d == 3 {
        '3'
    } else if d == 4 {
        '4'
    } else if d == 5 {
        '5'
    } else if d == 6 {
        '6'
    } else if d == 7 {
        '7'
    } else if d == 8 {
        '8'
    } else {
        '9'
    }
}

/// Decimal rendering of `n`, most significant digit first, no leading zeros.
pub open spec fn dec_str(n: nat) -> Seq<char>
    decreases n,
    via dec_str_decreases
{
    if n < 10 {
        seq![digit_char(n)]
    } else {
        dec_str(n / 10).push(digit_char(n % 10))
    }
}

#[via_fn]
proof fn dec_str_decreases(n: nat) {
    if n >= 10 {
        vstd::arithmetic::div_mod::lemma_div_is_strictly_smaller(n as int, 10);
    }
}

/// Binary-magnitude suffix of tier `d`; tier 0 has none.
pub open spec fn suffix_str(d: int) -> Seq<char> {
    if d == 1 {
        seq!['K', 'i', 'B']
    } else if d == 2 {
        seq!['M', 'i', 'B']
    } else if d == 3 {
        seq!['G', 'i', 'B']
    } else {
        Seq::empty()
    }
}

pub open spec fn pow1024(d: int) -> int {
    if d <= 0 {
        1
    } else if d == 1 {
        1024
    } else if d == 2 {
        1048576
    } else {
        1073741824
    }
}

/// Nearest integer to `num / den`, ties to even.
pub open spec fn round_half_even(num: int, den: int) -> int {
    let q = num / den;
    let r = num % den;
    if 2 * r < den {
        q
    } else if 2 * r > den {
        q + 1
    } else if q % 2 == 0 {
        q
    } else {
        q + 1
    }
}

/// Magnitude tier of a byte count: its integer log base 1024, clamped at the
/// GiB tier — larger counts still render in GiB.
pub open spec fn tier_of(b: u64) -> int {
    if ilog(b as nat, 1024) <= 3 {
        ilog(b as nat, 1024) as int
    } else {
        3
    }
}

/// The rendered form of a byte count: `"0"` alone for zero; otherwise the
/// count divided by the tier's power of 1024, with exactly two fractional
/// digits, one space, and the tier's suffix. The empty suffix at tier 0
/// leaves a trailing space, as the report format has it.
pub open spec fn format_bytes_spec(b: u64) -> Seq<char> {
    if b == 0 {
        seq!['0']
    } else {
        let d = tier_of(b);
        let h = round_half_even(b * 100, pow1024(d));
        dec_str((h / 100) as nat) + seq!['.'] + seq![
            digit_char(((h % 100) / 10) as nat),
            digit_char((h % 100 % 10) as nat),
        ] + seq![' '] + suffix_str(d)
    }
}

fn append_digit(s: &mut String, d: u64)
    requires
        d < 10,
    ensures
        final(s)@ == old(s)@.push(digit_char(d as nat)),
{
    let t: &str = if d == 0 {
        "0"
    } else if d == 1 {
        "1"
    } else if d == 2 {
        "2"
    } else if d == 3 {
        "3"
    } else if d == 4 {
        "4"
    } else if d == 5 {
        "5"
    } else if d == 6 {
        "6"
    } else if d == 7 {
        "7"
    } else if d == 8 {
        "8"
    } else {
        "9"
    };
    proof {
        reveal_strlit("0");
        reveal_strlit("1");
        reveal_strlit("2");
        reveal_strlit("3");
        reveal_strlit("4");
        reveal_strlit("5");
        reveal_strlit("6");
        reveal_strlit("7");
        reveal_strlit("8");
        reveal_strlit("9");
        assert(t@ =~= seq![digit_char(d as nat)]);
    }
    let ghost pre = s@;
    s.append(t);
    proof {
        assert(s@ =~= pre.push(digit_char(d as nat)));
    }
}

/// Appends the decimal rendering of `n`.
fn append_dec(s: &mut String, n: u64)
    ensures
        final(s)@ == old(s)@ + dec_str(n as nat),
    decreases n,
{
    if n < 10 {
        append_digit(s, n);
        proof {
            assert(old(s)@.push(digit_char(n as nat)) =~= old(s)@ + dec_str(n as nat));
        }
    } else {
        proof {
            vstd::arithmetic::div_mod::lemma_div_is_strictly_smaller(n as int, 10);
        }
        append_dec(s, n / 10);
        append_digit(s, n % 10);
        proof {
            assert((old(s)@ + dec_str((n / 10) as nat)).push(digit_char((n % 10) as nat))
                =~= old(s)@ + dec_str(n as nat));
        }
    }
}

/// Renders a byte count per `format_bytes_spec`.
pub fn format_bytes(bytes: u64) -> (r: String)
    ensures
        r@ == format_bytes_spec(bytes),
{
    let mut s = String::new();
    if bytes == 0 {
        append_digit(&mut s, 0);
        proof {
            assert(s@ =~= seq!['0']);
        }
        return s;
    }
    let lg = log(bytes, 1024);
    let d: u64 = if lg < 3 {
        lg
    } else {
        3
    };
    proof {
        crate::intlog::lemma_ilog_lt(bytes as nat, 1024);
        assert(d as int == tier_of(bytes));
    }
    let den: u64 = if d == 0 {
        1
    } else if d == 1 {
        1024
    } else if d == 2 {
        1048576
    } else {
        1073741824
    };
    proof {
        assert(den as int == pow1024(d as int));
    }
    let num: u128 = bytes as u128 * 100;
    let q: u128 = num / (den as u128);
    let rm: u128 = num % (den as u128);
    proof {
        vstd::arithmetic::div_mod::lemma_div_nonincreasing(num as int, den as int);
        vstd::arithmetic::div_mod::lemma_remainder_upper(num as int, den as int);
    }
    let rounded: u128 = if 2 * rm < den as u128 {
        q
    } else if 2 * rm > den as u128 {
        q + 1
    } else if q % 2 == 0 {
        q
    } else {
        q + 1
    };
    proof {
        assert(rounded as int == round_half_even(bytes * 100, pow1024(d as int)));
        assert(num < 0x10000000000000000 * 100);
        vstd::arithmetic::div_mod::lemma_multiply_divide_lt(
            rounded as int,
            100,
            0x10000000000000000,
        );
    }
    let whole: u64 = (rounded / 100) as u64;
    let frac: u64 = (rounded % 100) as u64;
    append_dec(&mut s, whole);
    let ghost mid = s@;
    let dot: &str = ".";
    proof {
        reveal_strlit(".");
    }
    s.append(dot);
    append_digit(&mut s, frac / 10);
    append_digit(&mut s, frac % 10);
    let sp: &str = " ";
    proof {
        reveal_strlit(" ");
    }
    s.append(sp);
    if d == 1 {
        let suf: &str = "KiB";
        proof {
            reveal_strlit("KiB");
            assert(suf@ =~= suffix_str(1));
        }
        s.append(suf);
    } else if d == 2 {
        let suf: &str = "MiB";
        proof {
            reveal_strlit("MiB");
            assert(suf@ =~= suffix_str(2));
        }
        s.append(suf);
    } else if d == 3 {
        let suf: &str = "GiB";
        proof {
            reveal_strlit("GiB");
            assert(suf@ =~= suffix_str(3));
        }
        s.append(suf);
    }
    proof {
        assert(s@ =~= format_bytes_spec(bytes));
    }
    s
}

} // verus!
