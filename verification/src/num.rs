//! Fixed-point helpers: truncating division, gain scaling, and decimal
//! rendering of unsigned integers.

use vstd::arithmetic::div_mod::{lemma_div_is_ordered, lemma_div_multiples_vanish};
use vstd::prelude::*;

verus! {

/// One unit (1.0) in the fixed-point encoding: values are counted in
/// millionths.
pub const MICRO: i64 = 1_000_000;

/// Division truncating toward zero, the semantics shared by every division
/// in the reverb's mixing arithmetic. (Spec-mode `/` is Euclidean, so the
/// negative case is spelled out.)
pub open spec fn div_t(a: int, d: int) -> int {
    if a >= 0 {
        a / d
    } else {
        -((-a) / d)
    }
}

/// Truncating division of a signed value by a positive divisor.
pub fn div_trunc(a: i64, d: u64) -> (r: i64)
    requires
        d > 0,
        a > i64::MIN,
    ensures
        r == div_t(a as int, d as int),
{
    if a >= 0 {
        ((a as u64) / d) as i64
    } else {
        let neg: u64 = (-a) as u64;
        -((neg / d) as i64)
    }
}

/// Scales a value by a gain in `[0, MICRO]` (a linear multiplier in
/// `[0.0, 1.0]`), truncating toward zero. The result never exceeds the
/// input in magnitude.
pub fn scale_micro(a: i64, g: i64) -> (r: i64)
    requires
        0 <= g <= MICRO,
        -100_000_000_000_000_000 <= a <= 100_000_000_000_000_000,
    ensures
        r == div_t(a * g, MICRO as int),
        -100_000_000_000_000_000 <= r <= 100_000_000_000_000_000,
        a >= 0 ==> 0 <= r <= a,
        a < 0 ==> a <= r <= 0,
{
    proof {
        assert(a >= 0 ==> (a as int) * (g as int) <= 100_000_000_000_000_000 * 1_000_000)
            by (nonlinear_arith)
            requires 0 <= g <= 1_000_000, a <= 100_000_000_000_000_000;
        assert(a < 0 ==> (-(a as int)) * (g as int) <= 100_000_000_000_000_000 * 1_000_000)
            by (nonlinear_arith)
            requires 0 <= g <= 1_000_000, -100_000_000_000_000_000 <= a;
    }
    let mag: u128 = if a >= 0 {
        (a as u128) * (g as u128)
    } else {
        ((-a) as u128) * (g as u128)
    };
    let q: u128 = mag / 1_000_000;
    proof {
        let m = if a >= 0 { a as int } else { -(a as int) };
        assert(0 <= m * g <= m * 1_000_000) by (nonlinear_arith)
            requires 0 <= g <= 1_000_000, 0 <= m;
        lemma_div_is_ordered(m * g, m * 1_000_000, 1_000_000);
        lemma_div_multiples_vanish(m, 1_000_000);
        assert(q == (m * g) / 1_000_000);
        assert(q <= m);
    }
    if a >= 0 {
        q as i64
    } else {
        proof {
            assert(a * g == -((-a) * g)) by (nonlinear_arith);
        }
        -(q as i64)
    }
}

/// The character for one decimal digit.
pub open spec fn digit_char(d: int) -> char {
    if d == 0 {
        '0'
    } else if d == 1 {
        '1'
    } else if d == 2 {
        '2'
    } else if d == 3 {
        '3'
    } else if d == 4 {
        '4'
    } else if d == 5 {
        '5'
    } else if d == 6 {
        '6'
    } else if d == 7 {
        '7'
    } else if d == 8 {
        '8'
    } else {
        '9'
    }
}

/// The decimal rendering of a nonnegative integer, most significant digit
/// first, with no leading zeros (except for zero itself).
pub open spec fn dec_seq(n: nat) -> Seq<char>
    decreases n,
{
    if n < 10 {
        seq![digit_char(n as int)]
    } else {
        dec_seq(n / 10) + seq![digit_char((n % 10) as int)]
    }
}

/// The one-character string for a decimal digit.
fn digit_str(d: u64) -> (r: &'static str)
    requires
        d < 10,
    ensures
        r@ == seq![digit_char(d as int)],
{
    if d == 0 {
        proof {
            reveal_strlit("0");
            assert("0"@ =~= seq![digit_char(0)]);
        }
        "0"
    } else if d == 1 {
        proof {
            reveal_strlit("1");
            assert("1"@ =~= seq![digit_char(1)]);
        }
        "1"
    } else if d == 2 {
        proof {
            reveal_strlit("2");
            assert("2"@ =~= seq![digit_char(2)]);
        }
        "2"
    } else if d == 3 {
        proof {
            reveal_strlit("3");
            assert("3"@ =~= seq![digit_char(3)]);
        }
        "3"
    } else if d == 4 {
        proof {
            reveal_strlit("4");
            assert("4"@ =~= seq![digit_char(4)]);
        }
        "4"
    } else if d == 5 {
        proof {
            reveal_strlit("5");
            assert("5"@ =~= seq![digit_char(5)]);
        }
        "5"
    } else if d == 6 {
        proof {
            reveal_strlit("6");
            assert("6"@ =~= seq![digit_char(6)]);
        }
        "6"
    } else if d == 7 {
        proof {
            reveal_strlit("7");
            assert("7"@ =~= seq![digit_char(7)]);
        }
        "7"
    } else if d == 8 {
        proof {
            reveal_strlit("8");
            assert("8"@ =~= seq![digit_char(8)]);
        }
        "8"
    } else {
        proof {
            reveal_strlit("9");
            assert("9"@ =~= seq![digit_char(9)]);
        }
        "9"
    }
}

/// Appends the decimal rendering of `n` to `s`.
pub fn push_dec(s: &mut String, n: u64)
    ensures
        final(s)@ == old(s)@ + dec_seq(n as nat),
    decreases n,
{
    if n >= 10 {
        push_dec(s, n / 10);
        let d = digit_str(n % 10);
        vstd::string::StringExecFns::append(s, d);
        proof {
            assert(s@ =~= old(s)@ + dec_seq(n as nat));
        }
    } else {
        let d = digit_str(n);
        vstd::string::StringExecFns::append(s, d);
    }
}

} // verus!
