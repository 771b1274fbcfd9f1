//! Fixed-point base-10 logarithms of gram frequencies.
//!
//! A gram seen `c` times among `t` counted windows has probability
//! `c / t`; the model keeps `floor(5 * log10(c / t))`, the log scaled to
//! fifths of a decade, as an exact integer. That value is `-m` for the
//! least `m >= 0` with `c^5 * 10^m >= t^5`, which is what the code
//! computes.

use vstd::prelude::*;

verus! {

/// 10 to the power `n`.
pub open spec fn pow10(n: int) -> int
    decreases n,
{
    if n <= 0 {
        1
    } else {
        10 * pow10(n - 1)
    }
}

/// `x` to the fifth power.
pub open spec fn pow5(x: int) -> int {
    x * x * x * x * x
}

/// The least `m >= 0` with `a * 10^m >= b`, written as a recursion that
/// multiplies `a` up by tens.
pub open spec fn tenfold_steps(a: int, b: int) -> int
    decreases (if a < b { b - a } else { 0 }) when a >= 1
{
    if a >= b {
        0
    } else {
        1 + tenfold_steps(a * 10, b)
    }
}

/// The scaled log-probability of a gram counted `c` times out of `t`:
/// `floor(5 * log10(c / t))`.
pub open spec fn log_scaled(c: int, t: int) -> int {
    -tenfold_steps(pow5(c), pow5(t))
}

pub proof fn lemma_steps_nonneg(a: int, b: int)
    requires
        a >= 1,
    ensures
        tenfold_steps(a, b) >= 0,
    decreases (if a < b { b - a } else { 0 }),
{
    if a < b {
        lemma_steps_nonneg(a * 10, b);
    }
}

/// If multiplying `a` by `10^n` already reaches `b`, the recursion stops
/// within `n` steps.
pub proof fn lemma_steps_bound(a: int, b: int, n: int)
    requires
        a >= 1,
        n >= 0,
        a * pow10(n) >= b,
    ensures
        0 <= tenfold_steps(a, b) <= n,
    decreases n,
{
    lemma_steps_nonneg(a, b);
    if a < b {
        if n == 0 {
            assert(pow10(0) == 1);
            assert(false);
        }
        assert(pow10(n) == 10 * pow10(n - 1));
        assert(a * (10 * pow10(n - 1)) == (a * 10) * pow10(n - 1)) by (nonlinear_arith);
        lemma_steps_bound(a * 10, b, n - 1);
        assert(tenfold_steps(a, b) == 1 + tenfold_steps(a * 10, b));
    }
}

/// 10^40 written out.
pub proof fn lemma_pow10_40()
    ensures
        pow10(40) == 10000000000000000000000000000000000000000,
{
    assert(pow10(0) == 1);
    assert(pow10(1) == 10);
    assert(pow10(2) == 100);
    assert(pow10(3) == 1000);
    assert(pow10(4) == 10000);
    assert(pow10(5) == 100000);
    assert(pow10(6) == 1000000);
    assert(pow10(7) == 10000000);
    assert(pow10(8) == 100000000);
    assert(pow10(9) == 1000000000);
    assert(pow10(10) == 10000000000);
    assert(pow10(11) == 100000000000);
    assert(pow10(12) == 1000000000000);
    assert(pow10(13) == 10000000000000);
    assert(pow10(14) == 100000000000000);
    assert(pow10(15) == 1000000000000000);
    assert(pow10(16) == 10000000000000000);
    assert(pow10(17) == 100000000000000000);
    assert(pow10(18) == 1000000000000000000);
    assert(pow10(19) == 10000000000000000000);
    assert(pow10(20) == 100000000000000000000);
    assert(pow10(21) == 1000000000000000000000);
    assert(pow10(22) == 10000000000000000000000);
    assert(pow10(23) == 100000000000000000000000);
    assert(pow10(24) == 1000000000000000000000000);
    assert(pow10(25) == 10000000000000000000000000);
    assert(pow10(26) == 100000000000000000000000000);
    assert(pow10(27) == 1000000000000000000000000000);
    assert(pow10(28) == 10000000000000000000000000000);
    assert(pow10(29) == 100000000000000000000000000000);
    assert(pow10(30) == 1000000000000000000000000000000);
    assert(pow10(31) == 10000000000000000000000000000000);
    assert(pow10(32) == 100000000000000000000000000000000);
    assert(pow10(33) == 1000000000000000000000000000000000);
    assert(pow10(34) == 10000000000000000000000000000000000);
    assert(pow10(35) == 100000000000000000000000000000000000);
    assert(pow10(36) == 1000000000000000000000000000000000000);
    assert(pow10(37) == 10000000000000000000000000000000000000);
    assert(pow10(38) == 100000000000000000000000000000000000000);
    assert(pow10(39) == 1000000000000000000000000000000000000000);
    assert(pow10(40) == 10000000000000000000000000000000000000000);
}

/// Raising to the fifth power preserves order on the nonnegatives.
pub proof fn lemma_pow5_mono(x: int, y: int)
    requires
        0 <= x <= y,
    ensures
        0 <= pow5(x) <= pow5(y),
{
    let x2 = x * x;
    let y2 = y * y;
    assert(0 <= x2 && x2 <= y2) by (nonlinear_arith)
        requires
            0 <= x <= y,
            x2 == x * x,
            y2 == y * y,
    ;
    let x4 = x2 * x2;
    let y4 = y2 * y2;
    assert(0 <= x4 && x4 <= y4) by (nonlinear_arith)
        requires
            0 <= x2 <= y2,
            x4 == x2 * x2,
            y4 == y2 * y2,
    ;
    assert(0 <= x4 * x && x4 * x <= y4 * y) by (nonlinear_arith)
        requires
            0 <= x4 <= y4,
            0 <= x <= y,
    ;
    assert(x * x * x * x * x == x4 * x && y * y * y * y * y == y4 * y) by (nonlinear_arith)
        requires
            x2 == x * x,
            y2 == y * y,
            x4 == x2 * x2,
            y4 == y2 * y2,
    ;
    assert(pow5(x) == x * x * x * x * x);
    assert(pow5(y) == y * y * y * y * y);
}

/// The scaled log of a frequency is never positive and never below -40
/// for totals up to twenty million.
pub proof fn lemma_log_scaled_range(c: int, t: int)
    requires
        1 <= c <= t <= 20_000_000,
    ensures
        -40 <= log_scaled(c, t) <= 0,
        0 <= tenfold_steps(pow5(c), pow5(t)) <= 40,
        1 <= pow5(c) <= pow5(t) <= 3200000000000000000000000000000000000,
{
    lemma_pow10_40();
    let c5 = pow5(c);
    let t5 = pow5(t);
    lemma_pow5_mono(1, c);
    lemma_pow5_mono(c, t);
    lemma_pow5_mono(t, 20_000_000);
    assert(pow5(1) == 1);
    assert(pow5(20_000_000) == 3200000000000000000000000000000000000);
    assert(c5 * pow10(40) >= t5) by (nonlinear_arith)
        requires
            c5 >= 1,
            pow10(40) == 10000000000000000000000000000000000000000,
            t5 <= 3200000000000000000000000000000000000,
    ;
    lemma_steps_bound(c5, t5, 40);
}

/// The fifth power of a count, computed wide.
fn pow5_u128(x: u64) -> (r: u128)
    requires
        x <= 20_000_000,
    ensures
        r == pow5(x as int),
        r <= 3200000000000000000000000000000000000,
{
    let w = x as u128;
    proof {
        assert(0 <= w * w <= 400000000000000) by (nonlinear_arith)
            requires
                0 <= w <= 20_000_000,
        ;
    }
    let w2 = w * w;
    proof {
        assert(0 <= w2 * w2 <= 160000000000000000000000000000) by (nonlinear_arith)
            requires
                0 <= w2 <= 400000000000000,
        ;
    }
    let w4 = w2 * w2;
    proof {
        assert(w4 * w <= 3200000000000000000000000000000000000) by (nonlinear_arith)
            requires
                0 <= w4 <= 160000000000000000000000000000,
                w <= 20_000_000,
        ;
        assert(w4 * w == pow5(w as int)) by (nonlinear_arith)
            requires
                w2 == w * w,
                w4 == w2 * w2,
        ;
    }
    w4 * w
}

/// Computes the scaled log-probability `log_scaled(c, t)` exactly.
pub fn log_fixed(c: u64, t: u64) -> (r: i64)
    requires
        1 <= c <= t,
        t <= 20_000_000,
    ensures
        r == log_scaled(c as int, t as int),
        -40 <= r <= 0,
{
    proof {
        lemma_log_scaled_range(c as int, t as int);
    }
    let c5 = pow5_u128(c);
    let t5 = pow5_u128(t);
    let mut a: u128 = c5;
    let mut m: i64 = 0;
    while a < t5
        invariant
            1 <= c5 <= a,
            t5 <= 3200000000000000000000000000000000000,
            0 <= m <= 40,
            tenfold_steps(c5 as int, t5 as int) == m + tenfold_steps(a as int, t5 as int),
            tenfold_steps(c5 as int, t5 as int) <= 40,
            tenfold_steps(a as int, t5 as int) >= 0,
        decreases (if a < t5 { t5 - a } else { 0int }),
    {
        proof {
            assert(tenfold_steps(a as int, t5 as int) == 1 + tenfold_steps(a as int * 10,
                t5 as int));
            lemma_steps_nonneg(a as int * 10, t5 as int);
            assert(m < 40);
        }
        a = a * 10;
        m = m + 1;
    }
    proof {
        assert(tenfold_steps(a as int, t5 as int) == 0);
        assert(log_scaled(c as int, t as int) == 0 - m);
    }
    0i64 - m
}

} // verus!
