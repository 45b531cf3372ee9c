//! Fixed-point scalar arithmetic.
//!
//! A scalar is an `i64` holding micro-units: the value `x` stands for the real
//! number `x / SCALE`. Products and quotients truncate toward zero; every
//! operation's contract states the exact truncated result.

use vstd::prelude::*;

verus! {

/// Number of fixed-point steps in one unit (1.0).
pub const SCALE: i64 = 1_000_000;

/// Truncating (toward zero) division, the rounding used by all scalar ops.
pub open spec fn fp_trunc_div(n: int, d: int) -> int
    recommends
        d > 0,
{
    if n >= 0 {
        n / d
    } else {
        -((-n) / d)
    }
}

/// The fixed-point product: `a * b` rescaled, truncated toward zero.
pub open spec fn fpmul_spec(a: int, b: int) -> int {
    fp_trunc_div(a * b, SCALE as int)
}

/// The fixed-point quotient: `a / b` rescaled, truncated toward zero.
pub open spec fn fpdiv_spec(a: int, b: int) -> int
    recommends
        b > 0,
{
    fp_trunc_div(a * (SCALE as int), b)
}

/// Absolute value of an `i64`, widened so `i64::MIN` is representable.
pub fn abs64(a: i64) -> (r: u64)
    ensures
        a >= 0 ==> r as int == a as int,
        a < 0 ==> r as int == -(a as int),
{
    if a >= 0 {
        a as u64
    } else {
        let wide: i128 = -(a as i128);
        wide as u64
    }
}

/// Largest magnitude accepted for the scaled factor of a fixed-point product.
pub const FPMUL_A_MAX: i64 = 16_000_000;

/// Largest magnitude accepted for the plain factor of a fixed-point product.
pub const FPMUL_B_MAX: i64 = 500_000_000_000_000_000;

proof fn lemma_abs_mul(a: int, b: int)
    ensures
        (a * b >= 0 ==> (if a >= 0 { a } else { -a }) * (if b >= 0 { b } else { -b }) == a * b),
        (a * b < 0 ==> (if a >= 0 { a } else { -a }) * (if b >= 0 { b } else { -b }) == -(a * b)),
{
    assert((-a) * b == -(a * b)) by (nonlinear_arith);
    assert(a * (-b) == -(a * b)) by (nonlinear_arith);
    assert((-a) * (-b) == a * b) by (nonlinear_arith);
    assert(a >= 0 && b >= 0 ==> a * b >= 0) by (nonlinear_arith);
    assert(a >= 0 && b <= 0 ==> a * b <= 0) by (nonlinear_arith);
    assert(a <= 0 && b >= 0 ==> a * b <= 0) by (nonlinear_arith);
    assert(a <= 0 && b <= 0 ==> a * b >= 0) by (nonlinear_arith);
}

/// Magnitude bound for a fixed-point product, from bounds on the factors.
pub proof fn lemma_fpmul_abs(a: int, b: int, aa: int, bb: int)
    requires
        -aa <= a <= aa,
        -bb <= b <= bb,
        0 <= aa,
        0 <= bb,
    ensures
        -(aa * bb / (SCALE as int)) <= fpmul_spec(a, b) <= aa * bb / (SCALE as int),
{
    let s: int = SCALE as int;
    let p: int = a * b;
    let m: int = if p >= 0 { p } else { -p };
    assert(m <= aa * bb) by (nonlinear_arith)
        requires
            -aa <= a <= aa,
            -bb <= b <= bb,
            0 <= aa,
            0 <= bb,
            m == (if a * b >= 0 { a * b } else { -(a * b) }),
    ;
    assert(m / s <= aa * bb / s) by {
        vstd::arithmetic::div_mod::lemma_div_is_ordered(m, aa * bb, s);
    }
    assert(m >= 0);
    assert(m / s >= 0) by {
        vstd::arithmetic::div_mod::lemma_div_basics(s);
        vstd::arithmetic::div_mod::lemma_div_is_ordered(0, m, s);
    }
    if p >= 0 {
        assert(fpmul_spec(a, b) == m / s);
    } else {
        assert(fpmul_spec(a, b) == -(m / s));
    }
}

/// Fixed-point product, exact per `fpmul_spec`.
pub fn fpmul(a: i64, b: i64) -> (r: i64)
    requires
        -(FPMUL_A_MAX as int) <= a as int <= FPMUL_A_MAX as int,
        -(FPMUL_B_MAX as int) <= b as int <= FPMUL_B_MAX as int,
    ensures
        r as int == fpmul_spec(a as int, b as int),
{
    let ghost p: int = (a as int) * (b as int);
    let ghost mm: int = if p >= 0 { p } else { -p };
    proof {
        lemma_abs_mul(a as int, b as int);
        assert(mm <= FPMUL_A_MAX as int * FPMUL_B_MAX as int) by (nonlinear_arith)
            requires
                -(FPMUL_A_MAX as int) <= a as int <= FPMUL_A_MAX as int,
                -(FPMUL_B_MAX as int) <= b as int <= FPMUL_B_MAX as int,
                mm == (if (a as int) * (b as int) >= 0 {
                    (a as int) * (b as int)
                } else {
                    -((a as int) * (b as int))
                }),
        ;
    }
    let neg: bool = (a < 0) != (b < 0);
    let am: u128 = abs64(a) as u128;
    let bm: u128 = abs64(b) as u128;
    let m: u128 = am * bm;
    proof {
        assert(m as int == mm);
    }
    let q: u128 = m / (SCALE as u128);
    proof {
        assert(q as int == mm / (SCALE as int));
        assert(mm / (SCALE as int) <= FPMUL_A_MAX as int * FPMUL_B_MAX as int / (SCALE as int))
            by {
            vstd::arithmetic::div_mod::lemma_div_is_ordered(
                mm,
                FPMUL_A_MAX as int * FPMUL_B_MAX as int,
                SCALE as int,
            );
        }
        assert(mm / (SCALE as int) >= 0) by {
            vstd::arithmetic::div_mod::lemma_div_is_ordered(0, mm, SCALE as int);
        }
        assert(a as int >= 0 && b as int >= 0 ==> p >= 0) by (nonlinear_arith)
            requires
                p == (a as int) * (b as int),
        ;
        assert((a as int) < 0 && (b as int) < 0 ==> p >= 0) by (nonlinear_arith)
            requires
                p == (a as int) * (b as int),
        ;
        assert((a as int) < 0 && b as int >= 0 ==> p <= 0) by (nonlinear_arith)
            requires
                p == (a as int) * (b as int),
        ;
        assert(a as int >= 0 && (b as int) < 0 ==> p <= 0) by (nonlinear_arith)
            requires
                p == (a as int) * (b as int),
        ;
        if p >= 0 {
            assert(fpmul_spec(a as int, b as int) == mm / (SCALE as int));
        } else {
            assert(fpmul_spec(a as int, b as int) == -(mm / (SCALE as int)));
        }
    }
    if neg {
        -((q as i64))
    } else {
        q as i64
    }
}

/// The fixed-point product is odd in its first argument.
pub proof fn lemma_fpmul_neg(a: int, b: int)
    ensures
        fpmul_spec(-a, b) == -fpmul_spec(a, b),
        fpmul_spec(a, -b) == -fpmul_spec(a, b),
{
    assert((-a) * b == -(a * b)) by (nonlinear_arith);
    assert(a * (-b) == -(a * b)) by (nonlinear_arith);
}

/// Truncating division is odd in its dividend.
pub proof fn lemma_trunc_div_neg(n: int, d: int)
    requires
        d > 0,
    ensures
        fp_trunc_div(-n, d) == -fp_trunc_div(n, d),
{
}

/// Truncating division of an `i64` by a positive divisor.
pub fn div_trunc(n: i64, d: i64) -> (r: i64)
    requires
        d >= 1,
        -(0x7fff_ffff_ffff_ffff as int) <= n as int,
    ensures
        r as int == fp_trunc_div(n as int, d as int),
{
    let nm: u64 = abs64(n);
    let q: u64 = nm / (d as u64);
    proof {
        vstd::arithmetic::div_mod::lemma_div_is_ordered(q as int, nm as int, 1);
        assert(q as int <= nm as int) by {
            vstd::arithmetic::div_mod::lemma_div_is_ordered_by_denominator(
                nm as int,
                1,
                d as int,
            );
            assert(nm as int / 1 == nm as int);
        }
    }
    if n < 0 {
        -(q as i64)
    } else {
        q as i64
    }
}

/// Truncating remainder (the sign follows the dividend, as `%` does).
pub open spec fn rem_trunc_spec(n: int, d: int) -> int
    recommends
        d > 0,
{
    n - d * fp_trunc_div(n, d)
}

/// Truncating remainder of an `i64` by a positive divisor.
pub fn rem_trunc(n: i64, d: i64) -> (r: i64)
    requires
        d >= 1,
        -(0x7fff_ffff_ffff_ffff as int) <= n as int,
    ensures
        r as int == rem_trunc_spec(n as int, d as int),
        -(d as int) < (r as int) < d as int,
        n >= 0 ==> r >= 0,
        n < 0 ==> r <= 0,
{
    let nm: u64 = abs64(n);
    let m: u64 = nm % (d as u64);
    proof {
        let nn: int = nm as int;
        let dd: int = d as int;
        vstd::arithmetic::div_mod::lemma_fundamental_div_mod(nn, dd);
        vstd::arithmetic::div_mod::lemma_mod_bound(nn, dd);
        assert(m as int == nn - dd * (nn / dd));
        if n >= 0 {
            assert(rem_trunc_spec(n as int, dd) == nn - dd * (nn / dd));
        } else {
            assert(fp_trunc_div(n as int, dd) == -(nn / dd));
            assert(rem_trunc_spec(n as int, dd) == -nn + dd * (nn / dd)) by {
                assert(dd * -(nn / dd) == -(dd * (nn / dd))) by (nonlinear_arith);
            }
        }
    }
    if n < 0 {
        -(m as i64)
    } else {
        m as i64
    }
}

/// Upper bound on the elapsed-time argument of one update, in micro-seconds.
pub const DT_MAX: i64 = 10_000_000;

/// Fixed-point quotient of a non-negative time by a positive time-constant.
pub fn fpdiv(a: i64, b: i64) -> (r: i64)
    requires
        0 <= a <= DT_MAX as int,
        b >= 1,
    ensures
        r as int == fpdiv_spec(a as int, b as int),
        0 <= r as int <= (a as int) * (SCALE as int),
{
    let wide: u128 = (a as u128) * (SCALE as u128);
    let q: u128 = wide / (b as u128);
    proof {
        let ww: int = (a as int) * (SCALE as int);
        assert(q as int == ww / (b as int));
        vstd::arithmetic::div_mod::lemma_div_is_ordered_by_denominator(ww, 1, b as int);
        assert(ww / 1 == ww);
        vstd::arithmetic::div_mod::lemma_div_is_ordered(0, ww, b as int);
    }
    q as i64
}

/// Argument at which the fixed-point decay is taken to have fully died out.
pub const EXP_ARG_MAX: i64 = 20_000_000;

/// Fixed-point `exp(-x)`: the reciprocal of a five-term power series, and `0`
/// beyond `EXP_ARG_MAX`, truncated toward zero.
pub open spec fn exp_neg_spec(x: int) -> int
    recommends
        x >= 0,
{
    let s: int = SCALE as int;
    if x >= EXP_ARG_MAX as int {
        0
    } else {
        let den: int = s + x + (x * x) / (2 * s) + (x * x * x) / (6 * s * s) + (x * x * x * x)
            / (24 * s * s * s) + (x * x * x * x * x) / (120 * s * s * s * s);
        (s * s) / den
    }
}

/// Fixed-point `exp(-x)`, exact per `exp_neg_spec`.
pub fn exp_neg(x: i64) -> (r: i64)
    requires
        x >= 0,
    ensures
        r as int == exp_neg_spec(x as int),
        0 <= r <= SCALE,
        x == 0 ==> r == SCALE,
{
    if x >= EXP_ARG_MAX {
        return 0;
    }
    let xx: u128 = x as u128;
    proof {
        assert(xx < 20_000_000);
        assert(xx * xx < 400_000_000_000_000) by (nonlinear_arith)
            requires
                xx < 20_000_000,
        ;
        assert(xx * xx * xx < 8_000_000_000_000_000_000_000) by (nonlinear_arith)
            requires
                xx < 20_000_000,
        ;
        assert(xx * xx * xx * xx < 160_000_000_000_000_000_000_000_000_000) by (nonlinear_arith)
            requires
                xx < 20_000_000,
        ;
        assert(xx * xx * xx * xx * xx < 3_200_000_000_000_000_000_000_000_000_000_000_000)
            by (nonlinear_arith)
            requires
                xx < 20_000_000,
        ;
    }
    let x2: u128 = xx * xx;
    let x3: u128 = x2 * xx;
    let x4: u128 = x3 * xx;
    let x5: u128 = x4 * xx;
    let t2: u128 = x2 / 2_000_000;
    let t3: u128 = x3 / 6_000_000_000_000;
    let t4: u128 = x4 / 24_000_000_000_000_000_000;
    let t5: u128 = x5 / 120_000_000_000_000_000_000_000_000;
    let den: u128 = 1_000_000 + xx + t2 + t3 + t4 + t5;
    let q: u128 = 1_000_000_000_000 / den;
    proof {
        let s: int = SCALE as int;
        let xi: int = x as int;
        let deni: int = s + xi + (xi * xi) / (2 * s) + (xi * xi * xi) / (6 * s * s) + (xi * xi
            * xi * xi) / (24 * s * s * s) + (xi * xi * xi * xi * xi) / (120 * s * s * s * s);
        assert(t2 as int == (xi * xi) / (2 * s));
        assert(t3 as int == (xi * xi * xi) / (6 * s * s));
        assert(t4 as int == (xi * xi * xi * xi) / (24 * s * s * s));
        assert(t5 as int == (xi * xi * xi * xi * xi) / (120 * s * s * s * s));
        assert(den as int == deni);
        assert(q as int == (s * s) / deni);
        assert((s * s) / deni <= (s * s) / s) by {
            vstd::arithmetic::div_mod::lemma_div_is_ordered_by_denominator(s * s, s, deni);
        }
        assert((s * s) / s == s) by {
            vstd::arithmetic::div_mod::lemma_div_by_multiple(s, s);
        }
        vstd::arithmetic::div_mod::lemma_div_is_ordered(0, s * s, deni);
        if x == 0 {
            assert((s * s) / deni == s) by {
                vstd::arithmetic::div_mod::lemma_div_basics(2 * s);
                vstd::arithmetic::div_mod::lemma_div_basics(6 * s * s);
                vstd::arithmetic::div_mod::lemma_div_basics(24 * s * s * s);
                vstd::arithmetic::div_mod::lemma_div_basics(120 * s * s * s * s);
                assert(xi == 0);
                assert(xi * xi == 0 && xi * xi * xi == 0 && xi * xi * xi * xi == 0 && xi * xi
                    * xi * xi * xi == 0) by (nonlinear_arith)
                    requires
                        xi == 0,
                ;
                assert(deni == s);
                vstd::arithmetic::div_mod::lemma_div_by_multiple(s, s);
            }
        }
    }
    q as i64
}

/// A fixed-point product of non-negative factors is non-negative.
pub proof fn lemma_fpmul_nonneg(a: int, b: int)
    requires
        0 <= a,
        0 <= b,
    ensures
        0 <= fpmul_spec(a, b),
{
    assert(0 <= a * b) by (nonlinear_arith)
        requires
            0 <= a,
            0 <= b,
    ;
    vstd::arithmetic::div_mod::lemma_div_is_ordered(0, a * b, SCALE as int);
}

/// Cap of the saturating fixed-point power.
pub const FPOW_CAP: i64 = 100_000_000_000_000_000;

/// The saturating fixed-point power: `SCALE` at exponent zero, one fixed-point
/// product per further step, capped at `FPOW_CAP`.
pub open spec fn fpow_spec(b: int, n: nat) -> int
    decreases n,
{
    if n == 0 {
        SCALE as int
    } else {
        let p: int = fpmul_spec(b, fpow_spec(b, (n - 1) as nat));
        if p > FPOW_CAP as int {
            FPOW_CAP as int
        } else {
            p
        }
    }
}

/// The saturating fixed-point power, exact per `fpow_spec`.
pub fn fpow(b: i64, n: u32) -> (r: i64)
    requires
        0 <= b <= FPMUL_A_MAX as int,
        n <= 100,
    ensures
        r as int == fpow_spec(b as int, n as nat),
        0 <= r <= FPOW_CAP,
{
    let mut acc: i64 = SCALE;
    let mut k: u32 = 0;
    while k < n
        invariant
            0 <= k <= n,
            0 <= b <= FPMUL_A_MAX as int,
            acc as int == fpow_spec(b as int, k as nat),
            0 <= acc <= FPOW_CAP,
        decreases n - k,
    {
        proof {
            lemma_fpmul_nonneg(b as int, acc as int);
        }
        let p: i64 = fpmul(b, acc);
        acc = if p > FPOW_CAP {
            FPOW_CAP
        } else {
            p
        };
        k = k + 1;
    }
    acc
}

/// One half turn (180 degrees) in micro-degrees.
pub const HALF_TURN: i64 = 180_000_000;

/// One full turn (360 degrees) in micro-degrees.
pub const FULL_TURN: i64 = 360_000_000;

/// Rational sine approximation on `[0, HALF_TURN]` micro-degrees, in `[0, SCALE]`.
pub open spec fn bhaskara_spec(x: int) -> int
    recommends
        0 <= x <= HALF_TURN as int,
{
    let p: int = x * (HALF_TURN as int - x);
    (16 * p * (SCALE as int)) / (162_000_000_000_000_000 - 4 * p)
}

/// Fixed-point sine of a micro-degree angle in `[-FULL_TURN, FULL_TURN]`.
pub open spec fn sin_spec(x: int) -> int
    recommends
        -(FULL_TURN as int) <= x <= FULL_TURN as int,
{
    if x < 0 {
        -sin_pos_spec(-x)
    } else {
        sin_pos_spec(x)
    }
}

/// Fixed-point sine on `[0, FULL_TURN]` micro-degrees.
pub open spec fn sin_pos_spec(x: int) -> int
    recommends
        0 <= x <= FULL_TURN as int,
{
    if x <= HALF_TURN as int {
        bhaskara_spec(x)
    } else {
        -bhaskara_spec(x - HALF_TURN as int)
    }
}

/// Fixed-point cosine of a micro-degree angle in `[-FULL_TURN, FULL_TURN]`.
pub open spec fn cos_spec(x: int) -> int
    recommends
        -(FULL_TURN as int) <= x <= FULL_TURN as int,
{
    let a: int = if x < 0 {
        -x
    } else {
        x
    };
    if a <= 270_000_000 {
        sin_pos_spec(a + 90_000_000)
    } else {
        sin_pos_spec(a - 270_000_000)
    }
}

/// Rational sine approximation, exact per `bhaskara_spec`.
fn bhaskara(x: i64) -> (r: i64)
    requires
        0 <= x <= HALF_TURN as int,
    ensures
        r as int == bhaskara_spec(x as int),
        0 <= r <= SCALE,
{
    let a: u128 = x as u128;
    let b: u128 = (HALF_TURN - x) as u128;
    proof {
        assert(a * b <= 8_100_000_000_000_000) by (nonlinear_arith)
            requires
                0 <= a,
                0 <= b,
                a + b == 180_000_000,
        ;
    }
    let p: u128 = a * b;
    let num: u128 = 16 * p * 1_000_000;
    let den: u128 = 162_000_000_000_000_000 - 4 * p;
    let q: u128 = num / den;
    proof {
        let pi: int = (x as int) * (HALF_TURN as int - x as int);
        assert(p as int == pi);
        assert(num as int == 16 * pi * (SCALE as int)) by (nonlinear_arith)
            requires
                num as int == 16 * (p as int) * 1_000_000,
                p as int == pi,
        ;
        assert(den as int == 162_000_000_000_000_000 - 4 * pi);
        assert(num as int <= (SCALE as int) * (den as int)) by (nonlinear_arith)
            requires
                num as int == 16 * pi * (SCALE as int),
                den as int == 162_000_000_000_000_000 - 4 * pi,
                0 <= pi <= 8_100_000_000_000_000,
        ;
        assert(q as int <= SCALE as int) by {
            vstd::arithmetic::div_mod::lemma_div_is_ordered(
                num as int,
                (SCALE as int) * (den as int),
                den as int,
            );
            vstd::arithmetic::div_mod::lemma_div_by_multiple(SCALE as int, den as int);
        }
        vstd::arithmetic::div_mod::lemma_div_is_ordered(0, num as int, den as int);
    }
    q as i64
}

/// Fixed-point sine, exact per `sin_spec`.
pub fn sin_fp(x: i64) -> (r: i64)
    requires
        -(FULL_TURN as int) <= x as int <= FULL_TURN as int,
    ensures
        r as int == sin_spec(x as int),
        -SCALE <= r <= SCALE,
{
    let a: i64 = if x < 0 {
        -x
    } else {
        x
    };
    let m: i64 = if a <= HALF_TURN {
        bhaskara(a)
    } else {
        -bhaskara(a - HALF_TURN)
    };
    if x < 0 {
        -m
    } else {
        m
    }
}

/// Fixed-point cosine, exact per `cos_spec`.
pub fn cos_fp(x: i64) -> (r: i64)
    requires
        -(FULL_TURN as int) <= x as int <= FULL_TURN as int,
    ensures
        r as int == cos_spec(x as int),
        -SCALE <= r <= SCALE,
{
    let a: i64 = if x < 0 {
        -x
    } else {
        x
    };
    let s: i64 = if a <= 270_000_000 {
        a + 90_000_000
    } else {
        a - 270_000_000
    };
    let m: i64 = if s <= HALF_TURN {
        bhaskara(s)
    } else {
        -bhaskara(s - HALF_TURN)
    };
    m
}

/// Floor of the square root, as a relation: `r` is the root of `n`.
pub open spec fn is_sqrt(r: int, n: int) -> bool {
    0 <= r && r * r <= n && n < (r + 1) * (r + 1)
}

/// The floor of the square root of a non-negative integer.
pub open spec fn sqrt_floor(n: int) -> int
    recommends
        n >= 0,
{
    choose|r: int| is_sqrt(r, n)
}

/// Every non-negative integer has a floor root.
pub proof fn lemma_sqrt_exists(n: int)
    requires
        n >= 0,
    ensures
        is_sqrt(sqrt_floor(n), n),
    decreases n,
{
    if n == 0 {
        assert(is_sqrt(0, 0)) by (nonlinear_arith);
    } else {
        lemma_sqrt_exists(n - 1);
        let r: int = sqrt_floor(n - 1);
        if n < (r + 1) * (r + 1) {
            assert(is_sqrt(r, n));
        } else {
            assert((r + 1) * (r + 1) < (r + 2) * (r + 2)) by (nonlinear_arith)
                requires
                    r >= 0,
            ;
            assert(is_sqrt(r + 1, n));
        }
    }
}

/// The root relation pins its witness down.
pub proof fn lemma_sqrt_unique(a: int, b: int, n: int)
    requires
        is_sqrt(a, n),
        is_sqrt(b, n),
    ensures
        a == b,
{
    if a < b {
        assert(b * b <= n);
        assert((a + 1) * (a + 1) <= b * b) by (nonlinear_arith)
            requires
                0 <= a,
                a + 1 <= b,
        ;
    }
    if b < a {
        assert((b + 1) * (b + 1) <= a * a) by (nonlinear_arith)
            requires
                0 <= b,
                b + 1 <= a,
        ;
    }
}

/// Integer square root by bisection, exact per `sqrt_floor`.
pub fn isqrt128(n: u128) -> (r: u128)
    ensures
        is_sqrt(r as int, n as int),
        r as int == sqrt_floor(n as int),
        r <= 0xffff_ffff_ffff_ffff,
{
    let mut lo: u128 = 0;
    let mut hi: u128 = 0x1_0000_0000_0000_0000;
    proof {
        assert((hi as int) * (hi as int) > n as int) by (nonlinear_arith)
            requires
                hi as int == 0x1_0000_0000_0000_0000,
                n as int <= 0xffff_ffff_ffff_ffff_ffff_ffff_ffff_ffff,
        ;
    }
    while lo + 1 < hi
        invariant
            0 <= lo < hi,
            hi <= 0x1_0000_0000_0000_0000,
            (lo as int) * (lo as int) <= n as int,
            (hi as int) * (hi as int) > n as int,
        decreases hi - lo,
    {
        let mid: u128 = lo + (hi - lo) / 2;
        proof {
            assert((mid as int) * (mid as int)
                <= 0xffff_ffff_ffff_ffff_ffff_ffff_ffff_ffff) by (nonlinear_arith)
                requires
                    0 <= (mid as int) < 0x1_0000_0000_0000_0000,
            ;
        }
        if mid * mid <= n {
            lo = mid;
        } else {
            hi = mid;
        }
    }
    proof {
        assert(is_sqrt(lo as int, n as int));
        let w: int = choose|r: int| is_sqrt(r, n as int);
        assert(is_sqrt(w, n as int));
        lemma_sqrt_unique(lo as int, w, n as int);
    }
    lo
}

/// `c * m / d` truncated toward zero, with a wide intermediate product.
pub open spec fn muldiv_trunc_spec(c: int, m: int, d: int) -> int
    recommends
        d > 0,
{
    fp_trunc_div(c * m, d)
}

/// `c * m / d` truncated toward zero, exact per `muldiv_trunc_spec`.
pub fn muldiv_trunc(c: i64, m: i64, d: u128) -> (r: i64)
    requires
        d >= 1,
        d <= 0x1_0000_0000_0000_0000,
        0 <= m,
        (if c as int >= 0 {
            c as int
        } else {
            -(c as int)
        }) * (m as int) <= (d as int) * 0x7fff_ffff_ffff_ffff,
    ensures
        r as int == muldiv_trunc_spec(c as int, m as int, d as int),
{
    let cm: u128 = abs64(c) as u128;
    let mm: u128 = m as u128;
    proof {
        let ca: int = if c as int >= 0 {
            c as int
        } else {
            -(c as int)
        };
        assert(cm as int == ca);
        assert(cm as int * (mm as int) <= 0xffff_ffff_ffff_ffff_ffff_ffff_ffff_ffff)
            by (nonlinear_arith)
            requires
                0 <= cm as int,
                0 <= mm as int,
                cm as int * (mm as int) <= (d as int) * 0x7fff_ffff_ffff_ffff,
                1 <= d as int,
                d as int <= 0x1_0000_0000_0000_0000,
        ;
    }
    let p: u128 = cm * mm;
    let q: u128 = p / d;
    proof {
        let ca: int = if c as int >= 0 {
            c as int
        } else {
            -(c as int)
        };
        assert(q as int == (ca * (m as int)) / (d as int));
        assert(q as int <= 0x7fff_ffff_ffff_ffff) by {
            vstd::arithmetic::div_mod::lemma_div_is_ordered(
                ca * (m as int),
                (d as int) * 0x7fff_ffff_ffff_ffff,
                d as int,
            );
            vstd::arithmetic::div_mod::lemma_div_by_multiple(0x7fff_ffff_ffff_ffff, d as int);
        }
        vstd::arithmetic::div_mod::lemma_div_is_ordered(0, ca * (m as int), d as int);
        lemma_abs_mul(c as int, m as int);
        assert((c as int) * (m as int) >= 0 ==> ca * (m as int) == (c as int) * (m as int));
        assert((c as int) * (m as int) < 0 ==> ca * (m as int) == -((c as int) * (m as int)));
        assert(c as int >= 0 && m as int >= 0 ==> (c as int) * (m as int) >= 0)
            by (nonlinear_arith);
        assert((c as int) < 0 && m as int >= 0 ==> (c as int) * (m as int) <= 0)
            by (nonlinear_arith);
        vstd::arithmetic::div_mod::lemma_div_basics(d as int);
    }
    if c < 0 {
        -(q as i64)
    } else {
        q as i64
    }
}

/// A lerp step never leaves the interval between start and target.
pub proof fn lemma_lerp_bounds(t: int, d: int)
    requires
        0 <= t <= SCALE as int,
    ensures
        d >= 0 ==> 0 <= fpmul_spec(t, d) <= d,
        d < 0 ==> d <= fpmul_spec(t, d) <= 0,
{
    let s: int = SCALE as int;
    if d >= 0 {
        assert(0 <= t * d <= s * d) by (nonlinear_arith)
            requires
                0 <= t <= s,
                0 <= d,
        ;
        assert(fpmul_spec(t, d) == (t * d) / s);
        vstd::arithmetic::div_mod::lemma_div_is_ordered(0, t * d, s);
        vstd::arithmetic::div_mod::lemma_div_is_ordered(t * d, s * d, s);
        assert((s * d) / s == d) by {
            vstd::arithmetic::div_mod::lemma_div_by_multiple(d, s);
            assert(s * d == d * s) by (nonlinear_arith);
        }
    } else {
        let e: int = -d;
        assert(0 <= t * e <= s * e) by (nonlinear_arith)
            requires
                0 <= t <= s,
                0 <= e,
        ;
        assert(t * d == -(t * e)) by (nonlinear_arith)
            requires
                e == -d,
        ;
        assert(fpmul_spec(t, d) == -((t * e) / s));
        vstd::arithmetic::div_mod::lemma_div_is_ordered(0, t * e, s);
        vstd::arithmetic::div_mod::lemma_div_is_ordered(t * e, s * e, s);
        assert((s * e) / s == e) by {
            vstd::arithmetic::div_mod::lemma_div_by_multiple(e, s);
            assert(s * e == e * s) by (nonlinear_arith);
        }
    }
}

/// One lerp step shrinks the remaining error at least by the factor
/// `(SCALE - t) / SCALE`, up to one unit of rounding.
pub proof fn lemma_lerp_decay(t: int, d: int)
    requires
        0 <= t <= SCALE as int,
    ensures
        d >= 0 ==> (SCALE as int) * (d - fpmul_spec(t, d)) <= d * (SCALE as int - t) + SCALE
            as int,
        d < 0 ==> (SCALE as int) * (fpmul_spec(t, d) - d) <= (-d) * (SCALE as int - t) + SCALE
            as int,
{
    let s: int = SCALE as int;
    if d >= 0 {
        let q: int = (t * d) / s;
        vstd::arithmetic::div_mod::lemma_fundamental_div_mod(t * d, s);
        vstd::arithmetic::div_mod::lemma_mod_bound(t * d, s);
        let rr: int = (t * d) % s;
        assert(t * d == s * q + rr);
        assert(0 <= t * d) by (nonlinear_arith)
            requires
                0 <= t,
                0 <= d,
        ;
        assert(fpmul_spec(t, d) == q);
        assert(s * (d - q) == s * d - s * q) by (nonlinear_arith);
        assert(s * d - t * d == d * (s - t)) by (nonlinear_arith);
        assert(s * (d - q) == d * (s - t) + rr);
    } else {
        let e: int = -d;
        let q: int = (t * e) / s;
        vstd::arithmetic::div_mod::lemma_fundamental_div_mod(t * e, s);
        vstd::arithmetic::div_mod::lemma_mod_bound(t * e, s);
        let rr: int = (t * e) % s;
        assert(0 <= t * e) by (nonlinear_arith)
            requires
                0 <= t,
                0 <= e,
        ;
        assert(t * d == -(t * e)) by (nonlinear_arith)
            requires
                e == -d,
        ;
        assert(fpmul_spec(t, d) == -q);
        assert(s * (-q - d) == s * e - s * q) by (nonlinear_arith)
            requires
                e == -d,
        ;
        assert(s * e - t * e == e * (s - t)) by (nonlinear_arith);
        assert(s * (-q - d) == e * (s - t) + rr);
    }
}

} // verus!
