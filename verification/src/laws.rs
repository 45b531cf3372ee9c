//! The library's laws: properties that relate several operations, stated over
//! the same spec functions the operations' own contracts use.

use vstd::prelude::*;
use crate::fixed::SCALE;
use crate::fixed::DT_MAX;
use crate::fixed::exp_neg_spec;
use crate::fixed::fpdiv_spec;
use crate::fixed::fpmul_spec;
use crate::fixed::lemma_lerp_bounds;
use crate::fixed::lemma_lerp_decay;
use crate::vec3::lemma_zero_blend;
use crate::transform::Transform;
use crate::transform::transform_wf;
use crate::driver::Driver;
use crate::driver::Smooth;
use crate::driver::smooth_wf;
use crate::driver::smooth_factor_spec;
use crate::driver::driver_update_spec;

verus! {

/// The power-series denominator of the fixed-point decay is at least `SCALE`,
/// so the decay value always lies in `[0, SCALE]`, and is exactly `SCALE` at
/// zero.
pub proof fn lemma_exp_neg_range(x: int)
    requires
        x >= 0,
    ensures
        0 <= exp_neg_spec(x) <= SCALE as int,
        x == 0 ==> exp_neg_spec(x) == SCALE as int,
{
    let s: int = SCALE as int;
    if x >= crate::fixed::EXP_ARG_MAX as int {
    } else {
        assert(x * x >= 0 && x * x * x >= 0 && x * x * x * x >= 0 && x * x * x * x * x >= 0)
            by (nonlinear_arith)
            requires
                x >= 0,
        ;
        vstd::arithmetic::div_mod::lemma_div_is_ordered(0, x * x, 2 * s);
        vstd::arithmetic::div_mod::lemma_div_is_ordered(0, x * x * x, 6 * s * s);
        vstd::arithmetic::div_mod::lemma_div_is_ordered(0, x * x * x * x, 24 * s * s * s);
        vstd::arithmetic::div_mod::lemma_div_is_ordered(0, x * x * x * x * x, 120 * s * s * s
            * s);
        let den: int = s + x + (x * x) / (2 * s) + (x * x * x) / (6 * s * s) + (x * x * x * x)
            / (24 * s * s * s) + (x * x * x * x * x) / (120 * s * s * s * s);
        assert(den >= s);
        assert((s * s) / den <= (s * s) / s) by {
            vstd::arithmetic::div_mod::lemma_div_is_ordered_by_denominator(s * s, s, den);
        }
        assert((s * s) / s == s) by {
            vstd::arithmetic::div_mod::lemma_div_by_multiple(s, s);
        }
        vstd::arithmetic::div_mod::lemma_div_is_ordered(0, s * s, den);
        if x == 0 {
            vstd::arithmetic::div_mod::lemma_div_basics(2 * s);
            vstd::arithmetic::div_mod::lemma_div_basics(6 * s * s);
            vstd::arithmetic::div_mod::lemma_div_basics(24 * s * s * s);
            vstd::arithmetic::div_mod::lemma_div_basics(120 * s * s * s * s);
            assert(x * x == 0 && x * x * x == 0 && x * x * x * x == 0 && x * x * x * x * x
                == 0) by (nonlinear_arith)
                requires
                    x == 0,
            ;
            assert(den == s);
            vstd::arithmetic::div_mod::lemma_div_by_multiple(s, s);
        }
    }
}

/// The per-frame blend fraction is a fraction: it lies in `[0, SCALE]`, and it
/// vanishes at zero elapsed time whenever smoothing is enabled.
pub proof fn lemma_smooth_factor_range(dt: int, smoothness: int)
    requires
        0 <= dt <= DT_MAX as int,
        0 <= smoothness,
    ensures
        0 <= smooth_factor_spec(dt, smoothness) <= SCALE as int,
        dt == 0 && smoothness >= 1 ==> smooth_factor_spec(dt, smoothness) == 0,
{
    if smoothness == 0 {
    } else {
        let x: int = fpdiv_spec(dt, smoothness);
        assert(0 <= dt * (SCALE as int));
        vstd::arithmetic::div_mod::lemma_div_is_ordered(0, dt * (SCALE as int), smoothness);
        assert(x >= 0);
        lemma_exp_neg_range(x);
        if dt == 0 {
            assert(dt * (SCALE as int) == 0);
            vstd::arithmetic::div_mod::lemma_div_basics(smoothness);
            assert(x == 0);
        }
    }
}

/// Repeated smoothing of a constant target converges monotonically and never
/// overshoots: after one step each coordinate of the eased position lies
/// between its old value and the target, and the remaining error shrinks at
/// least by the factor `(SCALE - f) / SCALE` up to one unit of rounding,
/// where `f` is the frame's blend fraction.
pub proof fn lemma_smooth_step_converges(s: Smooth, parent: Transform, dt: int)
    requires
        smooth_wf(s),
        transform_wf(parent),
        0 <= dt <= DT_MAX as int,
        s.predictive ==> s.prev_target == parent.position,
    ensures
        ({
            let f: int = smooth_factor_spec(dt, s.position_smoothness as int);
            let next = driver_update_spec(Driver::Smooth(s), parent, dt).1.position;
            let cur = s.current.position;
            let tgt = parent.position;
            &&& coord_between(cur.x as int, next.x as int, tgt.x as int)
            &&& coord_between(cur.y as int, next.y as int, tgt.y as int)
            &&& coord_between(cur.z as int, next.z as int, tgt.z as int)
            &&& coord_decay(cur.x as int, next.x as int, tgt.x as int, f)
            &&& coord_decay(cur.y as int, next.y as int, tgt.y as int, f)
            &&& coord_decay(cur.z as int, next.z as int, tgt.z as int, f)
        }),
{
    let f: int = smooth_factor_spec(dt, s.position_smoothness as int);
    lemma_smooth_factor_range(dt, s.position_smoothness as int);
    if s.predictive {
        lemma_constant_target_is_not_advanced(s, parent.position, dt);
    }
    lemma_coord_step(s.current.position.x as int, parent.position.x as int, f);
    lemma_coord_step(s.current.position.y as int, parent.position.y as int, f);
    lemma_coord_step(s.current.position.z as int, parent.position.z as int, f);
}

/// A target that has not moved gets a zero velocity estimate, so prediction
/// leaves it where it is.
proof fn lemma_constant_target_is_not_advanced(s: Smooth, target: crate::vec3::Vec3, dt: int)
    requires
        s.prev_dt >= 0,
        crate::vec3::vec3_wf(target),
        s.prev_target == target,
        0 <= dt <= DT_MAX as int,
    ensures
        crate::driver::advanced_target_spec(s, target, dt) == target,
{
    lemma_zero_velocity_comp(s.prev_dt as int);
    lemma_zero_blend_flip(dt);
}

/// The smoothing driver's state after `n` updates against a constant parent.
pub open spec fn smooth_iterate(s: Smooth, parent: Transform, dt: int, n: nat) -> Smooth
    decreases n,
{
    if n == 0 {
        s
    } else {
        let prev: Smooth = smooth_iterate(s, parent, dt, (n - 1) as nat);
        match driver_update_spec(Driver::Smooth(prev), parent, dt).0 {
            Driver::Smooth(s2) => s2,
            _ => prev,
        }
    }
}

/// Repeated smoothing of a constant target converges monotonically: however
/// many updates run, each coordinate of the eased position stays between its
/// starting value and the target — the error never grows and the position
/// never overshoots.
pub proof fn lemma_smooth_repeated_converges(s: Smooth, parent: Transform, dt: int, n: nat)
    requires
        smooth_wf(s),
        transform_wf(parent),
        0 <= dt <= DT_MAX as int,
        s.predictive ==> s.prev_target == parent.position,
    ensures
        ({
            let it: Smooth = smooth_iterate(s, parent, dt, n);
            let c0 = s.current.position;
            let cn = it.current.position;
            let tgt = parent.position;
            &&& coord_between(c0.x as int, cn.x as int, tgt.x as int)
            &&& coord_between(c0.y as int, cn.y as int, tgt.y as int)
            &&& coord_between(c0.z as int, cn.z as int, tgt.z as int)
            &&& it.position_smoothness == s.position_smoothness
            &&& it.predictive == s.predictive
            &&& it.prev_dt >= 0
            &&& it.predictive ==> it.prev_target == parent.position
        }),
    decreases n,
{
    if n != 0 {
        lemma_smooth_repeated_converges(s, parent, dt, (n - 1) as nat);
        let prev: Smooth = smooth_iterate(s, parent, dt, (n - 1) as nat);
        let f: int = smooth_factor_spec(dt, prev.position_smoothness as int);
        lemma_smooth_factor_range(dt, prev.position_smoothness as int);
        if prev.predictive {
            lemma_constant_target_is_not_advanced(prev, parent.position, dt);
        }
        lemma_coord_step(prev.current.position.x as int, parent.position.x as int, f);
        lemma_coord_step(prev.current.position.y as int, parent.position.y as int, f);
        lemma_coord_step(prev.current.position.z as int, parent.position.z as int, f);
        let it: Smooth = smooth_iterate(s, parent, dt, n);
        lemma_between_trans(
            s.current.position.x as int,
            prev.current.position.x as int,
            it.current.position.x as int,
            parent.position.x as int,
        );
        lemma_between_trans(
            s.current.position.y as int,
            prev.current.position.y as int,
            it.current.position.y as int,
            parent.position.y as int,
        );
        lemma_between_trans(
            s.current.position.z as int,
            prev.current.position.z as int,
            it.current.position.z as int,
            parent.position.z as int,
        );
    }
}

/// Lying between is transitive along a chain toward one target.
proof fn lemma_between_trans(a: int, b: int, c: int, tgt: int)
    requires
        coord_between(a, b, tgt),
        coord_between(b, c, tgt),
    ensures
        coord_between(a, c, tgt),
{
}

/// A zero movement gives a zero velocity estimate.
proof fn lemma_zero_velocity_comp(prev_dt: int)
    requires
        0 <= prev_dt,
    ensures
        crate::driver::velocity_comp_spec(0, prev_dt) == 0,
{
    if prev_dt >= 1_000 {
        assert(0 * (SCALE as int) == 0) by (nonlinear_arith);
        vstd::arithmetic::div_mod::lemma_div_basics(prev_dt);
    }
}

/// Scaling zero by the elapsed time is still zero.
proof fn lemma_zero_blend_flip(dt: int)
    ensures
        fpmul_spec(dt, 0) == 0,
{
    assert(dt * 0 == 0) by (nonlinear_arith);
    vstd::arithmetic::div_mod::lemma_div_basics(SCALE as int);
}

/// `next` lies between `cur` and `tgt`: blending does not overshoot, and the
/// error does not grow.
pub open spec fn coord_between(cur: int, next: int, tgt: int) -> bool {
    if cur <= tgt {
        cur <= next <= tgt
    } else {
        tgt <= next <= cur
    }
}

/// The remaining error after a step, scaled by `SCALE`, is at most the old
/// error scaled by `SCALE - f`, plus one rounding unit: the exponential decay
/// law of the smoothing driver.
pub open spec fn coord_decay(cur: int, next: int, tgt: int, f: int) -> bool {
    let e0: int = if tgt >= cur {
        tgt - cur
    } else {
        cur - tgt
    };
    let e1: int = if tgt >= next {
        tgt - next
    } else {
        next - tgt
    };
    (SCALE as int) * e1 <= e0 * (SCALE as int - f) + SCALE as int
}

/// One blended coordinate stays between start and target and obeys the decay
/// law.
proof fn lemma_coord_step(cur: int, tgt: int, f: int)
    requires
        0 <= f <= SCALE as int,
    ensures
        coord_between(cur, cur + fpmul_spec(f, tgt - cur), tgt),
        coord_decay(cur, cur + fpmul_spec(f, tgt - cur), tgt, f),
{
    lemma_lerp_bounds(f, tgt - cur);
    lemma_lerp_decay(f, tgt - cur);
}

/// Zero elapsed time leaves the eased state unchanged: with smoothing
/// enabled on both channels, an update with `dt == 0` keeps `current` exactly
/// and hands it on as the output.
pub proof fn lemma_smooth_zero_dt(s: Smooth, parent: Transform)
    requires
        smooth_wf(s),
        transform_wf(parent),
        s.position_smoothness >= 1,
        s.rotation_smoothness >= 1,
    ensures
        ({
            let stepped = driver_update_spec(Driver::Smooth(s), parent, 0);
            &&& stepped.1 == s.current
            &&& stepped.0 == Driver::Smooth(
                Smooth { prev_target: parent.position, prev_dt: 0, ..s },
            )
        }),
{
    lemma_smooth_factor_range(0, s.position_smoothness as int);
    lemma_smooth_factor_range(0, s.rotation_smoothness as int);
    let tgt = crate::driver::advanced_target_spec(s, parent.position, 0);
    lemma_zero_blend(tgt.x as int - s.current.position.x as int);
    lemma_zero_blend(tgt.y as int - s.current.position.y as int);
    lemma_zero_blend(tgt.z as int - s.current.position.z as int);
}

/// The rational sine is symmetric about the quarter turn.
proof fn lemma_bha_mirror(a: int)
    requires
        0 <= a <= crate::fixed::HALF_TURN as int,
    ensures
        crate::fixed::bhaskara_spec(a) == crate::fixed::bhaskara_spec(
            crate::fixed::HALF_TURN as int - a,
        ),
{
    let k: int = crate::fixed::HALF_TURN as int;
    assert(a * (k - a) == (k - a) * (k - (k - a))) by (nonlinear_arith);
}

/// The rational sine vanishes at zero and at the half turn.
proof fn lemma_bha_zero()
    ensures
        crate::fixed::bhaskara_spec(0) == 0,
        crate::fixed::bhaskara_spec(crate::fixed::HALF_TURN as int) == 0,
{
    let k: int = crate::fixed::HALF_TURN as int;
    assert(0 * (k - 0) == 0) by (nonlinear_arith);
    assert(k * (k - k) == 0) by (nonlinear_arith);
    assert(16 * 0 * (SCALE as int) == 0) by (nonlinear_arith);
    vstd::arithmetic::div_mod::lemma_div_basics(162_000_000_000_000_000 - 4 * 0);
}

/// Shifting a negative angle by a full turn changes neither its sine nor its
/// cosine.
proof fn lemma_trig_full_turn(h: int)
    requires
        -(crate::fixed::FULL_TURN as int) <= h < 0,
    ensures
        crate::fixed::sin_spec(h + crate::fixed::FULL_TURN as int) == crate::fixed::sin_spec(h),
        crate::fixed::cos_spec(h + crate::fixed::FULL_TURN as int) == crate::fixed::cos_spec(h),
{
    let full: int = crate::fixed::FULL_TURN as int;
    let half: int = crate::fixed::HALF_TURN as int;
    let u: int = -h;
    assert(crate::fixed::sin_spec(h) == -crate::fixed::sin_pos_spec(u));
    assert(crate::fixed::sin_spec(h + full) == crate::fixed::sin_pos_spec(full - u));
    if u <= half {
        if full - u == half {
            lemma_bha_zero();
        } else {
            lemma_bha_mirror(u);
        }
    } else {
        lemma_bha_mirror(full - u);
    }
    let q3: int = 270_000_000;
    let q1: int = 90_000_000;
    if u < q1 {
        lemma_bha_mirror(q1 - u);
    } else if u == q1 {
        lemma_bha_zero();
    } else if u < q3 {
        lemma_bha_mirror(q3 - u);
    } else if u == q3 {
        lemma_bha_zero();
    } else {
        lemma_bha_mirror(full + q1 - u);
    }
}

/// A value already inside one period is its own truncating remainder.
proof fn lemma_rem_small(v: int, d: int)
    requires
        0 < d,
        -d < v < d,
    ensures
        crate::fixed::rem_trunc_spec(v, d) == v,
{
    if v >= 0 {
        vstd::arithmetic::div_mod::lemma_fundamental_div_mod_converse(v, d, 0, v);
        assert(d * 0 == 0) by (nonlinear_arith);
    } else {
        vstd::arithmetic::div_mod::lemma_fundamental_div_mod_converse(-v, d, 0, -v);
        assert(d * 0 == 0) by (nonlinear_arith);
        assert(d * -(0int) == 0) by (nonlinear_arith);
    }
}

/// A value one period high wraps down by one period.
proof fn lemma_rem_shift(v: int, d: int)
    requires
        0 < d,
        d <= v < 2 * d,
    ensures
        crate::fixed::rem_trunc_spec(v, d) == v - d,
{
    vstd::arithmetic::div_mod::lemma_fundamental_div_mod_converse(v, d, 1, v - d);
    assert(d * 1 == d) by (nonlinear_arith);
}

/// Two half-turn-offset wraps land back on the start, or one period above a
/// negative start.
proof fn lemma_double_wrap(y: int)
    requires
        -(720_000_000) < y < 720_000_000,
    ensures
        ({
            let w1: int = crate::fixed::rem_trunc_spec(y + 360_000_000, 720_000_000);
            let w2: int = crate::fixed::rem_trunc_spec(w1 + 360_000_000, 720_000_000);
            w2 == (if y < 0 {
                y + 720_000_000
            } else {
                y
            })
        }),
{
    let d: int = 720_000_000;
    if y + 360_000_000 >= d {
        lemma_rem_shift(y + 360_000_000, d);
        lemma_rem_small(y, d);
    } else {
        lemma_rem_small(y + 360_000_000, d);
        if y >= 0 {
            lemma_rem_shift(y + d, d);
        } else {
            lemma_rem_small(y + d, d);
        }
    }
}

/// An even value halves exactly, under truncation too.
proof fn lemma_even_half(y: int)
    requires
        y % 2 == 0,
    ensures
        2 * crate::fixed::fp_trunc_div(y, 2) == y,
{
    if y >= 0 {
        vstd::arithmetic::div_mod::lemma_fundamental_div_mod(y, 2);
    } else {
        vstd::arithmetic::div_mod::lemma_fundamental_div_mod(y, 2);
        let k: int = y / 2;
        assert(y == 2 * k);
        vstd::arithmetic::div_mod::lemma_fundamental_div_mod_converse(-y, 2, -k, 0);
        assert(-y == 2 * (-k)) by (nonlinear_arith)
            requires
                y == 2 * k,
        ;
    }
}

/// A full-turn yaw shift leaves the yaw/pitch orientation exactly unchanged,
/// for even micro-degree yaws.
proof fn lemma_fyp_full_turn(y: int, p: int)
    requires
        -(720_000_000) < y < 0,
        y % 2 == 0,
    ensures
        crate::quat::from_yaw_pitch_spec(y + 720_000_000, p) == crate::quat::from_yaw_pitch_spec(
            y,
            p,
        ),
{
    lemma_even_half(y);
    let hy: int = crate::fixed::fp_trunc_div(y, 2);
    assert(y == 2 * hy);
    vstd::arithmetic::div_mod::lemma_fundamental_div_mod_converse(
        y + 720_000_000,
        2,
        hy + 360_000_000,
        0,
    );
    assert(y + 720_000_000 == 2 * (hy + 360_000_000)) by (nonlinear_arith)
        requires
            y == 2 * hy,
    ;
    assert(crate::fixed::fp_trunc_div(y + 720_000_000, 2) == hy + 360_000_000);
    lemma_trig_full_turn(hy);
}

/// Shifting an angle by a half turn negates both its sine and its cosine.
proof fn lemma_trig_half_turn(h: int)
    requires
        -(crate::fixed::FULL_TURN as int) < h < crate::fixed::HALF_TURN as int,
    ensures
        crate::fixed::sin_spec(h + crate::fixed::HALF_TURN as int) == -crate::fixed::sin_spec(
            h,
        ),
        crate::fixed::cos_spec(h + crate::fixed::HALF_TURN as int) == -crate::fixed::cos_spec(
            h,
        ),
{
    let half: int = crate::fixed::HALF_TURN as int;
    let q1: int = 90_000_000;
    let q3: int = 270_000_000;
    if h >= 0 {
        if h == 0 {
            lemma_bha_zero();
        }
        if h > q1 {
            lemma_bha_mirror(h - q1);
        } else if h < q1 {
            lemma_bha_mirror(q1 - h);
        }
    } else if h >= -half {
        let u: int = -h;
        lemma_bha_mirror(half - u);
        if u < q1 {
            lemma_bha_mirror(q1 - u);
        } else if u == q1 {
            lemma_bha_zero();
        } else {
            lemma_bha_mirror(q3 - u);
        }
    } else {
        let u: int = -h;
        if u <= q3 {
            lemma_bha_mirror(u - q1);
        } else {
            lemma_bha_mirror(u - q3);
        }
    }
}

/// One full-turn yaw rotation negates the yaw/pitch quaternion's raw form, so
/// the resulting orientation rotates every vector exactly as before.
proof fn lemma_fyp_half_period(y: int, p: int, v: crate::vec3::Vec3)
    requires
        -(720_000_000) < y < 720_000_000,
        y % 2 == 0,
        -(crate::fixed::FULL_TURN as int) <= p <= crate::fixed::FULL_TURN as int,
    ensures
        ({
            let w1: int = crate::fixed::rem_trunc_spec(y + 360_000_000, 720_000_000);
            crate::quat::rotate_spec(crate::quat::from_yaw_pitch_spec(w1, p), v)
                == crate::quat::rotate_spec(crate::quat::from_yaw_pitch_spec(y, p), v)
        }),
{
    let w1: int = if y + 360_000_000 >= 720_000_000 {
        y - 360_000_000
    } else {
        y + 360_000_000
    };
    if y + 360_000_000 >= 720_000_000 {
        lemma_rem_shift(y + 360_000_000, 720_000_000);
    } else {
        lemma_rem_small(y + 360_000_000, 720_000_000);
    }
    lemma_even_half(y);
    let hy: int = crate::fixed::fp_trunc_div(y, 2);
    let h1: int = if y + 360_000_000 >= 720_000_000 {
        hy - 180_000_000
    } else {
        hy + 180_000_000
    };
    vstd::arithmetic::div_mod::lemma_fundamental_div_mod_converse(w1, 2, h1, 0);
    assert(w1 == 2 * h1) by (nonlinear_arith)
        requires
            y == 2 * hy,
            h1 == hy - 180_000_000 || h1 == hy + 180_000_000,
            w1 == 2 * h1 || (w1 == y - 360_000_000 && h1 == hy - 180_000_000) || (w1 == y
                + 360_000_000 && h1 == hy + 180_000_000),
    ;
    assert(crate::fixed::fp_trunc_div(w1, 2) == h1);
    if y + 360_000_000 >= 720_000_000 {
        lemma_trig_half_turn(h1);
        assert(crate::fixed::sin_spec(hy) == -crate::fixed::sin_spec(h1));
        assert(crate::fixed::cos_spec(hy) == -crate::fixed::cos_spec(h1));
    } else {
        lemma_trig_half_turn(hy);
    }
    let hp: int = crate::fixed::fp_trunc_div(p, 2);
    assert(-(crate::fixed::FULL_TURN as int) <= hp <= crate::fixed::FULL_TURN as int) by {
        if p >= 0 {
            vstd::arithmetic::div_mod::lemma_div_is_ordered(0, p, 2);
            vstd::arithmetic::div_mod::lemma_div_is_ordered_by_denominator(p, 1, 2);
            assert(p / 1 == p);
        } else {
            vstd::arithmetic::div_mod::lemma_div_is_ordered(0, -p, 2);
            vstd::arithmetic::div_mod::lemma_div_is_ordered_by_denominator(-p, 1, 2);
            assert((-p) / 1 == -p);
        }
    }
    let sy: int = crate::fixed::sin_spec(hy);
    let cy: int = crate::fixed::cos_spec(hy);
    let sp: int = crate::fixed::sin_spec(hp);
    let cp: int = crate::fixed::cos_spec(hp);
    crate::fixed::lemma_fpmul_neg(cy, cp);
    crate::fixed::lemma_fpmul_neg(cy, sp);
    crate::fixed::lemma_fpmul_neg(sy, cp);
    crate::fixed::lemma_fpmul_neg(sy, sp);
    let raw = crate::quat::Quat {
        w: fpmul_spec(cy, cp) as i64,
        x: fpmul_spec(cy, sp) as i64,
        y: fpmul_spec(sy, cp) as i64,
        z: -fpmul_spec(sy, sp) as i64,
    };
    lemma_trig_range(hy);
    lemma_trig_range(h1);
    lemma_trig_range(hp);
    crate::fixed::lemma_fpmul_abs(cy, cp, SCALE as int, SCALE as int);
    crate::fixed::lemma_fpmul_abs(cy, sp, SCALE as int, SCALE as int);
    crate::fixed::lemma_fpmul_abs(sy, cp, SCALE as int, SCALE as int);
    crate::fixed::lemma_fpmul_abs(sy, sp, SCALE as int, SCALE as int);
    assert(crate::quat::from_yaw_pitch_spec(w1, p) == crate::quat::normalize_spec(
        crate::quat::qneg_spec(raw),
    ));
    crate::quat::lemma_normalize_action_neg(raw, v);
}

/// The rational sine stays within one unit.
proof fn lemma_bha_range(a: int)
    requires
        0 <= a <= crate::fixed::HALF_TURN as int,
    ensures
        0 <= crate::fixed::bhaskara_spec(a) <= SCALE as int,
{
    let s: int = SCALE as int;
    let k: int = crate::fixed::HALF_TURN as int;
    let p: int = a * (k - a);
    assert(0 <= p <= 8_100_000_000_000_000) by (nonlinear_arith)
        requires
            0 <= a <= k,
            k == 180_000_000,
            p == a * (k - a),
    ;
    let den: int = 162_000_000_000_000_000 - 4 * p;
    assert(16 * p * s <= s * den) by (nonlinear_arith)
        requires
            0 <= p <= 8_100_000_000_000_000,
            den == 162_000_000_000_000_000 - 4 * p,
            s == 1_000_000,
    ;
    vstd::arithmetic::div_mod::lemma_div_is_ordered(16 * p * s, s * den, den);
    vstd::arithmetic::div_mod::lemma_div_by_multiple(s, den);
    assert(16 * p * s >= 0) by (nonlinear_arith)
        requires
            0 <= p,
            s == 1_000_000,
    ;
    vstd::arithmetic::div_mod::lemma_div_is_ordered(0, 16 * p * s, den);
}

/// Sine and cosine stay within one unit.
proof fn lemma_trig_range(h: int)
    requires
        -(crate::fixed::FULL_TURN as int) <= h <= crate::fixed::FULL_TURN as int,
    ensures
        -(SCALE as int) <= crate::fixed::sin_spec(h) <= SCALE as int,
        -(SCALE as int) <= crate::fixed::cos_spec(h) <= SCALE as int,
{
    let half: int = crate::fixed::HALF_TURN as int;
    let u: int = if h < 0 {
        -h
    } else {
        h
    };
    if u <= half {
        lemma_bha_range(u);
    } else {
        lemma_bha_range(u - half);
    }
    let a: int = if u <= 270_000_000 {
        u + 90_000_000
    } else {
        u - 270_000_000
    };
    if a <= half {
        lemma_bha_range(a);
    } else {
        lemma_bha_range(a - half);
    }
}

/// Full-turn wraparound: rotating the yaw by a whole turn twice in a row
/// returns both the accumulated state's orientation and the pitch exactly to
/// their original values. The law is stated for even micro-degree yaws;
/// halving an odd negative micro-degree yaw truncates differently on the two
/// sides of the wrap.
pub proof fn lemma_yaw_full_turn(y: crate::driver::YawPitch)
    requires
        crate::driver::yawpitch_wf(y),
        y.yaw_degrees as int % 2 == 0,
    ensures
        ({
            let w1: int = crate::fixed::rem_trunc_spec(
                y.yaw_degrees as int + 360_000_000,
                crate::driver::YAW_RANGE as int,
            );
            let w2: int = crate::fixed::rem_trunc_spec(
                w1 + 360_000_000,
                crate::driver::YAW_RANGE as int,
            );
            &&& crate::driver::clamp_pitch_spec(y.pitch_degrees as int + 0)
                == y.pitch_degrees as int
            &&& crate::quat::from_yaw_pitch_spec(w2, y.pitch_degrees as int)
                == crate::quat::from_yaw_pitch_spec(
                y.yaw_degrees as int,
                y.pitch_degrees as int,
            )
        }),
{
    lemma_double_wrap(y.yaw_degrees as int);
    if y.yaw_degrees < 0 {
        lemma_fyp_full_turn(y.yaw_degrees as int, y.pitch_degrees as int);
    }
}

/// Full-turn wraparound, single step: already after one whole-turn yaw
/// rotation the driver's orientation acts on every vector exactly as before.
/// (As a quaternion it is the negation of the original — the other sheet of
/// the double cover — which is the same rotation.) Stated for even
/// micro-degree yaws, as `lemma_yaw_full_turn` is.
pub proof fn lemma_yaw_single_turn(y: crate::driver::YawPitch, v: crate::vec3::Vec3)
    requires
        crate::driver::yawpitch_wf(y),
        y.yaw_degrees as int % 2 == 0,
    ensures
        ({
            let w1: int = crate::fixed::rem_trunc_spec(
                y.yaw_degrees as int + 360_000_000,
                crate::driver::YAW_RANGE as int,
            );
            crate::quat::rotate_spec(
                crate::quat::from_yaw_pitch_spec(w1, y.pitch_degrees as int),
                v,
            ) == crate::quat::rotate_spec(
                crate::quat::from_yaw_pitch_spec(
                    y.yaw_degrees as int,
                    y.pitch_degrees as int,
                ),
                v,
            )
        }),
{
    lemma_fyp_half_period(y.yaw_degrees as int, y.pitch_degrees as int, v);
}

} // verus!
