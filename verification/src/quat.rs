//! Fixed-point quaternions for orientations.
//!
//! A well-formed quaternion is near-unit: its squared norm stays within
//! `UNIT_EPS` of `SCALE * SCALE`. Construction paths renormalize, and fall back
//! to the identity when renormalization cannot reach the near-unit band, so
//! every orientation a driver emits is near-unit by construction.

use vstd::prelude::*;
use crate::fixed::SCALE;
use crate::fixed::fpmul;
use crate::fixed::fpmul_spec;
use crate::fixed::lemma_fpmul_abs;
use crate::fixed::muldiv_trunc;
use crate::fixed::muldiv_trunc_spec;
use crate::fixed::isqrt128;
use crate::fixed::is_sqrt;
use crate::fixed::sqrt_floor;
use crate::vec3::Vec3;
use crate::vec3::POS_LIMIT;

verus! {

/// Allowed drift of the squared norm around `SCALE * SCALE`.
pub const UNIT_EPS: i64 = 10_000_000_000;

/// Largest magnitude of a well-formed quaternion component.
pub const QCOMP_LIMIT: i64 = 2_000_000;

/// Largest magnitude of a raw (pre-normalization) quaternion component.
pub const QRAW_LIMIT: i64 = 16_000_000;

/// A quaternion `w + x*i + y*j + z*k` of fixed-point components.
#[derive(Clone, Copy, PartialEq, Eq, Structural, Debug)]
pub struct Quat {
    pub w: i64,
    pub x: i64,
    pub y: i64,
    pub z: i64,
}

/// Squared norm.
pub open spec fn norm2_spec(q: Quat) -> int {
    (q.w as int) * (q.w as int) + (q.x as int) * (q.x as int) + (q.y as int) * (q.y as int) + (
    q.z as int) * (q.z as int)
}

/// Component magnitudes within `lim`.
pub open spec fn quat_comps_le(q: Quat, lim: int) -> bool {
    -lim <= q.w as int <= lim && -lim <= q.x as int <= lim && -lim <= q.y as int <= lim && -lim
        <= q.z as int <= lim
}

/// Near-unit: the invariant every stored orientation satisfies.
pub open spec fn quat_wf(q: Quat) -> bool {
    quat_comps_le(q, QCOMP_LIMIT as int) && -(UNIT_EPS as int) <= norm2_spec(q) - (SCALE as int)
        * (SCALE as int) <= UNIT_EPS as int
}

impl Quat {
    /// The identity orientation.
    pub open spec fn identity_spec() -> Quat {
        Quat { w: SCALE, x: 0, y: 0, z: 0 }
    }

    /// The identity orientation.
    pub fn identity() -> (r: Quat)
        ensures
            r == Quat::identity_spec(),
            quat_wf(r),
    {
        let r = Quat { w: SCALE, x: 0, y: 0, z: 0 };
        proof {
            lemma_square_bound(r.w as int, SCALE as int);
            lemma_square_bound(0, SCALE as int);
        }
        r
    }
}

/// A square of a bounded value is bounded, and squares are non-negative.
proof fn lemma_square_bound(c: int, lim: int)
    requires
        -lim <= c <= lim,
        0 <= lim,
    ensures
        0 <= c * c <= lim * lim,
{
    assert(0 <= c * c <= lim * lim) by (nonlinear_arith)
        requires
            -lim <= c <= lim,
            0 <= lim,
    ;
}

/// Squared norm of a quaternion with raw-range components.
pub fn norm2(q: &Quat) -> (r: i64)
    requires
        quat_comps_le(*q, 100_000_000),
    ensures
        r as int == norm2_spec(*q),
        r >= 0,
{
    proof {
        lemma_square_bound(q.w as int, 100_000_000);
        lemma_square_bound(q.x as int, 100_000_000);
        lemma_square_bound(q.y as int, 100_000_000);
        lemma_square_bound(q.z as int, 100_000_000);
    }
    q.w * q.w + q.x * q.x + q.y * q.y + q.z * q.z
}

/// Component-wise negation: the same rotation, opposite sign.
pub open spec fn qneg_spec(q: Quat) -> Quat {
    Quat { w: -(q.w as int) as i64, x: -(q.x as int) as i64, y: -(q.y as int) as i64, z: -(
    q.z as int) as i64 }
}

/// Component-wise negation.
pub fn qneg(q: &Quat) -> (r: Quat)
    requires
        quat_comps_le(*q, QRAW_LIMIT as int),
    ensures
        r == qneg_spec(*q),
{
    Quat { w: -q.w, x: -q.x, y: -q.y, z: -q.z }
}

/// Fixed-point dot product of two quaternions.
pub open spec fn qdot_spec(a: Quat, b: Quat) -> int {
    fpmul_spec(a.w as int, b.w as int) + fpmul_spec(a.x as int, b.x as int) + fpmul_spec(
        a.y as int,
        b.y as int,
    ) + fpmul_spec(a.z as int, b.z as int)
}

/// Fixed-point dot product.
pub fn qdot(a: &Quat, b: &Quat) -> (r: i64)
    requires
        quat_comps_le(*a, QRAW_LIMIT as int),
        quat_comps_le(*b, QRAW_LIMIT as int),
    ensures
        r as int == qdot_spec(*a, *b),
{
    proof {
        lemma_fpmul_abs(a.w as int, b.w as int, QRAW_LIMIT as int, QRAW_LIMIT as int);
        lemma_fpmul_abs(a.x as int, b.x as int, QRAW_LIMIT as int, QRAW_LIMIT as int);
        lemma_fpmul_abs(a.y as int, b.y as int, QRAW_LIMIT as int, QRAW_LIMIT as int);
        lemma_fpmul_abs(a.z as int, b.z as int, QRAW_LIMIT as int, QRAW_LIMIT as int);
    }
    fpmul(a.w, b.w) + fpmul(a.x, b.x) + fpmul(a.y, b.y) + fpmul(a.z, b.z)
}

/// Hamilton product, each term a fixed-point product.
pub open spec fn quat_mul_spec(a: Quat, b: Quat) -> Quat {
    let aw: int = a.w as int;
    let ax: int = a.x as int;
    let ay: int = a.y as int;
    let az: int = a.z as int;
    let bw: int = b.w as int;
    let bx: int = b.x as int;
    let by: int = b.y as int;
    let bz: int = b.z as int;
    Quat {
        w: (fpmul_spec(aw, bw) - fpmul_spec(ax, bx) - fpmul_spec(ay, by) - fpmul_spec(
            az,
            bz,
        )) as i64,
        x: (fpmul_spec(aw, bx) + fpmul_spec(ax, bw) + fpmul_spec(ay, bz) - fpmul_spec(
            az,
            by,
        )) as i64,
        y: (fpmul_spec(aw, by) - fpmul_spec(ax, bz) + fpmul_spec(ay, bw) + fpmul_spec(
            az,
            bx,
        )) as i64,
        z: (fpmul_spec(aw, bz) + fpmul_spec(ax, by) - fpmul_spec(ay, bx) + fpmul_spec(
            az,
            bw,
        )) as i64,
    }
}

/// Hamilton product of two near-unit-range quaternions.
pub fn quat_mul(a: &Quat, b: &Quat) -> (r: Quat)
    requires
        quat_comps_le(*a, QCOMP_LIMIT as int),
        quat_comps_le(*b, QCOMP_LIMIT as int),
    ensures
        r == quat_mul_spec(*a, *b),
        quat_comps_le(r, QRAW_LIMIT as int),
{
    proof {
        lemma_fpmul_abs(a.w as int, b.w as int, QCOMP_LIMIT as int, QCOMP_LIMIT as int);
        lemma_fpmul_abs(a.w as int, b.x as int, QCOMP_LIMIT as int, QCOMP_LIMIT as int);
        lemma_fpmul_abs(a.w as int, b.y as int, QCOMP_LIMIT as int, QCOMP_LIMIT as int);
        lemma_fpmul_abs(a.w as int, b.z as int, QCOMP_LIMIT as int, QCOMP_LIMIT as int);
        lemma_fpmul_abs(a.x as int, b.w as int, QCOMP_LIMIT as int, QCOMP_LIMIT as int);
        lemma_fpmul_abs(a.x as int, b.x as int, QCOMP_LIMIT as int, QCOMP_LIMIT as int);
        lemma_fpmul_abs(a.x as int, b.y as int, QCOMP_LIMIT as int, QCOMP_LIMIT as int);
        lemma_fpmul_abs(a.x as int, b.z as int, QCOMP_LIMIT as int, QCOMP_LIMIT as int);
        lemma_fpmul_abs(a.y as int, b.w as int, QCOMP_LIMIT as int, QCOMP_LIMIT as int);
        lemma_fpmul_abs(a.y as int, b.x as int, QCOMP_LIMIT as int, QCOMP_LIMIT as int);
        lemma_fpmul_abs(a.y as int, b.y as int, QCOMP_LIMIT as int, QCOMP_LIMIT as int);
        lemma_fpmul_abs(a.y as int, b.z as int, QCOMP_LIMIT as int, QCOMP_LIMIT as int);
        lemma_fpmul_abs(a.z as int, b.w as int, QCOMP_LIMIT as int, QCOMP_LIMIT as int);
        lemma_fpmul_abs(a.z as int, b.x as int, QCOMP_LIMIT as int, QCOMP_LIMIT as int);
        lemma_fpmul_abs(a.z as int, b.y as int, QCOMP_LIMIT as int, QCOMP_LIMIT as int);
        lemma_fpmul_abs(a.z as int, b.z as int, QCOMP_LIMIT as int, QCOMP_LIMIT as int);
    }
    let rw: i64 = fpmul(a.w, b.w) - fpmul(a.x, b.x) - fpmul(a.y, b.y) - fpmul(a.z, b.z);
    let rx: i64 = fpmul(a.w, b.x) + fpmul(a.x, b.w) + fpmul(a.y, b.z) - fpmul(a.z, b.y);
    let ry: i64 = fpmul(a.w, b.y) - fpmul(a.x, b.z) + fpmul(a.y, b.w) + fpmul(a.z, b.x);
    let rz: i64 = fpmul(a.w, b.z) + fpmul(a.x, b.y) - fpmul(a.y, b.x) + fpmul(a.z, b.w);
    Quat { w: rw, x: rx, y: ry, z: rz }
}

/// Largest magnitude a rotated coordinate may reach.
pub const ROT_LIMIT: i64 = 50_000_000_000_000_000;

/// The vector rotated by a near-unit quaternion:
/// `v + w*t + qv x t` where `t = 2 * (qv x v)`, each product fixed-point.
pub open spec fn rotate_spec(q: Quat, v: Vec3) -> Vec3 {
    let tx: int = 2 * (fpmul_spec(q.y as int, v.z as int) - fpmul_spec(q.z as int, v.y as int));
    let ty: int = 2 * (fpmul_spec(q.z as int, v.x as int) - fpmul_spec(q.x as int, v.z as int));
    let tz: int = 2 * (fpmul_spec(q.x as int, v.y as int) - fpmul_spec(q.y as int, v.x as int));
    Vec3 {
        x: (v.x as int + fpmul_spec(q.w as int, tx) + fpmul_spec(q.y as int, tz) - fpmul_spec(
            q.z as int,
            ty,
        )) as i64,
        y: (v.y as int + fpmul_spec(q.w as int, ty) + fpmul_spec(q.z as int, tx) - fpmul_spec(
            q.x as int,
            tz,
        )) as i64,
        z: (v.z as int + fpmul_spec(q.w as int, tz) + fpmul_spec(q.x as int, ty) - fpmul_spec(
            q.y as int,
            tx,
        )) as i64,
    }
}

/// Rotate a stored position by a near-unit quaternion, exact per `rotate_spec`.
pub fn rotate_vec(q: &Quat, v: &Vec3) -> (r: Vec3)
    requires
        quat_comps_le(*q, QCOMP_LIMIT as int),
        crate::vec3::vec3_wf(*v),
    ensures
        r == rotate_spec(*q, *v),
        -(ROT_LIMIT as int) <= r.x as int <= ROT_LIMIT as int,
        -(ROT_LIMIT as int) <= r.y as int <= ROT_LIMIT as int,
        -(ROT_LIMIT as int) <= r.z as int <= ROT_LIMIT as int,
{
    proof {
        lemma_fpmul_abs(q.y as int, v.z as int, QCOMP_LIMIT as int, POS_LIMIT as int);
        lemma_fpmul_abs(q.z as int, v.y as int, QCOMP_LIMIT as int, POS_LIMIT as int);
        lemma_fpmul_abs(q.z as int, v.x as int, QCOMP_LIMIT as int, POS_LIMIT as int);
        lemma_fpmul_abs(q.x as int, v.z as int, QCOMP_LIMIT as int, POS_LIMIT as int);
        lemma_fpmul_abs(q.x as int, v.y as int, QCOMP_LIMIT as int, POS_LIMIT as int);
        lemma_fpmul_abs(q.y as int, v.x as int, QCOMP_LIMIT as int, POS_LIMIT as int);
    }
    let tx: i64 = 2 * (fpmul(q.y, v.z) - fpmul(q.z, v.y));
    let ty: i64 = 2 * (fpmul(q.z, v.x) - fpmul(q.x, v.z));
    let tz: i64 = 2 * (fpmul(q.x, v.y) - fpmul(q.y, v.x));
    proof {
        lemma_fpmul_abs(q.w as int, tx as int, QCOMP_LIMIT as int, 8_000_000_000_000_000);
        lemma_fpmul_abs(q.w as int, ty as int, QCOMP_LIMIT as int, 8_000_000_000_000_000);
        lemma_fpmul_abs(q.w as int, tz as int, QCOMP_LIMIT as int, 8_000_000_000_000_000);
        lemma_fpmul_abs(q.y as int, tz as int, QCOMP_LIMIT as int, 8_000_000_000_000_000);
        lemma_fpmul_abs(q.z as int, ty as int, QCOMP_LIMIT as int, 8_000_000_000_000_000);
        lemma_fpmul_abs(q.z as int, tx as int, QCOMP_LIMIT as int, 8_000_000_000_000_000);
        lemma_fpmul_abs(q.x as int, tz as int, QCOMP_LIMIT as int, 8_000_000_000_000_000);
        lemma_fpmul_abs(q.x as int, ty as int, QCOMP_LIMIT as int, 8_000_000_000_000_000);
        lemma_fpmul_abs(q.y as int, tx as int, QCOMP_LIMIT as int, 8_000_000_000_000_000);
    }
    let rx: i64 = v.x + fpmul(q.w, tx) + fpmul(q.y, tz) - fpmul(q.z, ty);
    let ry: i64 = v.y + fpmul(q.w, ty) + fpmul(q.z, tx) - fpmul(q.x, tz);
    let rz: i64 = v.z + fpmul(q.w, tz) + fpmul(q.x, ty) - fpmul(q.y, tx);
    Vec3 { x: rx, y: ry, z: rz }
}

/// A quaternion and its negation are the same rotation: they act identically
/// on every vector, the two-fold cover behind the yaw range of two turns.
pub proof fn lemma_neg_rotate(q: Quat, v: Vec3)
    requires
        quat_comps_le(q, QRAW_LIMIT as int),
    ensures
        rotate_spec(qneg_spec(q), v) == rotate_spec(q, v),
{
    let n: Quat = qneg_spec(q);
    assert(n.w as int == -(q.w as int));
    assert(n.x as int == -(q.x as int));
    assert(n.y as int == -(q.y as int));
    assert(n.z as int == -(q.z as int));
    crate::fixed::lemma_fpmul_neg(q.y as int, v.z as int);
    crate::fixed::lemma_fpmul_neg(q.z as int, v.y as int);
    crate::fixed::lemma_fpmul_neg(q.z as int, v.x as int);
    crate::fixed::lemma_fpmul_neg(q.x as int, v.z as int);
    crate::fixed::lemma_fpmul_neg(q.x as int, v.y as int);
    crate::fixed::lemma_fpmul_neg(q.y as int, v.x as int);
    let tx: int = 2 * (fpmul_spec(q.y as int, v.z as int) - fpmul_spec(q.z as int, v.y as int));
    let ty: int = 2 * (fpmul_spec(q.z as int, v.x as int) - fpmul_spec(q.x as int, v.z as int));
    let tz: int = 2 * (fpmul_spec(q.x as int, v.y as int) - fpmul_spec(q.y as int, v.x as int));
    lemma_fpmul_neg_neg(q.w as int, tx);
    lemma_fpmul_neg_neg(q.w as int, ty);
    lemma_fpmul_neg_neg(q.w as int, tz);
    lemma_fpmul_neg_neg(q.y as int, tz);
    lemma_fpmul_neg_neg(q.z as int, ty);
    lemma_fpmul_neg_neg(q.z as int, tx);
    lemma_fpmul_neg_neg(q.x as int, tz);
    lemma_fpmul_neg_neg(q.x as int, ty);
    lemma_fpmul_neg_neg(q.y as int, tx);
}

/// Negating both factors leaves a fixed-point product unchanged.
proof fn lemma_fpmul_neg_neg(a: int, b: int)
    ensures
        fpmul_spec(-a, -b) == fpmul_spec(a, b),
{
    crate::fixed::lemma_fpmul_neg(a, b);
    crate::fixed::lemma_fpmul_neg(-a, b);
}

/// Renormalizing a negated quaternion yields the same rotation as
/// renormalizing the original: the fallback cases coincide, and otherwise the
/// results differ only by the sign, which acts identically.
pub proof fn lemma_normalize_action_neg(q: Quat, v: Vec3)
    requires
        quat_comps_le(q, QRAW_LIMIT as int),
    ensures
        rotate_spec(normalize_spec(qneg_spec(q)), v) == rotate_spec(normalize_spec(q), v),
{
    let n: Quat = qneg_spec(q);
    assert(n.w as int == -(q.w as int) && n.x as int == -(q.x as int) && n.y as int == -(
    q.y as int) && n.z as int == -(q.z as int));
    lemma_square_neg(q.w as int);
    lemma_square_neg(q.x as int);
    lemma_square_neg(q.y as int);
    lemma_square_neg(q.z as int);
    assert(norm2_spec(n) == norm2_spec(q));
    let n2: int = norm2_spec(q);
    if n2 < 250_000_000_000 {
    } else {
        let s: int = crate::fixed::sqrt_floor(n2);
        crate::fixed::lemma_sqrt_exists(n2);
        lemma_sqrt_nonneg_bound(s, n2);
        lemma_muldiv_neg(q.w as int, s);
        lemma_muldiv_neg(q.x as int, s);
        lemma_muldiv_neg(q.y as int, s);
        lemma_muldiv_neg(q.z as int, s);
        let cand = Quat {
            w: muldiv_trunc_spec(q.w as int, SCALE as int, s) as i64,
            x: muldiv_trunc_spec(q.x as int, SCALE as int, s) as i64,
            y: muldiv_trunc_spec(q.y as int, SCALE as int, s) as i64,
            z: muldiv_trunc_spec(q.z as int, SCALE as int, s) as i64,
        };
        let candn = Quat {
            w: muldiv_trunc_spec(n.w as int, SCALE as int, s) as i64,
            x: muldiv_trunc_spec(n.x as int, SCALE as int, s) as i64,
            y: muldiv_trunc_spec(n.y as int, SCALE as int, s) as i64,
            z: muldiv_trunc_spec(n.z as int, SCALE as int, s) as i64,
        };
        lemma_scaled_comp_bound(q.w as int, s);
        lemma_scaled_comp_bound(q.x as int, s);
        lemma_scaled_comp_bound(q.y as int, s);
        lemma_scaled_comp_bound(q.z as int, s);
        assert(candn == qneg_spec(cand));
        lemma_square_neg(cand.w as int);
        lemma_square_neg(cand.x as int);
        lemma_square_neg(cand.y as int);
        lemma_square_neg(cand.z as int);
        assert(norm2_spec(candn) == norm2_spec(cand));
        if -(UNIT_EPS as int) <= norm2_spec(cand) - (SCALE as int) * (SCALE as int)
            <= UNIT_EPS as int {
            lemma_wf_from_norm(cand);
            lemma_neg_rotate(cand, v);
        }
    }
}

/// Squares forget the sign.
proof fn lemma_square_neg(c: int)
    ensures
        (-c) * (-c) == c * c,
{
    assert((-c) * (-c) == c * c) by (nonlinear_arith);
}

/// The rescaling of a normalization is odd in the component.
proof fn lemma_muldiv_neg(c: int, s: int)
    requires
        s >= 1,
    ensures
        muldiv_trunc_spec(-c, SCALE as int, s) == -muldiv_trunc_spec(c, SCALE as int, s),
{
    assert((-c) * (SCALE as int) == -(c * (SCALE as int))) by (nonlinear_arith);
    crate::fixed::lemma_trunc_div_neg(c * (SCALE as int), s);
}

/// A root of a positive square is at least the floor root of its lower bound.
proof fn lemma_sqrt_nonneg_bound(s: int, n2: int)
    requires
        crate::fixed::is_sqrt(s, n2),
        n2 >= 250_000_000_000,
    ensures
        s >= 499_999,
{
    assert(s >= 499_999) by (nonlinear_arith)
        requires
            0 <= s,
            n2 < (s + 1) * (s + 1),
            n2 >= 250_000_000_000,
    ;
}

/// Renormalize a raw quaternion into the near-unit band.
///
/// The components are rescaled by the integer square root of the squared norm;
/// if the input norm is degenerate, or rounding leaves the result outside the
/// near-unit band, the identity is the defined fallback.
pub open spec fn normalize_spec(q: Quat) -> Quat {
    let n2: int = norm2_spec(q);
    if n2 < 250_000_000_000 {
        Quat::identity_spec()
    } else {
        let s: int = sqrt_floor(n2);
        let r = Quat {
            w: muldiv_trunc_spec(q.w as int, SCALE as int, s) as i64,
            x: muldiv_trunc_spec(q.x as int, SCALE as int, s) as i64,
            y: muldiv_trunc_spec(q.y as int, SCALE as int, s) as i64,
            z: muldiv_trunc_spec(q.z as int, SCALE as int, s) as i64,
        };
        if -(UNIT_EPS as int) <= norm2_spec(r) - (SCALE as int) * (SCALE as int) <= UNIT_EPS
            as int {
            r
        } else {
            Quat::identity_spec()
        }
    }
}

/// Renormalize a raw quaternion, exact per `normalize_spec`.
pub fn normalize(q: &Quat) -> (r: Quat)
    requires
        quat_comps_le(*q, QRAW_LIMIT as int),
    ensures
        r == normalize_spec(*q),
        quat_wf(r),
{
    let n2: i64 = norm2(q);
    if n2 < 250_000_000_000 {
        return Quat::identity();
    }
    let root: u128 = isqrt128(n2 as u128);
    proof {
        let n2i: int = n2 as int;
        let ri: int = root as int;
        assert(ri >= 499_999) by (nonlinear_arith)
            requires
                is_sqrt(ri, n2i),
                n2i >= 250_000_000_000,
        ;
        assert(ri <= 0xffff_ffff) by (nonlinear_arith)
            requires
                is_sqrt(ri, n2i),
                n2i <= 0x7fff_ffff_ffff_ffff,
        ;
        lemma_muldiv_fits(q.w as int, ri);
        lemma_muldiv_fits(q.x as int, ri);
        lemma_muldiv_fits(q.y as int, ri);
        lemma_muldiv_fits(q.z as int, ri);
    }
    let rw: i64 = muldiv_trunc(q.w, SCALE, root);
    let rx: i64 = muldiv_trunc(q.x, SCALE, root);
    let ry: i64 = muldiv_trunc(q.y, SCALE, root);
    let rz: i64 = muldiv_trunc(q.z, SCALE, root);
    proof {
        lemma_scaled_comp_bound(q.w as int, root as int);
        lemma_scaled_comp_bound(q.x as int, root as int);
        lemma_scaled_comp_bound(q.y as int, root as int);
        lemma_scaled_comp_bound(q.z as int, root as int);
    }
    let cand = Quat { w: rw, x: rx, y: ry, z: rz };
    let cn2: i64 = norm2(&cand);
    let target: i64 = SCALE * SCALE;
    if -UNIT_EPS <= cn2 - target && cn2 - target <= UNIT_EPS {
        proof {
            lemma_wf_from_norm(cand);
        }
        cand
    } else {
        Quat::identity()
    }
}

/// Rescale a coordinate to unit length: `c * SCALE / root`, truncated, for a
/// coordinate bounded by the root.
pub fn muldiv_by_root(c: i64, root: u128) -> (r: i64)
    requires
        1 <= root <= 0x1_0000_0000_0000_0000,
        -(root as int) <= c as int <= root as int,
    ensures
        r as int == muldiv_trunc_spec(c as int, SCALE as int, root as int),
        -SCALE <= r <= SCALE,
{
    proof {
        let ca: int = if c as int >= 0 {
            c as int
        } else {
            -(c as int)
        };
        assert(ca * (SCALE as int) <= (root as int) * 0x7fff_ffff_ffff_ffff)
            by (nonlinear_arith)
            requires
                0 <= ca <= root as int,
                1 <= root as int,
        ;
    }
    let r: i64 = muldiv_trunc(c, SCALE, root);
    proof {
        let ca: int = if c as int >= 0 {
            c as int
        } else {
            -(c as int)
        };
        let p: int = ca * (SCALE as int);
        assert(p <= (root as int) * (SCALE as int)) by (nonlinear_arith)
            requires
                0 <= ca <= root as int,
                p == ca * (SCALE as int),
        ;
        assert(p / (root as int) <= SCALE as int) by {
            vstd::arithmetic::div_mod::lemma_div_is_ordered(
                p,
                (root as int) * (SCALE as int),
                root as int,
            );
            assert((root as int) * (SCALE as int) == (SCALE as int) * (root as int))
                by (nonlinear_arith);
            vstd::arithmetic::div_mod::lemma_div_by_multiple(SCALE as int, root as int);
        }
        vstd::arithmetic::div_mod::lemma_div_is_ordered(0, p, root as int);
        crate::fixed::lemma_fpmul_neg(c as int, SCALE as int);
        if c as int >= 0 {
            assert((c as int) * (SCALE as int) == p);
        } else {
            assert((c as int) * (SCALE as int) == -p) by (nonlinear_arith)
                requires
                    c as int == -ca,
                    p == ca * (SCALE as int),
            ;
        }
    }
    r
}

/// The scaled component of a normalization fits the divisor precondition.
proof fn lemma_muldiv_fits(c: int, r: int)
    requires
        -(QRAW_LIMIT as int) <= c <= QRAW_LIMIT as int,
        r >= 1,
    ensures
        (if c >= 0 {
            c
        } else {
            -c
        }) * (SCALE as int) <= r * 0x7fff_ffff_ffff_ffff,
{
    let ca: int = if c >= 0 {
        c
    } else {
        -c
    };
    assert(ca * (SCALE as int) <= r * 0x7fff_ffff_ffff_ffff) by (nonlinear_arith)
        requires
            0 <= ca <= QRAW_LIMIT as int,
            r >= 1,
    ;
}

/// A component rescaled by a realistic root stays in the raw range.
proof fn lemma_scaled_comp_bound(c: int, r: int)
    requires
        -(QRAW_LIMIT as int) <= c <= QRAW_LIMIT as int,
        499_999 <= r,
    ensures
        -(100_000_000) <= muldiv_trunc_spec(c, SCALE as int, r) <= 100_000_000,
{
    let ca: int = if c >= 0 {
        c
    } else {
        -c
    };
    let p: int = ca * (SCALE as int);
    assert(0 <= p <= 16_000_000_000_000) by (nonlinear_arith)
        requires
            0 <= ca <= QRAW_LIMIT as int,
            p == ca * (SCALE as int),
    ;
    assert(p / r <= 100_000_000) by {
        vstd::arithmetic::div_mod::lemma_div_is_ordered(p, 16_000_000_000_000, r);
        vstd::arithmetic::div_mod::lemma_div_is_ordered_by_denominator(
            16_000_000_000_000,
            499_999,
            r,
        );
    }
    vstd::arithmetic::div_mod::lemma_div_is_ordered(0, p, r);
    crate::fixed::lemma_fpmul_neg(c, SCALE as int);
    if c >= 0 {
        assert(c * (SCALE as int) == p) by (nonlinear_arith)
            requires
                c == ca,
                p == ca * (SCALE as int),
        ;
    } else {
        assert(c * (SCALE as int) == -p) by (nonlinear_arith)
            requires
                c == -ca,
                p == ca * (SCALE as int),
        ;
    }
}

/// One exponential-decay blend step of an orientation toward a target: the
/// target's sign is flipped when the two quaternions disagree in hemisphere,
/// the components are blended by the fraction `f`, and the result is
/// renormalized. A zero fraction leaves the orientation exactly unchanged.
pub open spec fn quat_blend_spec(cur: Quat, tgt: Quat, f: int) -> Quat {
    if f == 0 {
        cur
    } else {
        let t2: Quat = if qdot_spec(cur, tgt) < 0 {
            qneg_spec(tgt)
        } else {
            tgt
        };
        let lerped = Quat {
            w: (cur.w as int + fpmul_spec(f, t2.w as int - cur.w as int)) as i64,
            x: (cur.x as int + fpmul_spec(f, t2.x as int - cur.x as int)) as i64,
            y: (cur.y as int + fpmul_spec(f, t2.y as int - cur.y as int)) as i64,
            z: (cur.z as int + fpmul_spec(f, t2.z as int - cur.z as int)) as i64,
        };
        normalize_spec(lerped)
    }
}

/// Blend an orientation toward a target, exact per `quat_blend_spec`.
pub fn quat_blend(cur: &Quat, tgt: &Quat, f: i64) -> (r: Quat)
    requires
        quat_wf(*cur),
        quat_wf(*tgt),
        0 <= f <= SCALE,
    ensures
        r == quat_blend_spec(*cur, *tgt, f as int),
        quat_wf(r),
        f == 0 ==> r == *cur,
{
    if f == 0 {
        return *cur;
    }
    let d: i64 = qdot(cur, tgt);
    let t2: Quat = if d < 0 {
        qneg(tgt)
    } else {
        *tgt
    };
    proof {
        crate::fixed::lemma_lerp_bounds(f as int, t2.w as int - cur.w as int);
        crate::fixed::lemma_lerp_bounds(f as int, t2.x as int - cur.x as int);
        crate::fixed::lemma_lerp_bounds(f as int, t2.y as int - cur.y as int);
        crate::fixed::lemma_lerp_bounds(f as int, t2.z as int - cur.z as int);
    }
    let lerped = Quat {
        w: cur.w + fpmul(f, t2.w - cur.w),
        x: cur.x + fpmul(f, t2.x - cur.x),
        y: cur.y + fpmul(f, t2.y - cur.y),
        z: cur.z + fpmul(f, t2.z - cur.z),
    };
    normalize(&lerped)
}

/// The orientation of accumulated yaw and pitch angles, as the renormalized
/// composition `yaw_quat * pitch_quat` of the two half-angle rotations.
pub open spec fn from_yaw_pitch_spec(yaw: int, pitch: int) -> Quat {
    let hy: int = crate::fixed::fp_trunc_div(yaw, 2);
    let hp: int = crate::fixed::fp_trunc_div(pitch, 2);
    let sy: int = crate::fixed::sin_spec(hy);
    let cy: int = crate::fixed::cos_spec(hy);
    let sp: int = crate::fixed::sin_spec(hp);
    let cp: int = crate::fixed::cos_spec(hp);
    normalize_spec(
        Quat {
            w: fpmul_spec(cy, cp) as i64,
            x: fpmul_spec(cy, sp) as i64,
            y: fpmul_spec(sy, cp) as i64,
            z: -fpmul_spec(sy, sp) as i64,
        },
    )
}

/// Build the orientation of yaw and pitch angles (micro-degrees), exact per
/// `from_yaw_pitch_spec`.
pub fn from_yaw_pitch(yaw: i64, pitch: i64) -> (r: Quat)
    requires
        -(2 * crate::fixed::FULL_TURN as int) <= yaw as int <= 2 * crate::fixed::FULL_TURN
            as int,
        -(crate::fixed::FULL_TURN as int) <= pitch as int <= crate::fixed::FULL_TURN as int,
    ensures
        r == from_yaw_pitch_spec(yaw as int, pitch as int),
        quat_wf(r),
{
    let hy: i64 = crate::fixed::div_trunc(yaw, 2);
    let hp: i64 = crate::fixed::div_trunc(pitch, 2);
    proof {
        lemma_half_in_turn(yaw as int, 2 * crate::fixed::FULL_TURN as int);
        lemma_half_in_turn(pitch as int, crate::fixed::FULL_TURN as int);
    }
    let sy: i64 = crate::fixed::sin_fp(hy);
    let cy: i64 = crate::fixed::cos_fp(hy);
    let sp: i64 = crate::fixed::sin_fp(hp);
    let cp: i64 = crate::fixed::cos_fp(hp);
    proof {
        lemma_fpmul_abs(cy as int, cp as int, SCALE as int, SCALE as int);
        lemma_fpmul_abs(cy as int, sp as int, SCALE as int, SCALE as int);
        lemma_fpmul_abs(sy as int, cp as int, SCALE as int, SCALE as int);
        lemma_fpmul_abs(sy as int, sp as int, SCALE as int, SCALE as int);
    }
    let raw = Quat {
        w: fpmul(cy, cp),
        x: fpmul(cy, sp),
        y: fpmul(sy, cp),
        z: -fpmul(sy, sp),
    };
    normalize(&raw)
}

/// Halving keeps a value inside half the bound.
proof fn lemma_half_in_turn(v: int, lim: int)
    requires
        -lim <= v <= lim,
        0 <= lim,
    ensures
        -(lim / 2) <= crate::fixed::fp_trunc_div(v, 2) <= lim / 2,
{
    if v >= 0 {
        vstd::arithmetic::div_mod::lemma_div_is_ordered(v, lim, 2);
        vstd::arithmetic::div_mod::lemma_div_is_ordered(0, v, 2);
    } else {
        vstd::arithmetic::div_mod::lemma_div_is_ordered(-v, lim, 2);
        vstd::arithmetic::div_mod::lemma_div_is_ordered(0, -v, 2);
    }
}

/// Components of a quaternion in the near-unit band are in the stored range.
proof fn lemma_wf_from_norm(q: Quat)
    requires
        norm2_spec(q) <= (SCALE as int) * (SCALE as int) + UNIT_EPS as int,
    ensures
        quat_comps_le(q, QCOMP_LIMIT as int),
{
    lemma_comp_from_norm(q.w as int, q.x as int, q.y as int, q.z as int);
    lemma_comp_from_norm(q.x as int, q.w as int, q.y as int, q.z as int);
    lemma_comp_from_norm(q.y as int, q.w as int, q.x as int, q.z as int);
    lemma_comp_from_norm(q.z as int, q.w as int, q.x as int, q.y as int);
}

/// One component is bounded by the squared norm.
proof fn lemma_comp_from_norm(c: int, o1: int, o2: int, o3: int)
    requires
        c * c + o1 * o1 + o2 * o2 + o3 * o3 <= (SCALE as int) * (SCALE as int) + UNIT_EPS as int,
    ensures
        -(QCOMP_LIMIT as int) <= c <= QCOMP_LIMIT as int,
{
    assert(-(QCOMP_LIMIT as int) <= c <= QCOMP_LIMIT as int) by (nonlinear_arith)
        requires
            c * c + o1 * o1 + o2 * o2 + o3 * o3 <= (SCALE as int) * (SCALE as int) + UNIT_EPS
                as int,
    ;
}

} // verus!
