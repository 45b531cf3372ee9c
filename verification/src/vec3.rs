//! Fixed-point 3D vectors.
//!
//! Coordinates are micro-units (`fixed::SCALE` per unit). Stored positions are
//! kept inside `[-POS_LIMIT, POS_LIMIT]`; sums are clamped back into that range,
//! the limit helper the drivers rely on to stay within machine bounds.

use vstd::prelude::*;
use crate::fixed::SCALE;
use crate::fixed::fpmul;
use crate::fixed::fpmul_spec;
use crate::fixed::lemma_lerp_bounds;

verus! {

/// Largest magnitude of a stored position coordinate, in micro-units.
pub const POS_LIMIT: i64 = 1_000_000_000_000_000;

/// Largest magnitude an intermediate coordinate may reach before clamping.
pub const WIDE_LIMIT: i64 = 100_000_000_000_000_000;

/// A 3D vector of fixed-point coordinates.
#[derive(Clone, Copy, PartialEq, Eq, Structural, Debug)]
pub struct Vec3 {
    pub x: i64,
    pub y: i64,
    pub z: i64,
}

/// A coordinate lies within the stored-position range.
pub open spec fn coord_ok(c: int) -> bool {
    -(POS_LIMIT as int) <= c <= POS_LIMIT as int
}

/// All three coordinates lie within the stored-position range.
pub open spec fn vec3_wf(v: Vec3) -> bool {
    coord_ok(v.x as int) && coord_ok(v.y as int) && coord_ok(v.z as int)
}

/// A coordinate clamped into the stored-position range.
pub open spec fn clamp_coord(c: int) -> int {
    if c > POS_LIMIT as int {
        POS_LIMIT as int
    } else if c < -(POS_LIMIT as int) {
        -(POS_LIMIT as int)
    } else {
        c
    }
}

/// Clamp one coordinate into the stored-position range.
pub fn clamp_c(c: i64) -> (r: i64)
    ensures
        r as int == clamp_coord(c as int),
{
    if c > POS_LIMIT {
        POS_LIMIT
    } else if c < -POS_LIMIT {
        -POS_LIMIT
    } else {
        c
    }
}

/// Component-wise clamped sum.
pub open spec fn vadd_spec(a: Vec3, b: Vec3) -> Vec3 {
    Vec3 {
        x: clamp_coord(a.x as int + b.x as int) as i64,
        y: clamp_coord(a.y as int + b.y as int) as i64,
        z: clamp_coord(a.z as int + b.z as int) as i64,
    }
}

impl Vec3 {
    /// Build a vector from its coordinates.
    pub fn new(x: i64, y: i64, z: i64) -> (r: Self)
        ensures
            r == (Vec3 { x, y, z }),
    {
        Vec3 { x, y, z }
    }

    /// The zero vector.
    pub open spec fn zero_spec() -> Vec3 {
        Vec3 { x: 0, y: 0, z: 0 }
    }

    /// The zero vector.
    pub fn zero() -> (r: Self)
        ensures
            r == Self::zero_spec(),
            vec3_wf(r),
    {
        Vec3 { x: 0, y: 0, z: 0 }
    }
}

/// Clamped sum of two vectors whose coordinates fit the wide range.
pub fn vadd(a: Vec3, b: Vec3) -> (r: Vec3)
    requires
        -(WIDE_LIMIT as int) <= a.x as int <= WIDE_LIMIT as int,
        -(WIDE_LIMIT as int) <= a.y as int <= WIDE_LIMIT as int,
        -(WIDE_LIMIT as int) <= a.z as int <= WIDE_LIMIT as int,
        -(WIDE_LIMIT as int) <= b.x as int <= WIDE_LIMIT as int,
        -(WIDE_LIMIT as int) <= b.y as int <= WIDE_LIMIT as int,
        -(WIDE_LIMIT as int) <= b.z as int <= WIDE_LIMIT as int,
    ensures
        r == vadd_spec(a, b),
        vec3_wf(r),
{
    Vec3 { x: clamp_c(a.x + b.x), y: clamp_c(a.y + b.y), z: clamp_c(a.z + b.z) }
}

/// Exact difference of two stored positions.
pub fn vsub(a: Vec3, b: Vec3) -> (r: Vec3)
    requires
        vec3_wf(a),
        vec3_wf(b),
    ensures
        r.x as int == a.x as int - b.x as int,
        r.y as int == a.y as int - b.y as int,
        r.z as int == a.z as int - b.z as int,
{
    Vec3 { x: a.x - b.x, y: a.y - b.y, z: a.z - b.z }
}

/// One exponential-decay blend step of a position toward a target.
pub open spec fn lerp_toward_spec(c: Vec3, t: Vec3, f: int) -> Vec3 {
    Vec3 {
        x: (c.x as int + fpmul_spec(f, t.x as int - c.x as int)) as i64,
        y: (c.y as int + fpmul_spec(f, t.y as int - c.y as int)) as i64,
        z: (c.z as int + fpmul_spec(f, t.z as int - c.z as int)) as i64,
    }
}

/// Blend `c` toward `t` by the fraction `f` of the remaining distance.
///
/// The result stays between start and target in every coordinate, so blending
/// never overshoots, and `f == 0` leaves the start exactly unchanged.
pub fn lerp_toward(c: Vec3, t: Vec3, f: i64) -> (r: Vec3)
    requires
        vec3_wf(c),
        vec3_wf(t),
        0 <= f <= SCALE,
    ensures
        r == lerp_toward_spec(c, t, f as int),
        vec3_wf(r),
        f == 0 ==> r == c,
        f == SCALE ==> r == t,
{
    proof {
        lemma_lerp_bounds(f as int, t.x as int - c.x as int);
        lemma_lerp_bounds(f as int, t.y as int - c.y as int);
        lemma_lerp_bounds(f as int, t.z as int - c.z as int);
        if f == 0 {
            lemma_zero_blend(t.x as int - c.x as int);
            lemma_zero_blend(t.y as int - c.y as int);
            lemma_zero_blend(t.z as int - c.z as int);
        }
        if f == SCALE {
            lemma_full_blend(t.x as int - c.x as int);
            lemma_full_blend(t.y as int - c.y as int);
            lemma_full_blend(t.z as int - c.z as int);
        }
    }
    let rx: i64 = c.x + fpmul(f, t.x - c.x);
    let ry: i64 = c.y + fpmul(f, t.y - c.y);
    let rz: i64 = c.z + fpmul(f, t.z - c.z);
    Vec3 { x: rx, y: ry, z: rz }
}

/// Squared norm of any vector, computed wide.
pub fn vnorm2_u128(v: &Vec3) -> (r: u128)
    ensures
        r as int == (v.x as int) * (v.x as int) + (v.y as int) * (v.y as int) + (v.z as int) * (
        v.z as int),
{
    let ax: u128 = crate::fixed::abs64(v.x) as u128;
    let ay: u128 = crate::fixed::abs64(v.y) as u128;
    let az: u128 = crate::fixed::abs64(v.z) as u128;
    proof {
        lemma_abs_square(v.x as int, ax as int);
        lemma_abs_square(v.y as int, ay as int);
        lemma_abs_square(v.z as int, az as int);
    }
    ax * ax + ay * ay + az * az
}

/// Squaring forgets the sign.
proof fn lemma_abs_square(c: int, a: int)
    requires
        a == c || a == -c,
        0 <= a <= 0x8000_0000_0000_0000,
    ensures
        a * a == c * c,
        a * a <= 0x4000_0000_0000_0000_0000_0000_0000_0000,
{
    assert(a * a == c * c && a * a <= 0x4000_0000_0000_0000_0000_0000_0000_0000)
        by (nonlinear_arith)
        requires
            a == c || a == -c,
            0 <= a <= 0x8000_0000_0000_0000,
    ;
}

/// Each coordinate of a vector is bounded by the root of its squared norm.
pub proof fn lemma_dir_comp_le_len(x: int, y: int, z: int, len: int, n2: int, floor: int)
    requires
        crate::fixed::is_sqrt(len, n2),
        n2 == x * x + y * y + z * z,
        n2 >= floor,
        floor >= 0,
    ensures
        -len <= x <= len,
        -len <= y <= len,
        -len <= z <= len,
        (len + 1) * (len + 1) > floor,
{
    assert(-len <= x <= len && -len <= y <= len && -len <= z <= len && (len + 1) * (len + 1)
        > floor) by (nonlinear_arith)
        requires
            0 <= len,
            len * len <= n2,
            n2 < (len + 1) * (len + 1),
            n2 == x * x + y * y + z * z,
            n2 >= floor,
    ;
}

/// The vector, shortened when needed so its length is at most one unit.
pub open spec fn clamp_length_spec(v: Vec3) -> Vec3 {
    let n2: int = (v.x as int) * (v.x as int) + (v.y as int) * (v.y as int) + (v.z as int) * (
    v.z as int);
    if n2 <= (SCALE as int) * (SCALE as int) {
        v
    } else {
        let len: int = crate::fixed::sqrt_floor(n2);
        Vec3 {
            x: crate::fixed::muldiv_trunc_spec(v.x as int, SCALE as int, len) as i64,
            y: crate::fixed::muldiv_trunc_spec(v.y as int, SCALE as int, len) as i64,
            z: crate::fixed::muldiv_trunc_spec(v.z as int, SCALE as int, len) as i64,
        }
    }
}

/// Shorten a vector to at most unit length, exact per `clamp_length_spec`.
pub fn clamp_length_max(v: &Vec3) -> (r: Vec3)
    requires
        vec3_wf(*v),
    ensures
        r == clamp_length_spec(*v),
        -SCALE <= r.x <= SCALE,
        -SCALE <= r.y <= SCALE,
        -SCALE <= r.z <= SCALE,
{
    let n2: u128 = vnorm2_u128(v);
    if n2 <= 1_000_000_000_000 {
        proof {
            lemma_small_norm_comps(v.x as int, v.y as int, v.z as int, n2 as int);
        }
        return *v;
    }
    let len: u128 = crate::fixed::isqrt128(n2);
    proof {
        lemma_dir_comp_le_len(
            v.x as int,
            v.y as int,
            v.z as int,
            len as int,
            n2 as int,
            1_000_000_000_000,
        );
        assert(len as int >= 1_000_000) by (nonlinear_arith)
            requires
                (len as int + 1) * (len as int + 1) > 1_000_000_000_000,
                len as int >= 0,
        ;
    }
    let rx: i64 = crate::quat::muldiv_by_root(v.x, len);
    let ry: i64 = crate::quat::muldiv_by_root(v.y, len);
    let rz: i64 = crate::quat::muldiv_by_root(v.z, len);
    Vec3 { x: rx, y: ry, z: rz }
}

/// Coordinates of a short vector are themselves short.
proof fn lemma_small_norm_comps(x: int, y: int, z: int, n2: int)
    requires
        n2 == x * x + y * y + z * z,
        n2 <= (SCALE as int) * (SCALE as int),
    ensures
        -(SCALE as int) <= x <= SCALE as int,
        -(SCALE as int) <= y <= SCALE as int,
        -(SCALE as int) <= z <= SCALE as int,
{
    assert(-(SCALE as int) <= x <= SCALE as int && -(SCALE as int) <= y <= SCALE as int && -(
    SCALE as int) <= z <= SCALE as int) by (nonlinear_arith)
        requires
            n2 == x * x + y * y + z * z,
            n2 <= (SCALE as int) * (SCALE as int),
    ;
}

/// A zero blend fraction moves nothing.
pub proof fn lemma_zero_blend(d: int)
    ensures
        fpmul_spec(0, d) == 0,
{
    assert(0 * d == 0) by (nonlinear_arith);
    vstd::arithmetic::div_mod::lemma_div_basics(SCALE as int);
}

/// A full blend fraction lands exactly on the target.
pub proof fn lemma_full_blend(d: int)
    ensures
        fpmul_spec(SCALE as int, d) == d,
{
    let s: int = SCALE as int;
    if d >= 0 {
        assert(s * d == d * s) by (nonlinear_arith);
        vstd::arithmetic::div_mod::lemma_div_by_multiple(d, s);
    } else {
        assert(s * d == -((-d) * s)) by (nonlinear_arith);
        vstd::arithmetic::div_mod::lemma_div_by_multiple(-d, s);
    }
}

} // verus!
