//! The rig drivers.
//!
//! A driver consumes its predecessor's transform and the frame's elapsed time
//! (micro-seconds, at most `fixed::DT_MAX`) and produces the next transform.
//! Only `Smooth` carries state that the update itself rewrites; the others are
//! mutated by the host between frames through their setters.

use vstd::prelude::*;
use crate::fixed::SCALE;
use crate::fixed::DT_MAX;
use crate::fixed::exp_neg;
use crate::fixed::exp_neg_spec;
use crate::fixed::fpdiv;
use crate::fixed::fpdiv_spec;
use crate::fixed::rem_trunc;
use crate::fixed::fpmul_spec;
use crate::fixed::rem_trunc_spec;
use crate::vec3::Vec3;
use crate::vec3::vec3_wf;
use crate::vec3::vadd;
use crate::vec3::vadd_spec;
use crate::vec3::vsub;
use crate::vec3::lerp_toward;
use crate::vec3::lerp_toward_spec;
use crate::vec3::WIDE_LIMIT;
use crate::quat::Quat;
use crate::quat::quat_wf;
use crate::quat::rotate_vec;
use crate::quat::rotate_spec;
use crate::quat::from_yaw_pitch;
use crate::quat::from_yaw_pitch_spec;
use crate::quat::quat_blend;
use crate::quat::quat_blend_spec;
use crate::quat::normalize;
use crate::quat::normalize_spec;
use crate::quat::muldiv_by_root;
use crate::transform::Transform;
use crate::transform::transform_wf;

verus! {

/// Two full turns: the range within which accumulated yaw is kept, so that
/// blends between orientations can use the full double cover of rotations.
pub const YAW_RANGE: i64 = 720_000_000;

/// Largest pitch magnitude: straight up or straight down.
pub const PITCH_LIMIT: i64 = 90_000_000;

/// Directly sets the position of the camera.
#[derive(Clone, Copy, PartialEq, Eq, Structural, Debug)]
pub struct Position {
    pub position: Vec3,
}

/// Directly sets the rotation of the camera.
#[derive(Clone, Copy, PartialEq, Eq, Structural, Debug)]
pub struct Rotation {
    pub rotation: Quat,
}

/// Offsets the camera along a vector, in the coordinate space of the parent.
#[derive(Clone, Copy, PartialEq, Eq, Structural, Debug)]
pub struct Arm {
    pub offset: Vec3,
}

/// Accumulates yaw and pitch angles (micro-degrees) and emits their rotation.
#[derive(Clone, Copy, PartialEq, Eq, Structural, Debug)]
pub struct YawPitch {
    /// Accumulated yaw, kept in `(-YAW_RANGE, YAW_RANGE)`.
    pub yaw_degrees: i64,
    /// Accumulated pitch, clamped to `[-PITCH_LIMIT, PITCH_LIMIT]`.
    pub pitch_degrees: i64,
}

/// Exponentially eases the camera towards the parent transform.
#[derive(Clone, Copy, PartialEq, Eq, Structural, Debug)]
pub struct Smooth {
    /// Position time-constant in micro-seconds; `0` follows the parent exactly.
    pub position_smoothness: i64,
    /// Rotation time-constant in micro-seconds; `0` follows the parent exactly.
    pub rotation_smoothness: i64,
    /// With prediction on, the position target is advanced by the velocity
    /// estimated from the previous frame before blending, to reduce lag.
    pub predictive: bool,
    /// The previous frame's target position, the base of the velocity
    /// estimate.
    pub prev_target: Vec3,
    /// The previous frame's elapsed time; `0` before the first frame, which
    /// makes the initial velocity estimate zero.
    pub prev_dt: i64,
    /// The eased state carried across frames, seeded with the identity.
    pub current: Transform,
}

/// Rotates the camera to face a world-space point, optionally easing the
/// orientation toward the facing direction.
#[derive(Clone, Copy, PartialEq, Eq, Structural, Debug)]
pub struct LookAt {
    pub target: Vec3,
    /// Orientation time-constant in micro-seconds; `0` faces the target
    /// exactly.
    pub rotation_smoothness: i64,
    /// The eased orientation carried across frames, seeded with the identity.
    pub current: Quat,
}

impl LookAt {
    /// Face `target` exactly, with no easing.
    pub fn new(target: Vec3) -> (r: Self)
        ensures
            r.target == target,
            r.rotation_smoothness == 0,
            r.current == Quat::identity_spec(),
    {
        LookAt { target, rotation_smoothness: 0, current: Quat::identity() }
    }

    /// Ease the orientation toward the facing direction with the given
    /// time-constant.
    pub fn smoothness(self, rotation_smoothness: i64) -> (r: Self)
        requires
            rotation_smoothness >= 0,
        ensures
            r == (LookAt { rotation_smoothness, ..self }),
    {
        LookAt { rotation_smoothness, ..self }
    }
}

impl Rotation {
    /// Make a driver that pins the camera to `rotation`.
    pub fn new(rotation: Quat) -> (r: Self)
        ensures
            r.rotation == rotation,
    {
        Rotation { rotation }
    }
}

impl Arm {
    /// Make a driver that hangs the camera `offset` away from its parent.
    pub fn new(offset: Vec3) -> (r: Self)
        ensures
            r.offset == offset,
    {
        Arm { offset }
    }
}

impl Position {
    /// Make a driver that pins the camera to `position`.
    pub fn new(position: Vec3) -> (r: Self)
        ensures
            r.position == position,
    {
        Position { position }
    }

    /// Add `delta` to the stored position, clamped into the stored range.
    pub fn translate(&mut self, delta: Vec3)
        requires
            vec3_wf(old(self).position),
            -(WIDE_LIMIT as int) <= delta.x as int <= WIDE_LIMIT as int,
            -(WIDE_LIMIT as int) <= delta.y as int <= WIDE_LIMIT as int,
            -(WIDE_LIMIT as int) <= delta.z as int <= WIDE_LIMIT as int,
        ensures
            final(self).position == vadd_spec(old(self).position, delta),
            vec3_wf(final(self).position),
    {
        self.position = vadd(self.position, delta);
    }
}

impl YawPitch {
    /// A driver looking forward: both angles zero.
    pub fn new() -> (r: Self)
        ensures
            r.yaw_degrees == 0,
            r.pitch_degrees == 0,
    {
        YawPitch { yaw_degrees: 0, pitch_degrees: 0 }
    }

    /// Additively rotate by the given angles (micro-degrees): yaw wraps over
    /// two turns keeping its sign, pitch clamps to straight up or down.
    pub fn rotate_yaw_pitch(&mut self, yaw_degrees: i64, pitch_degrees: i64)
        requires
            yawpitch_wf(*old(self)),
            -8_000_000_000_000_000_000 <= yaw_degrees as int <= 8_000_000_000_000_000_000,
            -8_000_000_000_000_000_000 <= pitch_degrees as int <= 8_000_000_000_000_000_000,
        ensures
            final(self).yaw_degrees as int == rem_trunc_spec(
                old(self).yaw_degrees as int + yaw_degrees as int,
                YAW_RANGE as int,
            ),
            final(self).pitch_degrees as int == clamp_pitch_spec(
                old(self).pitch_degrees as int + pitch_degrees as int,
            ),
            yawpitch_wf(*final(self)),
    {
        self.yaw_degrees = rem_trunc(self.yaw_degrees + yaw_degrees, YAW_RANGE);
        let p: i64 = self.pitch_degrees + pitch_degrees;
        self.pitch_degrees = if p > PITCH_LIMIT {
            PITCH_LIMIT
        } else if p < -PITCH_LIMIT {
            -PITCH_LIMIT
        } else {
            p
        };
    }
}

/// Pitch clamped to `[-PITCH_LIMIT, PITCH_LIMIT]`.
pub open spec fn clamp_pitch_spec(p: int) -> int {
    if p > PITCH_LIMIT as int {
        PITCH_LIMIT as int
    } else if p < -(PITCH_LIMIT as int) {
        -(PITCH_LIMIT as int)
    } else {
        p
    }
}

impl Smooth {
    /// Smooth both position and rotation, seeded at the identity transform.
    pub fn new_position_rotation(position_smoothness: i64, rotation_smoothness: i64) -> (r:
        Self)
        requires
            position_smoothness >= 0,
            rotation_smoothness >= 0,
        ensures
            r.position_smoothness == position_smoothness,
            r.rotation_smoothness == rotation_smoothness,
            !r.predictive,
            r.prev_target == Vec3::zero_spec(),
            r.prev_dt == 0,
            r.current == Transform::identity_spec(),
            smooth_wf(r),
    {
        Smooth {
            position_smoothness,
            rotation_smoothness,
            predictive: false,
            prev_target: Vec3::zero(),
            prev_dt: 0,
            current: Transform::identity(),
        }
    }

    /// Switch prediction on or off, leaving the rest of the state alone.
    pub fn predictive(self, predictive: bool) -> (r: Self)
        ensures
            r == (Smooth { predictive, ..self }),
    {
        Smooth { predictive, ..self }
    }

    /// Smooth only the position; the rotation follows the parent exactly.
    pub fn new_position(position_smoothness: i64) -> (r: Self)
        requires
            position_smoothness >= 0,
        ensures
            r.position_smoothness == position_smoothness,
            r.rotation_smoothness == 0,
            !r.predictive,
            r.prev_target == Vec3::zero_spec(),
            r.prev_dt == 0,
            r.current == Transform::identity_spec(),
            smooth_wf(r),
    {
        Smooth {
            position_smoothness,
            rotation_smoothness: 0,
            predictive: false,
            prev_target: Vec3::zero(),
            prev_dt: 0,
            current: Transform::identity(),
        }
    }
}

/// The blend fraction of one frame: `1 - exp(-dt / smoothness)` in fixed
/// point, and a full step when smoothing is disabled.
pub open spec fn smooth_factor_spec(dt: int, smoothness: int) -> int {
    if smoothness == 0 {
        SCALE as int
    } else {
        SCALE as int - exp_neg_spec(fpdiv_spec(dt, smoothness))
    }
}

/// The blend fraction of one frame, exact per `smooth_factor_spec`.
pub fn smooth_factor(dt: i64, smoothness: i64) -> (r: i64)
    requires
        0 <= dt <= DT_MAX,
        0 <= smoothness,
    ensures
        r as int == smooth_factor_spec(dt as int, smoothness as int),
        0 <= r <= SCALE,
        dt == 0 && smoothness >= 1 ==> r == 0,
{
    if smoothness == 0 {
        SCALE
    } else {
        let x: i64 = fpdiv(dt, smoothness);
        SCALE - exp_neg(x)
    }
}

/// Well-formedness of each driver's stored state.
pub open spec fn yawpitch_wf(y: YawPitch) -> bool {
    -(YAW_RANGE as int) < (y.yaw_degrees as int) < YAW_RANGE as int && -(PITCH_LIMIT as int)
        <= y.pitch_degrees as int <= PITCH_LIMIT as int
}

/// Well-formedness of the smoothing driver's stored state.
pub open spec fn smooth_wf(s: Smooth) -> bool {
    transform_wf(s.current) && s.position_smoothness >= 0 && s.rotation_smoothness >= 0
        && vec3_wf(s.prev_target) && 0 <= s.prev_dt <= DT_MAX
}

/// The velocity estimate of one coordinate: the previous frame's movement
/// divided by its elapsed time, clamped into the stored range; zero when the
/// previous frame is missing or shorter than a millisecond.
pub open spec fn velocity_comp_spec(moved: int, prev_dt: int) -> int {
    if prev_dt >= 1_000 {
        crate::vec3::clamp_coord(
            crate::fixed::muldiv_trunc_spec(moved, SCALE as int, prev_dt),
        )
    } else {
        0
    }
}

/// The position target of a smoothing step: with prediction on, the parent's
/// position advanced by the estimated velocity times the elapsed time.
pub open spec fn advanced_target_spec(s: Smooth, target: Vec3, dt: int) -> Vec3 {
    if s.predictive {
        Vec3 {
            x: crate::vec3::clamp_coord(
                target.x as int + fpmul_spec(
                    dt,
                    velocity_comp_spec(target.x as int - s.prev_target.x as int, s.prev_dt as int),
                ),
            ) as i64,
            y: crate::vec3::clamp_coord(
                target.y as int + fpmul_spec(
                    dt,
                    velocity_comp_spec(target.y as int - s.prev_target.y as int, s.prev_dt as int),
                ),
            ) as i64,
            z: crate::vec3::clamp_coord(
                target.z as int + fpmul_spec(
                    dt,
                    velocity_comp_spec(target.z as int - s.prev_target.z as int, s.prev_dt as int),
                ),
            ) as i64,
        }
    } else {
        target
    }
}

/// One stage of a rig: a sum of the driver kinds.
#[derive(Clone, Copy, PartialEq, Eq, Structural, Debug)]
pub enum Driver {
    Position(Position),
    Rotation(Rotation),
    Arm(Arm),
    YawPitch(YawPitch),
    Smooth(Smooth),
    LookAt(LookAt),
}

/// The kind of a driver, the key of rig lookups.
#[derive(Clone, Copy, PartialEq, Eq, Structural, Debug)]
pub enum DriverKind {
    Position,
    Rotation,
    Arm,
    YawPitch,
    Smooth,
    LookAt,
}

/// The kind of a driver.
pub open spec fn kind_of(d: Driver) -> DriverKind {
    match d {
        Driver::Position(_) => DriverKind::Position,
        Driver::Rotation(_) => DriverKind::Rotation,
        Driver::Arm(_) => DriverKind::Arm,
        Driver::YawPitch(_) => DriverKind::YawPitch,
        Driver::Smooth(_) => DriverKind::Smooth,
        Driver::LookAt(_) => DriverKind::LookAt,
    }
}

/// Well-formedness of a driver.
pub open spec fn driver_wf(d: Driver) -> bool {
    match d {
        Driver::Position(p) => vec3_wf(p.position),
        Driver::Rotation(r) => quat_wf(r.rotation),
        Driver::Arm(a) => vec3_wf(a.offset),
        Driver::YawPitch(y) => yawpitch_wf(y),
        Driver::Smooth(s) => smooth_wf(s),
        Driver::LookAt(l) => vec3_wf(l.target) && l.rotation_smoothness >= 0 && quat_wf(
            l.current,
        ),
    }
}

/// The orientation that faces `dir` from the reference forward axis
/// (negative Z), as the renormalized shortest-arc quaternion; the identity is
/// the defined result for a degenerate (near-zero) direction.
pub open spec fn look_rotation_spec(dir: Vec3) -> Quat {
    let n2: int = (dir.x as int) * (dir.x as int) + (dir.y as int) * (dir.y as int) + (
    dir.z as int) * (dir.z as int);
    if n2 < 1_000_000 {
        Quat::identity_spec()
    } else {
        let len: int = crate::fixed::sqrt_floor(n2);
        let bx: int = crate::fixed::muldiv_trunc_spec(dir.x as int, SCALE as int, len);
        let by: int = crate::fixed::muldiv_trunc_spec(dir.y as int, SCALE as int, len);
        let bz: int = crate::fixed::muldiv_trunc_spec(dir.z as int, SCALE as int, len);
        normalize_spec(
            Quat { w: (SCALE as int - bz) as i64, x: by as i64, y: (-bx) as i64, z: 0 },
        )
    }
}

/// What one driver does with its parent transform and the elapsed time:
/// the updated driver and the transform it hands to its successor.
pub open spec fn driver_update_spec(d: Driver, parent: Transform, dt: int) -> (Driver,
    Transform) {
    match d {
        Driver::Position(p) => (
            d,
            Transform { position: p.position, rotation: parent.rotation },
        ),
        Driver::Rotation(r) => (
            d,
            Transform { position: parent.position, rotation: r.rotation },
        ),
        Driver::Arm(a) => (
            d,
            Transform {
                position: vadd_spec(parent.position, rotate_spec(parent.rotation, a.offset)),
                rotation: parent.rotation,
            },
        ),
        Driver::YawPitch(y) => (
            d,
            Transform {
                position: parent.position,
                rotation: from_yaw_pitch_spec(y.yaw_degrees as int, y.pitch_degrees as int),
            },
        ),
        Driver::Smooth(s) => {
            let fp: int = smooth_factor_spec(dt, s.position_smoothness as int);
            let fr: int = smooth_factor_spec(dt, s.rotation_smoothness as int);
            let tgt: Vec3 = advanced_target_spec(s, parent.position, dt);
            let next = Transform {
                position: lerp_toward_spec(s.current.position, tgt, fp),
                rotation: quat_blend_spec(s.current.rotation, parent.rotation, fr),
            };
            (
                Driver::Smooth(
                    Smooth {
                        position_smoothness: s.position_smoothness,
                        rotation_smoothness: s.rotation_smoothness,
                        predictive: s.predictive,
                        prev_target: parent.position,
                        prev_dt: dt as i64,
                        current: next,
                    },
                ),
                next,
            )
        },
        Driver::LookAt(l) => {
            let dir = Vec3 {
                x: (l.target.x as int - parent.position.x as int) as i64,
                y: (l.target.y as int - parent.position.y as int) as i64,
                z: (l.target.z as int - parent.position.z as int) as i64,
            };
            let goal: Quat = look_rotation_spec(dir);
            let rot: Quat = if l.rotation_smoothness == 0 {
                goal
            } else {
                quat_blend_spec(
                    l.current,
                    goal,
                    smooth_factor_spec(dt, l.rotation_smoothness as int),
                )
            };
            (
                Driver::LookAt(LookAt { current: rot, ..l }),
                Transform { position: parent.position, rotation: rot },
            )
        },
    }
}

impl Driver {
    /// Run one driver step, exact per `driver_update_spec`.
    ///
    /// Every output transform is well-formed: in particular its orientation is
    /// near-unit, whichever driver produced it and however many steps ran
    /// before.
    pub fn update(self, parent: &Transform, dt: i64) -> (r: (Driver, Transform))
        requires
            driver_wf(self),
            transform_wf(*parent),
            0 <= dt <= DT_MAX,
        ensures
            (r.0, r.1) == driver_update_spec(self, *parent, dt as int),
            driver_wf(r.0),
            transform_wf(r.1),
    {
        match self {
            Driver::Position(p) => (
                self,
                Transform { position: p.position, rotation: parent.rotation },
            ),
            Driver::Rotation(r) => (
                self,
                Transform { position: parent.position, rotation: r.rotation },
            ),
            Driver::Arm(a) => {
                let rotated: Vec3 = rotate_vec(&parent.rotation, &a.offset);
                let position: Vec3 = vadd(parent.position, rotated);
                (self, Transform { position, rotation: parent.rotation })
            },
            Driver::YawPitch(y) => {
                let rotation: Quat = from_yaw_pitch(y.yaw_degrees, y.pitch_degrees);
                (self, Transform { position: parent.position, rotation })
            },
            Driver::Smooth(s) => {
                let fp: i64 = smooth_factor(dt, s.position_smoothness);
                let fr: i64 = smooth_factor(dt, s.rotation_smoothness);
                let tgt: Vec3 = if s.predictive {
                    let vx: i64 = velocity_comp(parent.position.x - s.prev_target.x, s.prev_dt);
                    let vy: i64 = velocity_comp(parent.position.y - s.prev_target.y, s.prev_dt);
                    let vz: i64 = velocity_comp(parent.position.z - s.prev_target.z, s.prev_dt);
                    proof {
                        crate::fixed::lemma_fpmul_abs(
                            dt as int,
                            vx as int,
                            DT_MAX as int,
                            crate::vec3::POS_LIMIT as int,
                        );
                        crate::fixed::lemma_fpmul_abs(
                            dt as int,
                            vy as int,
                            DT_MAX as int,
                            crate::vec3::POS_LIMIT as int,
                        );
                        crate::fixed::lemma_fpmul_abs(
                            dt as int,
                            vz as int,
                            DT_MAX as int,
                            crate::vec3::POS_LIMIT as int,
                        );
                    }
                    Vec3 {
                        x: crate::vec3::clamp_c(
                            parent.position.x + crate::fixed::fpmul(dt, vx),
                        ),
                        y: crate::vec3::clamp_c(
                            parent.position.y + crate::fixed::fpmul(dt, vy),
                        ),
                        z: crate::vec3::clamp_c(
                            parent.position.z + crate::fixed::fpmul(dt, vz),
                        ),
                    }
                } else {
                    parent.position
                };
                let position: Vec3 = lerp_toward(s.current.position, tgt, fp);
                let rotation: Quat = quat_blend(&s.current.rotation, &parent.rotation, fr);
                let next = Transform { position, rotation };
                (
                    Driver::Smooth(
                        Smooth {
                            position_smoothness: s.position_smoothness,
                            rotation_smoothness: s.rotation_smoothness,
                            predictive: s.predictive,
                            prev_target: parent.position,
                            prev_dt: dt,
                            current: next,
                        },
                    ),
                    next,
                )
            },
            Driver::LookAt(l) => {
                let dir: Vec3 = vsub(l.target, parent.position);
                let goal: Quat = look_rotation(&dir);
                let rotation: Quat = if l.rotation_smoothness == 0 {
                    goal
                } else {
                    let fr: i64 = smooth_factor(dt, l.rotation_smoothness);
                    quat_blend(&l.current, &goal, fr)
                };
                (
                    Driver::LookAt(LookAt { current: rotation, ..l }),
                    Transform { position: parent.position, rotation },
                )
            },
        }
    }
}

/// One coordinate of the velocity estimate, exact per `velocity_comp_spec`.
fn velocity_comp(moved: i64, prev_dt: i64) -> (r: i64)
    requires
        -2_000_000_000_000_000 <= moved as int <= 2_000_000_000_000_000,
        0 <= prev_dt <= DT_MAX,
    ensures
        r as int == velocity_comp_spec(moved as int, prev_dt as int),
        -(crate::vec3::POS_LIMIT as int) <= r as int <= crate::vec3::POS_LIMIT as int,
{
    if prev_dt >= 1_000 {
        proof {
            let ca: int = if moved as int >= 0 {
                moved as int
            } else {
                -(moved as int)
            };
            assert(ca * (SCALE as int) <= (prev_dt as int) * 0x7fff_ffff_ffff_ffff)
                by (nonlinear_arith)
                requires
                    0 <= ca <= 2_000_000_000_000_000,
                    prev_dt as int >= 1_000,
            ;
        }
        crate::vec3::clamp_c(crate::fixed::muldiv_trunc(moved, SCALE, prev_dt as u128))
    } else {
        0
    }
}

/// Face along `dir`, exact per `look_rotation_spec`.
fn look_rotation(dir: &Vec3) -> (r: Quat)
    requires
        -2_000_000_000_000_000 <= dir.x as int <= 2_000_000_000_000_000,
        -2_000_000_000_000_000 <= dir.y as int <= 2_000_000_000_000_000,
        -2_000_000_000_000_000 <= dir.z as int <= 2_000_000_000_000_000,
    ensures
        r == look_rotation_spec(*dir),
        quat_wf(r),
{
    let n2: u128 = crate::vec3::vnorm2_u128(dir);
    if n2 < 1_000_000 {
        return crate::quat::Quat::identity();
    }
    let len: u128 = crate::fixed::isqrt128(n2);
    proof {
        crate::vec3::lemma_dir_comp_le_len(
            dir.x as int,
            dir.y as int,
            dir.z as int,
            len as int,
            n2 as int,
            1_000_000,
        );
    }
    let bx: i64 = muldiv_by_root(dir.x, len);
    let by: i64 = muldiv_by_root(dir.y, len);
    let bz: i64 = muldiv_by_root(dir.z, len);
    let raw = Quat { w: SCALE - bz, x: by, y: -bx, z: 0 };
    normalize(&raw)
}

} // verus!
