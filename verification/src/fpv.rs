//! A first-person-view composite driver.
//!
//! `Fpv` owns an entire rig — position, absolute rotation, yaw/pitch control
//! and smoothing — and exposes it as a single unit whose update delegates to
//! the nested rig's fold, showing that driver chains are closed under
//! composition. On top it layers mouse-delta yaw/pitch rotation with
//! sensitivity scaling, time-scaled movement translation, an optional lock of
//! the camera's yaw axis, and an exponential boost multiplier on movement.

use vstd::prelude::*;
use crate::fixed::SCALE;
use crate::fixed::DT_MAX;
use crate::fixed::fpmul;
use crate::fixed::fpmul_spec;
use crate::fixed::fpow;
use crate::fixed::fpow_spec;
use crate::fixed::muldiv_trunc;
use crate::fixed::muldiv_trunc_spec;
use crate::fixed::rem_trunc_spec;
use crate::fixed::lemma_fpmul_abs;
use crate::vec3::Vec3;
use crate::vec3::vec3_wf;
use crate::vec3::vadd_spec;
use crate::vec3::clamp_length_max;
use crate::vec3::clamp_length_spec;
use crate::quat::Quat;
use crate::quat::quat_comps_le;
use crate::quat::QCOMP_LIMIT;
use crate::quat::normalize;
use crate::quat::normalize_spec;
use crate::quat::rotate_vec;
use crate::quat::rotate_spec;
use crate::transform::Transform;
use crate::transform::transform_wf;
use crate::driver::Driver;
use crate::driver::DriverKind;
use crate::driver::kind_of;
use crate::driver::Position;
use crate::driver::Rotation;
use crate::driver::YawPitch;
use crate::driver::Smooth;
use crate::driver::yawpitch_wf;
use crate::driver::clamp_pitch_spec;
use crate::driver::YAW_RANGE;
use crate::rig::Rig;
use crate::rig::rig_wf;
use crate::rig::rig_run;
use crate::rig::has_kind;
use crate::rig::yawpitch_of;
use crate::rig::position_of;
use crate::rig::lemma_rig_run_kinds;

verus! {

/// Position smoothing time-constant of the nested rig: one second.
pub const FPV_POSITION_SMOOTHNESS: i64 = 1_000_000;

/// Rotation smoothing time-constant of the nested rig: a tenth of a second.
pub const FPV_ROTATION_SMOOTHNESS: i64 = 100_000;

/// Mouse deltas turn the camera opposite their direction, a tenth strength.
pub const MOUSE_FACTOR: i64 = -100_000;

/// Movement translation is scaled by ten units per second.
pub const MOVE_FACTOR: i64 = 10_000_000;

/// A camera rig packaged as a first-person-view unit.
pub struct Fpv {
    pub rig: Rig,
}

/// The fixed shape of the nested rig: position, rotation, yaw/pitch,
/// smoothing, in that order.
pub open spec fn fpv_wf(f: Fpv) -> bool {
    &&& rig_wf(f.rig)
    &&& f.rig.drivers@.len() == 4
    &&& kind_of(f.rig.drivers@[0]) == DriverKind::Position
    &&& kind_of(f.rig.drivers@[1]) == DriverKind::Rotation
    &&& kind_of(f.rig.drivers@[2]) == DriverKind::YawPitch
    &&& kind_of(f.rig.drivers@[3]) == DriverKind::Smooth
}

impl Fpv {
    /// Build the rig around a tracked transform: its position and rotation
    /// seed the first two drivers, and the yaw/pitch angles the host derived
    /// from the tracked rotation seed the third; smoothing comes last.
    pub fn from_position_target(target: Transform, yaw_degrees: i64, pitch_degrees: i64) -> (r:
        Fpv)
        requires
            transform_wf(target),
            yawpitch_wf(YawPitch { yaw_degrees, pitch_degrees }),
        ensures
            r.rig.drivers@ == seq![
                Driver::Position(Position { position: target.position }),
                Driver::Rotation(Rotation { rotation: target.rotation }),
                Driver::YawPitch(YawPitch { yaw_degrees, pitch_degrees }),
                Driver::Smooth(
                    Smooth {
                        position_smoothness: FPV_POSITION_SMOOTHNESS,
                        rotation_smoothness: FPV_ROTATION_SMOOTHNESS,
                        predictive: false,
                        prev_target: Vec3::zero_spec(),
                        prev_dt: 0,
                        current: Transform::identity_spec(),
                    },
                ),
            ],
            r.rig.final_transform == Transform::identity_spec(),
            fpv_wf(r),
    {
        let yp = YawPitch { yaw_degrees, pitch_degrees };
        let b = Rig::builder();
        let b = b.with(Driver::Position(Position { position: target.position }));
        let b = b.with(Driver::Rotation(Rotation { rotation: target.rotation }));
        let b = b.with(Driver::YawPitch(yp));
        let b = b.with(
            Driver::Smooth(
                Smooth::new_position_rotation(FPV_POSITION_SMOOTHNESS, FPV_ROTATION_SMOOTHNESS),
            ),
        );
        let rig = b.build();
        proof {
            assert(rig.drivers@ =~= seq![
                Driver::Position(Position { position: target.position }),
                Driver::Rotation(Rotation { rotation: target.rotation }),
                Driver::YawPitch(YawPitch { yaw_degrees, pitch_degrees }),
                Driver::Smooth(
                    Smooth {
                        position_smoothness: FPV_POSITION_SMOOTHNESS,
                        rotation_smoothness: FPV_ROTATION_SMOOTHNESS,
                        predictive: false,
                        prev_target: Vec3::zero_spec(),
                        prev_dt: 0,
                        current: Transform::identity_spec(),
                    },
                ),
            ]);
        }
        Fpv { rig }
    }

    /// Run the nested rig for this frame: the composite acts as one driver.
    pub fn update(&mut self, dt: i64) -> (out: Transform)
        requires
            fpv_wf(*old(self)),
            0 <= dt <= DT_MAX,
        ensures
            out == rig_run(old(self).rig.drivers@, Transform::identity_spec(), dt as int).1,
            final(self).rig.drivers@ == rig_run(
                old(self).rig.drivers@,
                Transform::identity_spec(),
                dt as int,
            ).0,
            final(self).rig.final_transform == out,
            transform_wf(out),
            fpv_wf(*final(self)),
    {
        let out: Transform = self.rig.update(dt);
        proof {
            lemma_rig_run_kinds(
                old(self).rig.drivers@,
                Transform::identity_spec(),
                dt as int,
            );
        }
        out
    }

    /// Turn by the frame's mouse delta scaled by sensitivity, and translate
    /// by the tracked movement scaled by elapsed time and the speed factor.
    pub fn set_rotation(
        &mut self,
        delta_mouse_x: i64,
        delta_mouse_y: i64,
        sensitivity_x: i64,
        sensitivity_y: i64,
        player_position: Vec3,
        dt: i64,
    )
        requires
            fpv_wf(*old(self)),
            -1_000_000_000_000 <= delta_mouse_x as int <= 1_000_000_000_000,
            -1_000_000_000_000 <= delta_mouse_y as int <= 1_000_000_000_000,
            -16_000_000 <= sensitivity_x as int <= 16_000_000,
            -16_000_000 <= sensitivity_y as int <= 16_000_000,
            vec3_wf(player_position),
            0 <= dt <= DT_MAX,
        ensures
            ({
                let o = old(self).rig.drivers@;
                let y: YawPitch = yawpitch_of(o[2]);
                let p: Position = position_of(o[0]);
                let dyaw: int = fpmul_spec(
                    MOUSE_FACTOR as int,
                    fpmul_spec(sensitivity_x as int, delta_mouse_x as int),
                );
                let dpitch: int = fpmul_spec(
                    MOUSE_FACTOR as int,
                    fpmul_spec(sensitivity_y as int, delta_mouse_y as int),
                );
                let delta = Vec3 {
                    x: fpmul_spec(
                        MOVE_FACTOR as int,
                        fpmul_spec(dt as int, player_position.x as int),
                    ) as i64,
                    y: fpmul_spec(
                        MOVE_FACTOR as int,
                        fpmul_spec(dt as int, player_position.y as int),
                    ) as i64,
                    z: fpmul_spec(
                        MOVE_FACTOR as int,
                        fpmul_spec(dt as int, player_position.z as int),
                    ) as i64,
                };
                final(self).rig.drivers@ == o.update(
                    2,
                    Driver::YawPitch(
                        YawPitch {
                            yaw_degrees: rem_trunc_spec(
                                y.yaw_degrees as int + dyaw,
                                YAW_RANGE as int,
                            ) as i64,
                            pitch_degrees: clamp_pitch_spec(
                                y.pitch_degrees as int + dpitch,
                            ) as i64,
                        },
                    ),
                ).update(
                    0,
                    Driver::Position(Position { position: vadd_spec(p.position, delta) }),
                )
            }),
            final(self).rig.final_transform == old(self).rig.final_transform,
            fpv_wf(*final(self)),
    {
        proof {
            lemma_fpmul_abs(
                sensitivity_x as int,
                delta_mouse_x as int,
                16_000_000,
                1_000_000_000_000,
            );
            lemma_fpmul_abs(
                sensitivity_y as int,
                delta_mouse_y as int,
                16_000_000,
                1_000_000_000_000,
            );
        }
        let sx: i64 = fpmul(sensitivity_x, delta_mouse_x);
        let sy: i64 = fpmul(sensitivity_y, delta_mouse_y);
        proof {
            lemma_fpmul_abs(MOUSE_FACTOR as int, sx as int, 100_000, 16_000_000_000_000);
            lemma_fpmul_abs(MOUSE_FACTOR as int, sy as int, 100_000, 16_000_000_000_000);
        }
        let dyaw: i64 = fpmul(MOUSE_FACTOR, sx);
        let dpitch: i64 = fpmul(MOUSE_FACTOR, sy);
        proof {
            assert(kind_of(self.rig.drivers@[2]) == DriverKind::YawPitch);
            assert(has_kind(self.rig.drivers@, DriverKind::YawPitch));
            crate::rig::lemma_first_index(self.rig.drivers@, DriverKind::YawPitch, 2);
        }
        self.rig.rotate_yaw_pitch(dyaw, dpitch);
        proof {
            lemma_fpmul_abs(dt as int, player_position.x as int, DT_MAX as int, 1_000_000_000_000_000);
            lemma_fpmul_abs(dt as int, player_position.y as int, DT_MAX as int, 1_000_000_000_000_000);
            lemma_fpmul_abs(dt as int, player_position.z as int, DT_MAX as int, 1_000_000_000_000_000);
        }
        let mx: i64 = fpmul(dt, player_position.x);
        let my: i64 = fpmul(dt, player_position.y);
        let mz: i64 = fpmul(dt, player_position.z);
        proof {
            lemma_fpmul_abs(MOVE_FACTOR as int, mx as int, MOVE_FACTOR as int, 10_000_000_000_000_000);
            lemma_fpmul_abs(MOVE_FACTOR as int, my as int, MOVE_FACTOR as int, 10_000_000_000_000_000);
            lemma_fpmul_abs(MOVE_FACTOR as int, mz as int, MOVE_FACTOR as int, 10_000_000_000_000_000);
        }
        let delta = Vec3 { x: fpmul(MOVE_FACTOR, mx), y: fpmul(MOVE_FACTOR, my), z: fpmul(
            MOVE_FACTOR,
            mz,
        ) };
        proof {
            assert(kind_of(self.rig.drivers@[0]) == DriverKind::Position);
            assert(has_kind(self.rig.drivers@, DriverKind::Position));
            crate::rig::lemma_first_index(self.rig.drivers@, DriverKind::Position, 0);
        }
        self.rig.translate_position(delta);
    }

    /// The movement vector of this frame: the tracked direction clamped to
    /// unit length, rotated into camera space, and scaled by the boost
    /// multiplier raised to the boost level. With `lock_y` the camera's
    /// orientation first loses its sideways axis components (renormalized),
    /// and that locked orientation is written back to the cached transform.
    pub fn set_position(
        &mut self,
        player_position: Vec3,
        boost: u32,
        boost_mult: i64,
        lock_y: bool,
    ) -> (r: Vec3)
        requires
            fpv_wf(*old(self)),
            vec3_wf(player_position),
            boost <= 100,
            0 <= boost_mult <= 16_000_000,
        ensures
            ({
                let q0 = old(self).rig.final_transform.rotation;
                let rot = if lock_y {
                    normalize_spec(Quat { w: q0.w, x: 0, y: q0.y, z: 0 })
                } else {
                    q0
                };
                let moved = rotate_spec(rot, clamp_length_spec(player_position));
                let m: int = fpow_spec(boost_mult as int, boost as nat);
                &&& final(self).rig.final_transform.rotation == rot
                &&& final(self).rig.final_transform.position == old(
                    self,
                ).rig.final_transform.position
                &&& r == (Vec3 {
                    x: muldiv_trunc_spec(moved.x as int, m, SCALE as int) as i64,
                    y: muldiv_trunc_spec(moved.y as int, m, SCALE as int) as i64,
                    z: muldiv_trunc_spec(moved.z as int, m, SCALE as int) as i64,
                })
            }),
            final(self).rig.drivers@ == old(self).rig.drivers@,
            fpv_wf(*final(self)),
    {
        let rot: Quat = if lock_y {
            let q0: Quat = self.rig.final_transform.rotation;
            let locked: Quat = normalize(&Quat { w: q0.w, x: 0, y: q0.y, z: 0 });
            self.rig.final_transform = Transform {
                position: self.rig.final_transform.position,
                rotation: locked,
            };
            locked
        } else {
            self.rig.final_transform.rotation
        };
        let dir: Vec3 = clamp_length_max(&player_position);
        let moved: Vec3 = rotate_vec(&rot, &dir);
        proof {
            lemma_rotate_small(rot, dir);
        }
        let m: i64 = fpow(boost_mult, boost);
        proof {
            lemma_move_fits(moved.x as int, m as int);
            lemma_move_fits(moved.y as int, m as int);
            lemma_move_fits(moved.z as int, m as int);
        }
        let rx: i64 = muldiv_trunc(moved.x, m, 1_000_000);
        let ry: i64 = muldiv_trunc(moved.y, m, 1_000_000);
        let rz: i64 = muldiv_trunc(moved.z, m, 1_000_000);
        Vec3 { x: rx, y: ry, z: rz }
    }
}

/// Rotating a unit-clamped vector keeps every coordinate small.
proof fn lemma_rotate_small(q: Quat, v: Vec3)
    requires
        quat_comps_le(q, QCOMP_LIMIT as int),
        -(SCALE as int) <= v.x as int <= SCALE as int,
        -(SCALE as int) <= v.y as int <= SCALE as int,
        -(SCALE as int) <= v.z as int <= SCALE as int,
    ensures
        -50_000_000 <= rotate_spec(q, v).x as int <= 50_000_000,
        -50_000_000 <= rotate_spec(q, v).y as int <= 50_000_000,
        -50_000_000 <= rotate_spec(q, v).z as int <= 50_000_000,
{
    let lim: int = QCOMP_LIMIT as int;
    let s: int = SCALE as int;
    lemma_fpmul_abs(q.y as int, v.z as int, lim, s);
    lemma_fpmul_abs(q.z as int, v.y as int, lim, s);
    lemma_fpmul_abs(q.z as int, v.x as int, lim, s);
    lemma_fpmul_abs(q.x as int, v.z as int, lim, s);
    lemma_fpmul_abs(q.x as int, v.y as int, lim, s);
    lemma_fpmul_abs(q.y as int, v.x as int, lim, s);
    let tx: int = 2 * (fpmul_spec(q.y as int, v.z as int) - fpmul_spec(q.z as int, v.y as int));
    let ty: int = 2 * (fpmul_spec(q.z as int, v.x as int) - fpmul_spec(q.x as int, v.z as int));
    let tz: int = 2 * (fpmul_spec(q.x as int, v.y as int) - fpmul_spec(q.y as int, v.x as int));
    lemma_fpmul_abs(q.w as int, tx, lim, 8_000_000);
    lemma_fpmul_abs(q.w as int, ty, lim, 8_000_000);
    lemma_fpmul_abs(q.w as int, tz, lim, 8_000_000);
    lemma_fpmul_abs(q.y as int, tz, lim, 8_000_000);
    lemma_fpmul_abs(q.z as int, ty, lim, 8_000_000);
    lemma_fpmul_abs(q.z as int, tx, lim, 8_000_000);
    lemma_fpmul_abs(q.x as int, tz, lim, 8_000_000);
    lemma_fpmul_abs(q.x as int, ty, lim, 8_000_000);
    lemma_fpmul_abs(q.y as int, tx, lim, 8_000_000);
}

/// The boosted movement product stays inside the divisor precondition.
proof fn lemma_move_fits(c: int, m: int)
    requires
        -50_000_000 <= c <= 50_000_000,
        0 <= m <= crate::fixed::FPOW_CAP as int,
    ensures
        (if c >= 0 {
            c
        } else {
            -c
        }) * m <= 1_000_000 * 0x7fff_ffff_ffff_ffff,
{
    let ca: int = if c >= 0 {
        c
    } else {
        -c
    };
    assert(ca * m <= 1_000_000 * 0x7fff_ffff_ffff_ffff) by (nonlinear_arith)
        requires
            0 <= ca <= 50_000_000,
            0 <= m <= crate::fixed::FPOW_CAP as int,
    ;
}

} // verus!
