//! The camera rig: an ordered chain of drivers folded once per frame.
//!
//! `update` seeds the fold with the identity transform; each driver consumes
//! its predecessor's output, and the last output is the camera transform of
//! the frame. Driver lookups are by kind and deterministically take the first
//! match in registration order.

use vstd::prelude::*;
use crate::fixed::DT_MAX;
use crate::driver::Driver;
use crate::driver::DriverKind;
use crate::driver::driver_wf;
use crate::driver::driver_update_spec;
use crate::driver::kind_of;
use crate::driver::YawPitch;
use crate::driver::Position;
use crate::transform::Transform;
use crate::transform::transform_wf;
use crate::vec3::Vec3;
use crate::vec3::WIDE_LIMIT;
use crate::vec3::vadd_spec;
use crate::fixed::rem_trunc_spec;

verus! {

/// An ordered chain of drivers and the transform of the last update.
pub struct Rig {
    pub drivers: Vec<Driver>,
    /// The output of the most recent `update`; the identity before the first.
    pub final_transform: Transform,
}

/// Every driver is well-formed, and so is the cached output.
pub open spec fn rig_wf(r: Rig) -> bool {
    (forall|i: int| 0 <= i < r.drivers@.len() ==> driver_wf(#[trigger] r.drivers@[i]))
        && transform_wf(r.final_transform)
}

/// The fold of a driver chain: each driver consumes its predecessor's output,
/// starting from `parent`; yields the updated drivers and the final transform.
pub open spec fn rig_run(ds: Seq<Driver>, parent: Transform, dt: int) -> (Seq<Driver>,
    Transform)
    decreases ds.len(),
{
    if ds.len() == 0 {
        (ds, parent)
    } else {
        let stepped = driver_update_spec(ds[0], parent, dt);
        let rest = rig_run(ds.skip(1), stepped.1, dt);
        (seq![stepped.0].add(rest.0), rest.1)
    }
}

/// Unrolls the fold of a suffix by one driver.
proof fn lemma_rig_run_unfold(ds: Seq<Driver>, i: int, parent: Transform, dt: int)
    requires
        0 <= i < ds.len(),
    ensures
        rig_run(ds.skip(i), parent, dt).0 == seq![
            driver_update_spec(ds[i], parent, dt).0,
        ].add(rig_run(ds.skip(i + 1), driver_update_spec(ds[i], parent, dt).1, dt).0),
        rig_run(ds.skip(i), parent, dt).1 == rig_run(
            ds.skip(i + 1),
            driver_update_spec(ds[i], parent, dt).1,
            dt,
        ).1,
{
    assert(ds.skip(i).len() == ds.len() - i);
    assert(ds.skip(i)[0] == ds[i]);
    assert(ds.skip(i).skip(1) =~= ds.skip(i + 1));
}

/// A fold rewrites driver state but never the chain's length or its kinds.
pub proof fn lemma_rig_run_kinds(ds: Seq<Driver>, parent: Transform, dt: int)
    ensures
        rig_run(ds, parent, dt).0.len() == ds.len(),
        forall|i: int|
            0 <= i < ds.len() ==> kind_of(#[trigger] rig_run(ds, parent, dt).0[i]) == kind_of(
                ds[i],
            ),
    decreases ds.len(),
{
    if ds.len() > 0 {
        let st = driver_update_spec(ds[0], parent, dt);
        assert(kind_of(st.0) == kind_of(ds[0]));
        lemma_rig_run_kinds(ds.skip(1), st.1, dt);
        assert forall|i: int| 0 <= i < ds.len() implies kind_of(
            #[trigger] rig_run(ds, parent, dt).0[i],
        ) == kind_of(ds[i]) by {
            if i > 0 {
                assert(rig_run(ds, parent, dt).0[i] == rig_run(ds.skip(1), st.1, dt).0[i - 1]);
                assert(ds.skip(1)[i - 1] == ds[i]);
            }
        }
    }
}

/// The index of the first driver of kind `k`, or `-1` when none is present.
pub open spec fn first_index_of(ds: Seq<Driver>, k: DriverKind) -> int
    decreases ds.len(),
{
    if ds.len() == 0 {
        -1
    } else if kind_of(ds[0]) == k {
        0
    } else {
        let r: int = first_index_of(ds.skip(1), k);
        if r < 0 {
            -1
        } else {
            r + 1
        }
    }
}

/// Some driver of kind `k` is present.
pub open spec fn has_kind(ds: Seq<Driver>, k: DriverKind) -> bool {
    exists|i: int| 0 <= i < ds.len() && kind_of(#[trigger] ds[i]) == k
}

/// A first match with no earlier match pins `first_index_of` down.
pub proof fn lemma_first_index(ds: Seq<Driver>, k: DriverKind, i: int)
    requires
        0 <= i < ds.len(),
        kind_of(ds[i]) == k,
        forall|j: int| 0 <= j < i ==> kind_of(#[trigger] ds[j]) != k,
    ensures
        first_index_of(ds, k) == i,
    decreases i,
{
    if i == 0 {
    } else {
        assert(kind_of(ds[0]) != k);
        assert(ds.skip(1)[i - 1] == ds[i]);
        assert(forall|j: int| 0 <= j < i - 1 ==> kind_of(#[trigger] ds.skip(1)[j]) != k);
        lemma_first_index(ds.skip(1), k, i - 1);
    }
}

/// With no match at all, `first_index_of` is negative.
proof fn lemma_no_index(ds: Seq<Driver>, k: DriverKind)
    requires
        forall|j: int| 0 <= j < ds.len() ==> kind_of(#[trigger] ds[j]) != k,
    ensures
        first_index_of(ds, k) == -1,
    decreases ds.len(),
{
    if ds.len() > 0 {
        assert(forall|j: int| 0 <= j < ds.len() - 1 ==> kind_of(#[trigger] ds.skip(1)[j]) != k);
        lemma_no_index(ds.skip(1), k);
    }
}

/// Builds a rig by appending drivers in evaluation order.
pub struct RigBuilder {
    pub drivers: Vec<Driver>,
}

impl RigBuilder {
    /// Append the next driver of the chain.
    pub fn with(self, d: Driver) -> (r: RigBuilder)
        requires
            driver_wf(d),
            forall|i: int| 0 <= i < self.drivers@.len() ==> driver_wf(#[trigger] self.drivers@[i]),
        ensures
            r.drivers@ == self.drivers@.push(d),
            forall|i: int| 0 <= i < r.drivers@.len() ==> driver_wf(#[trigger] r.drivers@[i]),
    {
        let mut drivers = self.drivers;
        drivers.push(d);
        RigBuilder { drivers }
    }

    /// Finish: the rig starts with the identity as its cached output.
    pub fn build(self) -> (r: Rig)
        requires
            forall|i: int| 0 <= i < self.drivers@.len() ==> driver_wf(#[trigger] self.drivers@[i]),
        ensures
            r.drivers@ == self.drivers@,
            r.final_transform == Transform::identity_spec(),
            rig_wf(r),
    {
        Rig { drivers: self.drivers, final_transform: Transform::identity() }
    }
}

impl Rig {
    /// Start building a rig.
    pub fn builder() -> (r: RigBuilder)
        ensures
            r.drivers@.len() == 0,
    {
        RigBuilder { drivers: Vec::new() }
    }

    /// Fold the whole chain over the elapsed time, seeded with the identity;
    /// the result is the camera transform of this frame, and is cached.
    pub fn update(&mut self, dt: i64) -> (out: Transform)
        requires
            rig_wf(*old(self)),
            0 <= dt <= DT_MAX,
        ensures
            final(self).drivers@ == rig_run(
                old(self).drivers@,
                Transform::identity_spec(),
                dt as int,
            ).0,
            out == rig_run(old(self).drivers@, Transform::identity_spec(), dt as int).1,
            final(self).final_transform == out,
            transform_wf(out),
            rig_wf(*final(self)),
    {
        let ghost orig: Seq<Driver> = self.drivers@;
        let mut acc: Transform = Transform::identity();
        let n: usize = self.drivers.len();
        proof {
            assert(orig.skip(0) =~= orig);
            assert(Seq::<Driver>::empty().add(rig_run(orig, Transform::identity_spec(),
                dt as int).0) =~= rig_run(orig, Transform::identity_spec(), dt as int).0);
            assert(orig.take(0) =~= Seq::<Driver>::empty());
        }
        let mut i: usize = 0;
        while i < n
            invariant
                0 <= i <= n,
                self.drivers@.len() == n,
                orig.len() == n,
                0 <= dt <= DT_MAX,
                transform_wf(acc),
                forall|j: int| i <= j < n ==> self.drivers@[j] == orig[j],
                forall|j: int| 0 <= j < n ==> driver_wf(#[trigger] orig[j]),
                forall|j: int| 0 <= j < i ==> driver_wf(#[trigger] self.drivers@[j]),
                rig_run(orig, Transform::identity_spec(), dt as int).1 == rig_run(
                    orig.skip(i as int),
                    acc,
                    dt as int,
                ).1,
                rig_run(orig, Transform::identity_spec(), dt as int).0 == self.drivers@.take(
                    i as int,
                ).add(rig_run(orig.skip(i as int), acc, dt as int).0),
            decreases n - i,
        {
            let ghost pre: Seq<Driver> = self.drivers@;
            let d: Driver = self.drivers.remove(i);
            let stepped: (Driver, Transform) = d.update(&acc, dt);
            self.drivers.insert(i, stepped.0);
            proof {
                lemma_rig_run_unfold(orig, i as int, acc, dt as int);
                assert(self.drivers@ =~= pre.update(i as int, stepped.0));
                assert(self.drivers@.take(i as int + 1) =~= pre.take(i as int).push(
                    stepped.0));
                assert(pre.take(i as int).add(seq![stepped.0].add(rig_run(
                    orig.skip(i as int + 1), stepped.1, dt as int).0)) =~= self.drivers@.take(
                    i as int + 1).add(rig_run(orig.skip(i as int + 1), stepped.1, dt as int).0));
            }
            acc = stepped.1;
            i = i + 1;
        }
        proof {
            assert(orig.skip(n as int).len() == 0);
            assert(self.drivers@.take(n as int) =~= self.drivers@);
        }
        self.final_transform = acc;
        acc
    }

    /// Find the first driver of the given kind, in registration order.
    pub fn find_driver(&self, kind: DriverKind) -> (r: Option<usize>)
        ensures
            match r {
                Some(i) => i < self.drivers@.len() && kind_of(self.drivers@[i as int]) == kind
                    && first_index_of(self.drivers@, kind) == i as int,
                None => !has_kind(self.drivers@, kind),
            },
    {
        let n: usize = self.drivers.len();
        let mut i: usize = 0;
        while i < n
            invariant
                0 <= i <= n,
                n == self.drivers@.len(),
                forall|j: int| 0 <= j < i ==> kind_of(#[trigger] self.drivers@[j]) != kind,
            decreases n - i,
        {
            let k: DriverKind = self.drivers[i].kind();
            if k == kind {
                proof {
                    lemma_first_index(self.drivers@, kind, i as int);
                }
                return Some(i);
            }
            i = i + 1;
        }
        None
    }
}

impl Driver {
    /// The kind of this driver.
    pub fn kind(&self) -> (k: DriverKind)
        ensures
            k == kind_of(*self),
    {
        match self {
            Driver::Position(_) => DriverKind::Position,
            Driver::Rotation(_) => DriverKind::Rotation,
            Driver::Arm(_) => DriverKind::Arm,
            Driver::YawPitch(_) => DriverKind::YawPitch,
            Driver::Smooth(_) => DriverKind::Smooth,
            Driver::LookAt(_) => DriverKind::LookAt,
        }
    }
}

/// The yaw/pitch state of a driver known to be of that kind.
pub open spec fn yawpitch_of(d: Driver) -> YawPitch {
    match d {
        Driver::YawPitch(y) => y,
        _ => YawPitch { yaw_degrees: 0, pitch_degrees: 0 },
    }
}

/// The position state of a driver known to be of that kind.
pub open spec fn position_of(d: Driver) -> Position {
    match d {
        Driver::Position(p) => p,
        _ => Position { position: Vec3 { x: 0, y: 0, z: 0 } },
    }
}

impl Rig {
    /// Additively rotate the first `YawPitch` driver; the rig must hold one,
    /// as a rig built for yaw/pitch control does.
    pub fn rotate_yaw_pitch(&mut self, yaw_degrees: i64, pitch_degrees: i64)
        requires
            rig_wf(*old(self)),
            has_kind(old(self).drivers@, DriverKind::YawPitch),
            -8_000_000_000_000_000_000 <= yaw_degrees as int <= 8_000_000_000_000_000_000,
            -8_000_000_000_000_000_000 <= pitch_degrees as int <= 8_000_000_000_000_000_000,
        ensures
            ({
                let idx: int = first_index_of(old(self).drivers@, DriverKind::YawPitch);
                let y: YawPitch = yawpitch_of(old(self).drivers@[idx]);
                &&& 0 <= idx < old(self).drivers@.len()
                &&& final(self).drivers@ == old(self).drivers@.update(
                    idx,
                    Driver::YawPitch(
                        YawPitch {
                            yaw_degrees: rem_trunc_spec(
                                y.yaw_degrees as int + yaw_degrees as int,
                                crate::driver::YAW_RANGE as int,
                            ) as i64,
                            pitch_degrees: crate::driver::clamp_pitch_spec(
                                y.pitch_degrees as int + pitch_degrees as int,
                            ) as i64,
                        },
                    ),
                )
            }),
            final(self).final_transform == old(self).final_transform,
            rig_wf(*final(self)),
    {
        let found: Option<usize> = self.find_driver(DriverKind::YawPitch);
        match found {
            Some(i) => {
                let d: Driver = self.drivers.remove(i);
                match d {
                    Driver::YawPitch(mut y) => {
                        y.rotate_yaw_pitch(yaw_degrees, pitch_degrees);
                        self.drivers.insert(i, Driver::YawPitch(y));
                        proof {
                            assert(self.drivers@ =~= old(self).drivers@.update(
                                i as int,
                                Driver::YawPitch(y),
                            ));
                        }
                    },
                    _ => {
                        vstd::pervasive::unreached::<()>();
                    },
                }
            },
            None => {
                vstd::pervasive::unreached::<()>();
            },
        }
    }

    /// Translate the first `Position` driver by `delta` (clamped); the rig
    /// must hold one, as a rig built for movement does.
    pub fn translate_position(&mut self, delta: Vec3)
        requires
            rig_wf(*old(self)),
            has_kind(old(self).drivers@, DriverKind::Position),
            -(WIDE_LIMIT as int) <= delta.x as int <= WIDE_LIMIT as int,
            -(WIDE_LIMIT as int) <= delta.y as int <= WIDE_LIMIT as int,
            -(WIDE_LIMIT as int) <= delta.z as int <= WIDE_LIMIT as int,
        ensures
            ({
                let idx: int = first_index_of(old(self).drivers@, DriverKind::Position);
                let p: Position = position_of(old(self).drivers@[idx]);
                &&& 0 <= idx < old(self).drivers@.len()
                &&& final(self).drivers@ == old(self).drivers@.update(
                    idx,
                    Driver::Position(Position { position: vadd_spec(p.position, delta) }),
                )
            }),
            final(self).final_transform == old(self).final_transform,
            rig_wf(*final(self)),
    {
        let found: Option<usize> = self.find_driver(DriverKind::Position);
        match found {
            Some(i) => {
                let d: Driver = self.drivers.remove(i);
                match d {
                    Driver::Position(mut p) => {
                        p.translate(delta);
                        self.drivers.insert(i, Driver::Position(p));
                        proof {
                            assert(self.drivers@ =~= old(self).drivers@.update(
                                i as int,
                                Driver::Position(p),
                            ));
                        }
                    },
                    _ => {
                        vstd::pervasive::unreached::<()>();
                    },
                }
            },
            None => {
                vstd::pervasive::unreached::<()>();
            },
        }
    }

    /// Overwrite the position of the first `Position` driver; the rig must
    /// hold one.
    pub fn set_position_target(&mut self, position: Vec3)
        requires
            rig_wf(*old(self)),
            has_kind(old(self).drivers@, DriverKind::Position),
            crate::vec3::vec3_wf(position),
        ensures
            ({
                let idx: int = first_index_of(old(self).drivers@, DriverKind::Position);
                &&& 0 <= idx < old(self).drivers@.len()
                &&& final(self).drivers@ == old(self).drivers@.update(
                    idx,
                    Driver::Position(Position { position }),
                )
            }),
            final(self).final_transform == old(self).final_transform,
            rig_wf(*final(self)),
    {
        let found: Option<usize> = self.find_driver(DriverKind::Position);
        match found {
            Some(i) => {
                let d: Driver = self.drivers.remove(i);
                match d {
                    Driver::Position(_) => {
                        self.drivers.insert(i, Driver::Position(Position { position }));
                        proof {
                            assert(self.drivers@ =~= old(self).drivers@.update(
                                i as int,
                                Driver::Position(Position { position }),
                            ));
                        }
                    },
                    _ => {
                        vstd::pervasive::unreached::<()>();
                    },
                }
            },
            None => {
                vstd::pervasive::unreached::<()>();
            },
        }
    }
}

} // verus!
