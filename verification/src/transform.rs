//! The camera transform: a position and a near-unit orientation.
//!
//! The coordinate convention is the right-handed one of the host cameras this
//! rig is meant to drive (forward along negative Z).

use vstd::prelude::*;
use crate::vec3::Vec3;
use crate::vec3::vec3_wf;
use crate::quat::Quat;
use crate::quat::quat_wf;

verus! {

/// A position and an orientation, the value one driver hands the next.
#[derive(Clone, Copy, PartialEq, Eq, Structural, Debug)]
pub struct Transform {
    pub position: Vec3,
    pub rotation: Quat,
}

/// A transform is well-formed when its position is stored-range and its
/// orientation is near-unit.
pub open spec fn transform_wf(t: Transform) -> bool {
    vec3_wf(t.position) && quat_wf(t.rotation)
}

impl Transform {
    /// The identity transform: origin position, identity orientation.
    pub open spec fn identity_spec() -> Transform {
        Transform { position: Vec3 { x: 0, y: 0, z: 0 }, rotation: Quat::identity_spec() }
    }

    /// The identity transform, the seed of every rig fold.
    pub fn identity() -> (r: Transform)
        ensures
            r == Transform::identity_spec(),
            transform_wf(r),
    {
        Transform { position: Vec3::zero(), rotation: Quat::identity() }
    }

    /// Build a transform from a position and an orientation.
    pub fn new(position: Vec3, rotation: Quat) -> (r: Transform)
        ensures
            r == (Transform { position, rotation }),
    {
        Transform { position, rotation }
    }
}

/// `b` applied relative to `a`: `b`'s position carried into `a`'s coordinate
/// space, and the two orientations composed and renormalized.
pub open spec fn compose_spec(a: Transform, b: Transform) -> Transform {
    Transform {
        position: crate::vec3::vadd_spec(
            a.position,
            crate::quat::rotate_spec(a.rotation, b.position),
        ),
        rotation: crate::quat::normalize_spec(crate::quat::quat_mul_spec(a.rotation, b.rotation)),
    }
}

/// Apply one transform relative to another, exact per `compose_spec`.
pub fn compose(a: &Transform, b: &Transform) -> (r: Transform)
    requires
        transform_wf(*a),
        transform_wf(*b),
    ensures
        r == compose_spec(*a, *b),
        transform_wf(r),
{
    let rotated = crate::quat::rotate_vec(&a.rotation, &b.position);
    let position = crate::vec3::vadd(a.position, rotated);
    let rotation = crate::quat::normalize(&crate::quat::quat_mul(&a.rotation, &b.rotation));
    Transform { position, rotation }
}

} // verus!
