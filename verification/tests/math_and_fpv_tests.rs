use camera_rig::driver::Driver;
use camera_rig::driver::YawPitch;
use camera_rig::fixed::cos_fp;
use camera_rig::fixed::exp_neg;
use camera_rig::fixed::fpmul;
use camera_rig::fixed::fpow;
use camera_rig::fixed::isqrt128;
use camera_rig::fixed::sin_fp;
use camera_rig::fixed::SCALE;
use camera_rig::fpv::Fpv;
use camera_rig::quat::Quat;
use camera_rig::transform::Transform;
use camera_rig::vec3::clamp_length_max;
use camera_rig::vec3::Vec3;

const SECOND: i64 = 1_000_000;
const DEG: i64 = 1_000_000;

#[test]
fn fixed_product_truncates_toward_zero() {
    assert_eq!(fpmul(500_000, 3_000_000), 1_500_000);
    assert_eq!(fpmul(-500_000, 3_000_000), -1_500_000);
    assert_eq!(fpmul(1, 1), 0);
    assert_eq!(fpmul(-1, 1), 0);
    assert_eq!(fpmul(SCALE, 123_456), 123_456);
}

#[test]
fn decay_is_one_at_zero_and_falls_off() {
    assert_eq!(exp_neg(0), SCALE);
    assert_eq!(exp_neg(SECOND), 368_098);
    assert!(exp_neg(2 * SECOND) < exp_neg(SECOND));
    assert_eq!(exp_neg(20 * SECOND), 0);
}

#[test]
fn sine_hits_exact_landmarks() {
    assert_eq!(sin_fp(0), 0);
    assert_eq!(sin_fp(30 * DEG), 500_000);
    assert_eq!(sin_fp(90 * DEG), SCALE);
    assert_eq!(sin_fp(180 * DEG), 0);
    assert_eq!(sin_fp(-90 * DEG), -SCALE);
    assert_eq!(cos_fp(0), SCALE);
    assert_eq!(cos_fp(90 * DEG), 0);
    assert_eq!(cos_fp(-60 * DEG), 500_000);
}

#[test]
fn integer_square_root_brackets_its_input() {
    assert_eq!(isqrt128(0), 0);
    assert_eq!(isqrt128(1), 1);
    assert_eq!(isqrt128(999_999), 999);
    assert_eq!(isqrt128(1_000_000_000_000), 1_000_000);
    for n in [2u128, 17, 4_000_000_000_000, 123_456_789_012_345] {
        let r = isqrt128(n);
        assert!(r * r <= n);
        assert!((r + 1) * (r + 1) > n);
    }
}

#[test]
fn saturating_power_multiplies_step_by_step() {
    assert_eq!(fpow(2 * SCALE, 0), SCALE);
    assert_eq!(fpow(2 * SCALE, 1), 2 * SCALE);
    assert_eq!(fpow(2 * SCALE, 3), 8 * SCALE);
    assert_eq!(fpow(500_000, 2), 250_000);
    assert_eq!(fpow(0, 2), 0);
}

#[test]
fn clamp_length_shortens_only_long_vectors() {
    let short = Vec3::new(300_000, 400_000, 0);
    assert_eq!(clamp_length_max(&short), short);
    let long = Vec3::new(2 * SCALE, 0, 0);
    assert_eq!(clamp_length_max(&long), Vec3::new(SCALE, 0, 0));
    let diag = Vec3::new(3 * SCALE, 4 * SCALE, 0);
    let clamped = clamp_length_max(&diag);
    assert_eq!(clamped, Vec3::new(600_000, 800_000, 0));
}

#[test]
fn fpv_builds_the_documented_rig_shape() {
    let target = Transform::new(Vec3::new(SCALE, 2 * SCALE, 3 * SCALE), Quat::identity());
    let f = Fpv::from_position_target(target, 30 * DEG, -10 * DEG);
    assert_eq!(f.rig.drivers.len(), 4);
    match &f.rig.drivers[0] {
        Driver::Position(p) => assert_eq!(p.position, target.position),
        other => panic!("expected a position driver, got {:?}", other),
    }
    match &f.rig.drivers[2] {
        Driver::YawPitch(y) => {
            assert_eq!(y.yaw_degrees, 30 * DEG);
            assert_eq!(y.pitch_degrees, -10 * DEG);
        },
        other => panic!("expected a yaw/pitch driver, got {:?}", other),
    }
}

#[test]
fn fpv_set_rotation_scales_mouse_deltas_by_a_tenth() {
    let target = Transform::new(Vec3::new(0, 0, 0), Quat::identity());
    let mut f = Fpv::from_position_target(target, 0, 0);
    // Sensitivity one, a ten-unit mouse delta: a tenth of that is one degree,
    // applied negatively.
    f.set_rotation(10 * SCALE, 0, SCALE, SCALE, Vec3::new(0, 0, 0), 16_000);
    match &f.rig.drivers[2] {
        Driver::YawPitch(y) => {
            assert_eq!(y.yaw_degrees, -DEG);
            assert_eq!(y.pitch_degrees, 0);
        },
        other => panic!("expected a yaw/pitch driver, got {:?}", other),
    }
}

#[test]
fn fpv_set_rotation_translates_by_speed_and_elapsed_time() {
    let target = Transform::new(Vec3::new(0, 0, 0), Quat::identity());
    let mut f = Fpv::from_position_target(target, 0, 0);
    // One unit of movement over a full second is scaled by ten.
    f.set_rotation(0, 0, SCALE, SCALE, Vec3::new(SCALE, 0, 0), SECOND);
    match &f.rig.drivers[0] {
        Driver::Position(p) => assert_eq!(p.position, Vec3::new(10 * SCALE, 0, 0)),
        other => panic!("expected a position driver, got {:?}", other),
    }
}

#[test]
fn fpv_set_position_applies_boost_exponentially() {
    let target = Transform::new(Vec3::new(0, 0, 0), Quat::identity());
    let mut f = Fpv::from_position_target(target, 0, 0);
    // Identity orientation: the half-unit direction is only scaled, by the
    // boost multiplier squared.
    let moved = f.set_position(Vec3::new(500_000, 0, 0), 2, 2 * SCALE, false);
    assert_eq!(moved, Vec3::new(2 * SCALE, 0, 0));
}

#[test]
fn fpv_set_position_clamps_direction_to_unit_length() {
    let target = Transform::new(Vec3::new(0, 0, 0), Quat::identity());
    let mut f = Fpv::from_position_target(target, 0, 0);
    let moved = f.set_position(Vec3::new(5 * SCALE, 0, 0), 0, 2 * SCALE, false);
    assert_eq!(moved, Vec3::new(SCALE, 0, 0));
}

#[test]
fn fpv_set_position_lock_y_keeps_only_the_yaw_axis() {
    let target = Transform::new(Vec3::new(0, 0, 0), Quat::identity());
    let mut f = Fpv::from_position_target(target, 0, 0);
    // Give the cached transform a mixed orientation, then lock: the x and z
    // axis components vanish and the rest is renormalized.
    f.rig.final_transform = Transform::new(
        Vec3::new(0, 0, 0),
        camera_rig::quat::from_yaw_pitch(40 * DEG, 30 * DEG),
    );
    f.set_position(Vec3::new(0, 0, 0), 0, 2 * SCALE, true);
    let q = f.rig.final_transform.rotation;
    assert_eq!(q.x, 0);
    assert_eq!(q.z, 0);
    let n2 = camera_rig::quat::norm2(&q);
    assert!((n2 - SCALE * SCALE).abs() <= camera_rig::quat::UNIT_EPS);
}

#[test]
fn fpv_update_runs_the_nested_rig() {
    let target = Transform::new(Vec3::new(0, 0, 4 * SCALE), Quat::identity());
    let mut f = Fpv::from_position_target(target, 0, 0);
    let out = f.update(SECOND);
    assert_eq!(f.rig.final_transform, out);
    // The smoothing stage eases toward the position driver's target.
    assert!(out.position.z > 0);
    assert!(out.position.z <= 4 * SCALE);
}
