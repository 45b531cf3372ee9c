use camera_rig::driver::Arm;
use camera_rig::driver::Driver;
use camera_rig::driver::DriverKind;
use camera_rig::driver::LookAt;
use camera_rig::driver::Position;
use camera_rig::driver::Rotation;
use camera_rig::driver::Smooth;
use camera_rig::driver::YawPitch;
use camera_rig::fixed::SCALE;
use camera_rig::quat::norm2;
use camera_rig::quat::from_yaw_pitch;
use camera_rig::quat::rotate_vec;
use camera_rig::quat::Quat;
use camera_rig::quat::UNIT_EPS;
use camera_rig::rig::Rig;
use camera_rig::transform::Transform;
use camera_rig::vec3::vadd;
use camera_rig::vec3::Vec3;

const SECOND: i64 = 1_000_000;

fn position_rig(target: Vec3, smoothness: i64) -> Rig {
    Rig::builder()
        .with(Driver::Position(Position { position: target }))
        .with(Driver::Smooth(Smooth::new_position(smoothness)))
        .build()
}

#[test]
fn smooth_first_step_is_one_minus_exp_decay() {
    // Target ten units along z with a one-second time constant: one
    // one-second step covers the fraction 1 - exp(-1) of the distance,
    // about 6.32 units.
    let mut rig = position_rig(Vec3::new(0, 0, 10 * SCALE), SECOND);
    let out = rig.update(SECOND);
    assert_eq!(out.position.z, 6_319_020);
    assert_eq!(out.position.x, 0);
    assert_eq!(out.position.y, 0);
}

#[test]
fn smooth_converges_monotonically_without_overshoot() {
    let target: i64 = 10 * SCALE;
    let mut rig = position_rig(Vec3::new(0, 0, target), SECOND);
    let mut prev: i64 = 0;
    for _ in 0..40 {
        let out = rig.update(SECOND);
        assert!(out.position.z >= prev);
        assert!(out.position.z <= target);
        prev = out.position.z;
    }
}

#[test]
fn smooth_error_within_one_percent_after_five_time_constants() {
    let target: i64 = 10 * SCALE;
    let mut rig = position_rig(Vec3::new(0, 0, target), SECOND);
    let mut out = Transform::identity();
    for _ in 0..5 {
        out = rig.update(SECOND);
    }
    let err = target - out.position.z;
    assert_eq!(err, 67_581);
    assert!(err <= target / 100);
}

#[test]
fn smooth_zero_dt_leaves_current_unchanged() {
    let parent = Transform::new(Vec3::new(3 * SCALE, 0, -2 * SCALE), Quat::identity());
    let d = Driver::Smooth(Smooth::new_position_rotation(SECOND, SECOND / 10));
    let (d1, t1) = d.update(&parent, SECOND / 2);
    let (d2, t2) = d1.update(&parent, 0);
    assert_eq!(t2, t1);
    match (d1, d2) {
        (Driver::Smooth(s1), Driver::Smooth(s2)) => assert_eq!(s2.current, s1.current),
        other => panic!("expected smoothing drivers, got {:?}", other),
    }
}

#[test]
fn smooth_zero_smoothness_follows_target_exactly() {
    let mut rig = position_rig(Vec3::new(7 * SCALE, 0, 0), 0);
    let out = rig.update(SECOND);
    assert_eq!(out.position, Vec3::new(7 * SCALE, 0, 0));
}

#[test]
fn rig_driver_order_matters() {
    // Position-then-Arm lands the camera at p + o; Arm-then-Position at p.
    let p = Vec3::new(SCALE, 0, 0);
    let o = Vec3::new(0, 0, 5 * SCALE);
    let mut rig_pa = Rig::builder()
        .with(Driver::Position(Position { position: p }))
        .with(Driver::Arm(Arm { offset: o }))
        .build();
    let mut rig_ap = Rig::builder()
        .with(Driver::Arm(Arm { offset: o }))
        .with(Driver::Position(Position { position: p }))
        .build();
    let out_pa = rig_pa.update(SECOND);
    let out_ap = rig_ap.update(SECOND);
    assert_eq!(out_pa.position, Vec3::new(SCALE, 0, 5 * SCALE));
    assert_eq!(out_ap.position, p);
    assert!(out_pa.position != out_ap.position);
}

#[test]
fn arm_output_is_parent_position_plus_rotated_offset() {
    let parent = Transform::new(
        Vec3::new(2 * SCALE, SCALE, 0),
        from_yaw_pitch(90 * SCALE, 0),
    );
    let offset = Vec3::new(0, 0, -3 * SCALE);
    let d = Driver::Arm(Arm { offset });
    let (_, out) = d.update(&parent, SECOND);
    let expected = vadd(parent.position, rotate_vec(&parent.rotation, &offset));
    assert_eq!(out.position, expected);
    assert_eq!(out.rotation, parent.rotation);
}

#[test]
fn yaw_pitch_full_turn_restores_state_and_orientation() {
    let mut y = YawPitch::new();
    y.rotate_yaw_pitch(30 * SCALE, 10 * SCALE);
    let q0 = from_yaw_pitch(y.yaw_degrees, y.pitch_degrees);
    y.rotate_yaw_pitch(360 * SCALE, 0);
    y.rotate_yaw_pitch(360 * SCALE, 0);
    assert_eq!(y.yaw_degrees, 30 * SCALE);
    assert_eq!(y.pitch_degrees, 10 * SCALE);
    assert_eq!(from_yaw_pitch(y.yaw_degrees, y.pitch_degrees), q0);
}

#[test]
fn one_full_turn_rotates_vectors_identically() {
    // One whole turn lands on the other sheet of the double cover: the
    // quaternion flips sign but rotates every vector exactly as before.
    let q1 = from_yaw_pitch(30 * SCALE, 10 * SCALE);
    let q2 = from_yaw_pitch(390 * SCALE, 10 * SCALE);
    assert_eq!(q2, camera_rig::quat::qneg(&q1));
    let v = Vec3::new(3 * SCALE, -2 * SCALE, 7 * SCALE);
    assert_eq!(rotate_vec(&q1, &v), rotate_vec(&q2, &v));
}

#[test]
fn yaw_orientation_has_period_of_two_turns() {
    // -100 degrees and 620 degrees differ by a full double-cover period.
    let a = from_yaw_pitch(-100 * SCALE, 0);
    let b = from_yaw_pitch(620 * SCALE, 0);
    assert_eq!(a, b);
}

#[test]
fn yaw_pitch_clamps_pitch_at_straight_up() {
    let mut y = YawPitch::new();
    y.rotate_yaw_pitch(0, 200 * SCALE);
    assert_eq!(y.pitch_degrees, 90 * SCALE);
    y.rotate_yaw_pitch(0, -500 * SCALE);
    assert_eq!(y.pitch_degrees, -90 * SCALE);
}

#[test]
fn orientations_stay_near_unit_over_ten_thousand_frames() {
    let mut rig = Rig::builder()
        .with(Driver::YawPitch(YawPitch::new()))
        .with(Driver::Smooth(Smooth::new_position_rotation(SECOND, SECOND / 10)))
        .build();
    let target = SCALE * SCALE;
    for i in 0..10_000 {
        rig.rotate_yaw_pitch(7 * SCALE + i % 11, 3 * SCALE - i % 7);
        let out = rig.update(16_000);
        let n2 = norm2(&out.rotation);
        assert!((n2 - target).abs() <= UNIT_EPS);
    }
}

#[test]
fn look_at_straight_ahead_is_identity() {
    // The reference forward axis is negative z, so a target straight ahead
    // needs no turn at all.
    let d = Driver::LookAt(LookAt::new(Vec3::new(0, 0, -10 * SCALE)));
    let (_, out) = d.update(&Transform::identity(), SECOND);
    assert_eq!(out.rotation, Quat::identity());
}

#[test]
fn look_at_degenerate_direction_is_identity() {
    let parent = Transform::new(Vec3::new(SCALE, SCALE, SCALE), Quat::identity());
    let d = Driver::LookAt(LookAt::new(Vec3::new(SCALE, SCALE, SCALE)));
    let (_, out) = d.update(&parent, SECOND);
    assert_eq!(out.rotation, Quat::identity());
}

#[test]
fn look_at_keeps_orientation_near_unit() {
    let d = Driver::LookAt(LookAt::new(Vec3::new(3 * SCALE, 4 * SCALE, -5 * SCALE)));
    let (_, out) = d.update(&Transform::identity(), SECOND);
    let n2 = norm2(&out.rotation);
    assert!((n2 - SCALE * SCALE).abs() <= UNIT_EPS);
}

#[test]
fn rotation_driver_overrides_parent_rotation() {
    let q = from_yaw_pitch(45 * SCALE, 0);
    let parent = Transform::new(Vec3::new(SCALE, 0, 0), Quat::identity());
    let d = Driver::Rotation(Rotation { rotation: q });
    let (_, out) = d.update(&parent, SECOND);
    assert_eq!(out.rotation, q);
    assert_eq!(out.position, parent.position);
}

#[test]
fn find_driver_returns_first_match_in_order() {
    let rig = Rig::builder()
        .with(Driver::Position(Position { position: Vec3::new(SCALE, 0, 0) }))
        .with(Driver::YawPitch(YawPitch::new()))
        .with(Driver::Position(Position { position: Vec3::new(0, SCALE, 0) }))
        .build();
    assert_eq!(rig.find_driver(DriverKind::Position), Some(0));
    assert_eq!(rig.find_driver(DriverKind::YawPitch), Some(1));
    assert_eq!(rig.find_driver(DriverKind::Smooth), None);
}

#[test]
fn empty_rig_yields_identity_transform() {
    let mut rig = Rig::builder().build();
    let out = rig.update(SECOND);
    assert_eq!(out, Transform::identity());
}

#[test]
fn predictive_smoothing_leads_a_moving_target() {
    // Frame one establishes the velocity estimate base; frame two sees the
    // target one unit further and doubles it by extrapolation before
    // blending.
    let d = Driver::Smooth(Smooth::new_position(SECOND).predictive(true));
    let origin = Transform::identity();
    let (d1, _) = d.update(&origin, SECOND);
    let moved = Transform::new(Vec3::new(0, 0, SCALE), Quat::identity());
    let (_, out) = d1.update(&moved, SECOND);
    assert_eq!(out.position.z, 1_263_804);

    // Without prediction the same frames cover only the decay fraction.
    let d = Driver::Smooth(Smooth::new_position(SECOND));
    let (d1, _) = d.update(&origin, SECOND);
    let (_, plain) = d1.update(&moved, SECOND);
    assert_eq!(plain.position.z, 631_902);
}

#[test]
fn predictive_smoothing_starts_with_zero_velocity() {
    // The very first frame has no previous delta: the target is not advanced.
    let d = Driver::Smooth(Smooth::new_position(SECOND).predictive(true));
    let moved = Transform::new(Vec3::new(0, 0, 10 * SCALE), Quat::identity());
    let (_, out) = d.update(&moved, SECOND);
    assert_eq!(out.position.z, 6_319_020);
}

#[test]
fn smoothed_look_at_eases_toward_the_facing_direction() {
    let target = Vec3::new(10 * SCALE, 0, 0);
    let exact = Driver::LookAt(LookAt::new(target));
    let (_, goal) = exact.update(&Transform::identity(), SECOND);
    let eased = Driver::LookAt(LookAt::new(target).smoothness(SECOND));
    let (d1, first) = eased.update(&Transform::identity(), SECOND);
    assert!(first.rotation != Quat::identity());
    assert!(first.rotation != goal.rotation);
    assert!((norm2(&first.rotation) - SCALE * SCALE).abs() <= UNIT_EPS);
    // Further frames keep moving toward the exact facing orientation.
    let (_, second) = d1.update(&Transform::identity(), SECOND);
    assert!((second.rotation.w - goal.rotation.w).abs()
        <= (first.rotation.w - goal.rotation.w).abs());
}

#[test]
fn compose_applies_one_transform_relative_to_another() {
    let a = Transform::new(Vec3::new(SCALE, 0, 0), from_yaw_pitch(90 * SCALE, 0));
    let b = Transform::new(Vec3::new(0, 0, -2 * SCALE), Quat::identity());
    let c = camera_rig::transform::compose(&a, &b);
    let expected = vadd(a.position, rotate_vec(&a.rotation, &b.position));
    assert_eq!(c.position, expected);
    assert!((norm2(&c.rotation) - SCALE * SCALE).abs() <= UNIT_EPS);
}

#[test]
fn translate_position_moves_first_position_driver() {
    let mut rig = Rig::builder()
        .with(Driver::Position(Position { position: Vec3::new(SCALE, 0, 0) }))
        .build();
    rig.translate_position(Vec3::new(SCALE, 2 * SCALE, 0));
    let out = rig.update(SECOND);
    assert_eq!(out.position, Vec3::new(2 * SCALE, 2 * SCALE, 0));
}
