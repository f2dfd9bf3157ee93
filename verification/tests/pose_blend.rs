use anim_machine::math::{Transform, Vector3, UNIT, WEIGHT_MAX};
use anim_machine::pose::AnimationPose;

fn pose_with_x(x: i64) -> AnimationPose {
    let mut p = AnimationPose::new();
    let mut t = Transform::identity();
    t.translation = Vector3 { x, y: 2 * x, z: -x };
    p.add_bone(t);
    p
}

#[test]
fn identity_pose_has_neutral_bones() {
    let p = AnimationPose::new();
    assert_eq!(p.bone_count(), 0);
    let t = p.transform_or_identity(0);
    assert_eq!(t, Transform::identity());
    assert_eq!(t.translation.x, 0);
    assert_eq!(t.rotation.w, UNIT);
    assert_eq!(t.scale.x, UNIT);
}

#[test]
fn weighted_average_matches_formula() {
    // Weights 0.3 and 0.7 over translations 1000 and 3000:
    // 0.3 * 1000 + 0.7 * 3000 = 2400, exactly, after normalization.
    let poses = vec![pose_with_x(1000), pose_with_x(3000)];
    let weights = vec![300u64, 700u64];
    let out = AnimationPose::blend(&poses, &weights);
    assert_eq!(out.bone_count(), 1);
    let t = out.transform_or_identity(0);
    assert_eq!(t.translation.x, 2400);
    assert_eq!(t.translation.y, 4800);
    assert_eq!(t.translation.z, -2400);
    assert_eq!(t.rotation.w, UNIT);
    assert_eq!(t.scale.x, UNIT);
}

#[test]
fn unnormalized_weights_are_normalized() {
    // 3 and 7 give the same blend as 300 and 700.
    let poses = vec![pose_with_x(1000), pose_with_x(3000)];
    let out = AnimationPose::blend(&poses, &vec![3u64, 7u64]);
    assert_eq!(out.transform_or_identity(0).translation.x, 2400);
}

#[test]
fn zero_weights_give_identity_pose() {
    let poses = vec![pose_with_x(1000), pose_with_x(3000)];
    let out = AnimationPose::blend(&poses, &vec![0u64, 0u64]);
    assert_eq!(out.bone_count(), 0);
    assert_eq!(out.transform_or_identity(0), Transform::identity());
    assert_eq!(out.transform_or_identity(5), Transform::identity());
}

#[test]
fn blending_no_poses_gives_identity_pose() {
    let out = AnimationPose::blend(&Vec::new(), &Vec::new());
    assert_eq!(out.bone_count(), 0);
}

#[test]
fn oversized_weights_are_clamped() {
    // A weight beyond WEIGHT_MAX counts as WEIGHT_MAX.
    let poses = vec![pose_with_x(1000), pose_with_x(3000)];
    let clamped = AnimationPose::blend(&poses, &vec![u64::MAX, WEIGHT_MAX]);
    let even = AnimationPose::blend(&poses, &vec![WEIGHT_MAX, WEIGHT_MAX]);
    assert_eq!(
        clamped.transform_or_identity(0).translation.x,
        even.transform_or_identity(0).translation.x
    );
    assert_eq!(even.transform_or_identity(0).translation.x, 2000);
}

#[test]
fn clamp_weight_bounds() {
    assert_eq!(AnimationPose::clamp_weight(17), 17);
    assert_eq!(AnimationPose::clamp_weight(WEIGHT_MAX), WEIGHT_MAX);
    assert_eq!(AnimationPose::clamp_weight(WEIGHT_MAX + 1), WEIGHT_MAX);
}

#[test]
fn shorter_pose_contributes_neutral_bones() {
    // First pose has one bone, second has two: on the second bone the
    // first pose counts as neutral.
    let p1 = pose_with_x(1000);
    let mut p2 = AnimationPose::new();
    let mut t = Transform::identity();
    t.translation = Vector3 { x: 3000, y: 6000, z: -3000 };
    p2.add_bone(t);
    p2.add_bone(t);
    let out = AnimationPose::blend(&vec![p1, p2], &vec![500u64, 500u64]);
    assert_eq!(out.bone_count(), 2);
    assert_eq!(out.transform_or_identity(0).translation.x, 2000);
    // Bone 1: (500 * 0 + 500 * 3000) / 1000 = 1500; scale blends from
    // neutral UNIT with itself.
    assert_eq!(out.transform_or_identity(1).translation.x, 1500);
    assert_eq!(out.transform_or_identity(1).scale.x, UNIT);
}

#[test]
fn lerp_endpoints_and_midpoint() {
    let a = pose_with_x(1000);
    let b = pose_with_x(3000);
    let start = AnimationPose::lerp(&a, &b, 0, 1000);
    assert_eq!(start.transform_or_identity(0).translation.x, 1000);
    let mid = AnimationPose::lerp(&a, &b, 500, 1000);
    assert_eq!(mid.transform_or_identity(0).translation.x, 2000);
    let end = AnimationPose::lerp(&a, &b, 1000, 1000);
    assert_eq!(end.transform_or_identity(0).translation.x, 3000);
    let over = AnimationPose::lerp(&a, &b, 5000, 1000);
    assert_eq!(over.transform_or_identity(0).translation.x, 3000);
    let zero_duration = AnimationPose::lerp(&a, &b, 0, 0);
    assert_eq!(zero_duration.transform_or_identity(0).translation.x, 3000);
}

#[test]
fn duplicate_is_equal() {
    let p = pose_with_x(42);
    let q = p.duplicate();
    assert_eq!(p, q);
}

#[test]
fn components_round_trip() {
    let mut t = Transform::identity();
    t.translation = Vector3 { x: 1, y: 2, z: 3 };
    let mut comps = Vec::new();
    for k in 0..10 {
        comps.push(t.component(k));
    }
    let back = Transform::from_components(&comps);
    assert_eq!(back, t);
    assert!(t.is_bounded());
}
