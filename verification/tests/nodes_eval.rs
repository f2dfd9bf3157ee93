use anim_machine::animation::{Animation, AnimationContainer};
use anim_machine::machine::Machine;
use anim_machine::math::{Transform, Vector3, UNIT};
use anim_machine::node::{BlendPose, IndexedBlendInput, PlayAnimation, PoseNode, PoseWeight};
use anim_machine::parameter::Parameter;
use anim_machine::pool::Handle;
use anim_machine::pose::AnimationPose;
use anim_machine::state::State;

fn pose_with_x(x: i64) -> AnimationPose {
    let mut p = AnimationPose::new();
    let mut t = Transform::identity();
    t.translation = Vector3 { x, y: 0, z: 0 };
    p.add_bone(t);
    p
}

fn clip_with_x(anims: &mut AnimationContainer, x: i64) -> Handle {
    let mut a = Animation::new(10, true);
    a.add_frame(pose_with_x(x));
    anims.add(a)
}

#[test]
fn shared_node_is_computed_once_per_tick() {
    // A diamond: two blend nodes share one play node; the root blends the
    // two parents.  The play node's local time is its computation counter:
    // one tick of 100 ms must advance it by exactly 100 ms, not 200.
    let mut m = Machine::new();
    let mut anims = AnimationContainer::new();
    let clip = clip_with_x(&mut anims, 1000);
    let child = m.add_node(PoseNode::make_play_animation(clip));
    let left = m.add_node(PoseNode::make_blend_animations(vec![BlendPose::new(
        PoseWeight::Constant(UNIT),
        child,
    )]));
    let right = m.add_node(PoseNode::make_blend_animations(vec![BlendPose::new(
        PoseWeight::Constant(UNIT),
        child,
    )]));
    let root = m.add_node(PoseNode::make_blend_animations(vec![
        BlendPose::new(PoseWeight::Constant(UNIT), left),
        BlendPose::new(PoseWeight::Constant(UNIT), right),
    ]));
    let s = m.add_state(State::new("s", root));
    m.set_entry_state(s);

    let p = m.update(&anims, 100);
    assert_eq!(p.transform_or_identity(0).translation.x, 1000);
    match m.node(child).unwrap() {
        PoseNode::PlayAnimation(play) => assert_eq!(play.local_time_ms(), 100),
        _ => panic!("expected a play node"),
    }

    let _ = m.update(&anims, 50);
    match m.node(child).unwrap() {
        PoseNode::PlayAnimation(play) => assert_eq!(play.local_time_ms(), 150),
        _ => panic!("expected a play node"),
    }
}

#[test]
fn missing_weight_parameter_counts_as_zero() {
    // Two children; one weight is a missing parameter, so only the other
    // contributes.
    let mut m = Machine::new();
    let mut anims = AnimationContainer::new();
    let ca = clip_with_x(&mut anims, 1000);
    let cb = clip_with_x(&mut anims, 3000);
    let na = m.add_node(PoseNode::make_play_animation(ca));
    let nb = m.add_node(PoseNode::make_play_animation(cb));
    let root = m.add_node(PoseNode::make_blend_animations(vec![
        BlendPose::new(PoseWeight::Parameter(String::from("absent")), na),
        BlendPose::new(PoseWeight::Constant(UNIT), nb),
    ]));
    let s = m.add_state(State::new("s", root));
    m.set_entry_state(s);
    let p = m.update(&anims, 10);
    assert_eq!(p.transform_or_identity(0).translation.x, 3000);
}

#[test]
fn all_weights_absent_gives_identity_pose() {
    let mut m = Machine::new();
    let mut anims = AnimationContainer::new();
    let ca = clip_with_x(&mut anims, 1000);
    let na = m.add_node(PoseNode::make_play_animation(ca));
    let root = m.add_node(PoseNode::make_blend_animations(vec![BlendPose::new(
        PoseWeight::Parameter(String::from("absent")),
        na,
    )]));
    let s = m.add_state(State::new("s", root));
    m.set_entry_state(s);
    let p = m.update(&anims, 10);
    assert_eq!(p.bone_count(), 0);
    assert_eq!(p.transform_or_identity(0), Transform::identity());
}

#[test]
fn negative_weight_counts_as_zero() {
    let mut m = Machine::new();
    let mut anims = AnimationContainer::new();
    let ca = clip_with_x(&mut anims, 1000);
    let cb = clip_with_x(&mut anims, 3000);
    let na = m.add_node(PoseNode::make_play_animation(ca));
    let nb = m.add_node(PoseNode::make_play_animation(cb));
    let root = m.add_node(PoseNode::make_blend_animations(vec![
        BlendPose::new(PoseWeight::Constant(-500), na),
        BlendPose::new(PoseWeight::Constant(UNIT), nb),
    ]));
    let s = m.add_state(State::new("s", root));
    m.set_entry_state(s);
    let p = m.update(&anims, 10);
    assert_eq!(p.transform_or_identity(0).translation.x, 3000);
}

fn by_index_machine() -> (Machine, AnimationContainer, Handle) {
    let mut m = Machine::new();
    let mut anims = AnimationContainer::new();
    let ca = clip_with_x(&mut anims, 1000);
    let cb = clip_with_x(&mut anims, 3000);
    let na = m.add_node(PoseNode::make_play_animation(ca));
    let nb = m.add_node(PoseNode::make_play_animation(cb));
    let root = m.add_node(PoseNode::make_blend_animations_by_index(
        String::from("which"),
        vec![
            IndexedBlendInput { blend_time_ms: 1000, pose_source: na },
            IndexedBlendInput { blend_time_ms: 1000, pose_source: nb },
        ],
    ));
    let s = m.add_state(State::new("s", root));
    m.set_entry_state(s);
    (m, anims, root)
}

#[test]
fn index_switch_cross_fades_then_settles() {
    let (mut m, anims, root) = by_index_machine();

    // Index parameter absent: index 0, no fade pending.
    let p = m.update(&anims, 100);
    assert_eq!(p.transform_or_identity(0).translation.x, 1000);

    // Switch to index 1: the fade window opens; the pose is a strict blend
    // of the retained old pose and the new child's pose.
    m.set_parameter("which", Parameter::Index(1));
    let p = m.update(&anims, 250);
    // (750 * 1000 + 250 * 3000) / 1000
    assert_eq!(p.transform_or_identity(0).translation.x, 1500);
    match m.node(root).unwrap() {
        PoseNode::BlendAnimationsByIndex(x) => {
            assert_eq!(x.active_index(), 1);
            assert_eq!(x.fade_remaining_ms, 750);
            assert_eq!(x.fade_total_ms, 1000);
            assert_eq!(x.prev_pose.transform_or_identity(0).translation.x, 1000);
        },
        _ => panic!("expected an indexed blend node"),
    }

    // Still inside the window: further along the fade.
    let p = m.update(&anims, 250);
    assert_eq!(p.transform_or_identity(0).translation.x, 2000);

    // The window elapses: the pose is purely the new child's, and the
    // retained pose is dropped.
    let p = m.update(&anims, 1000);
    assert_eq!(p.transform_or_identity(0).translation.x, 3000);
    match m.node(root).unwrap() {
        PoseNode::BlendAnimationsByIndex(x) => {
            assert_eq!(x.fade_remaining_ms, 0);
            assert_eq!(x.prev_pose.bone_count(), 0);
        },
        _ => panic!("expected an indexed blend node"),
    }
}

#[test]
fn out_of_range_index_is_clamped() {
    let (mut m, anims, root) = by_index_machine();
    m.set_parameter("which", Parameter::Index(9));
    let _ = m.update(&anims, 5000);
    let p = m.update(&anims, 5000);
    assert_eq!(p.transform_or_identity(0).translation.x, 3000);
    match m.node(root).unwrap() {
        PoseNode::BlendAnimationsByIndex(x) => assert_eq!(x.active_index(), 1),
        _ => panic!("expected an indexed blend node"),
    }
}

#[test]
fn play_node_speed_scales_time() {
    let mut m = Machine::new();
    let mut anims = AnimationContainer::new();
    let clip = clip_with_x(&mut anims, 1000);
    let mut play = PlayAnimation::new(clip);
    play.speed = 2 * UNIT;
    let n = m.add_node(PoseNode::PlayAnimation(play));
    let s = m.add_state(State::new("s", n));
    m.set_entry_state(s);
    let _ = m.update(&anims, 100);
    match m.node(n).unwrap() {
        PoseNode::PlayAnimation(p) => assert_eq!(p.local_time_ms(), 200),
        _ => panic!("expected a play node"),
    }
}

#[test]
fn negative_speed_rewinds_and_saturates_at_zero() {
    let mut m = Machine::new();
    let mut anims = AnimationContainer::new();
    let clip = clip_with_x(&mut anims, 1000);
    let mut play = PlayAnimation::new(clip);
    play.speed = -UNIT;
    let n = m.add_node(PoseNode::PlayAnimation(play));
    let s = m.add_state(State::new("s", n));
    m.set_entry_state(s);
    let _ = m.update(&anims, 100);
    match m.node(n).unwrap() {
        PoseNode::PlayAnimation(p) => assert_eq!(p.local_time_ms(), 0),
        _ => panic!("expected a play node"),
    }
}

#[test]
fn looping_clip_wraps_and_clamping_clip_holds() {
    let mut looping = Animation::new(100, true);
    looping.add_frame(pose_with_x(10));
    looping.add_frame(pose_with_x(20));
    looping.add_frame(pose_with_x(30));
    assert_eq!(looping.frame_count(), 3);
    assert_eq!(looping.sample(0).transform_or_identity(0).translation.x, 10);
    assert_eq!(looping.sample(250).transform_or_identity(0).translation.x, 30);
    assert_eq!(looping.sample(350).transform_or_identity(0).translation.x, 10);

    let mut held = Animation::new(100, false);
    held.add_frame(pose_with_x(10));
    held.add_frame(pose_with_x(20));
    held.add_frame(pose_with_x(30));
    assert_eq!(held.sample(350).transform_or_identity(0).translation.x, 30);
    assert_eq!(held.sample(150).transform_or_identity(0).translation.x, 20);
}

#[test]
fn empty_clip_samples_identity() {
    let a = Animation::new(100, true);
    let p = a.sample(12345);
    assert_eq!(p.bone_count(), 0);
}

#[test]
fn sampling_a_removed_clip_gives_identity() {
    let mut anims = AnimationContainer::new();
    let h = clip_with_x(&mut anims, 777);
    assert_eq!(anims.sample(h, 0).transform_or_identity(0).translation.x, 777);
    assert!(anims.remove(h));
    assert_eq!(anims.sample(h, 0).bone_count(), 0);
}

#[test]
fn default_node_plays_nothing() {
    let n = PoseNode::default();
    match n {
        PoseNode::PlayAnimation(p) => {
            assert!(p.animation.is_none_handle());
            assert_eq!(p.local_time_ms(), 0);
            assert_eq!(p.speed, UNIT);
            assert_eq!(p.base.position.x, 0);
            assert_eq!(p.base.position.y, 0);
            assert!(p.base.parent_state.is_none_handle());
        },
        _ => panic!("expected a play node"),
    }
}

#[test]
fn constructors_use_default_base_fields() {
    let h = Handle { index: 2, generation: 1 };
    match PoseNode::make_play_animation(h) {
        PoseNode::PlayAnimation(p) => {
            assert_eq!(p.speed, UNIT);
            assert_eq!(p.time_ms, 0);
            assert_eq!(p.base.position.x, 0);
            assert!(p.base.parent_state.is_none_handle());
            assert_eq!(p.cache_pose.bone_count(), 0);
        },
        _ => panic!("expected a play node"),
    }
    match PoseNode::make_blend_animations(vec![BlendPose::new(PoseWeight::Constant(1), h)]) {
        PoseNode::BlendAnimations(b) => {
            assert_eq!(b.base.position.y, 0);
            assert!(b.base.parent_state.is_none_handle());
        },
        _ => panic!("expected a blend node"),
    }
    match PoseNode::make_blend_animations_by_index(
        String::from("p"),
        vec![IndexedBlendInput { blend_time_ms: 5, pose_source: h }],
    ) {
        PoseNode::BlendAnimationsByIndex(x) => {
            assert_eq!(x.base.position.x, 0);
            assert!(x.base.parent_state.is_none_handle());
            assert_eq!(x.active_index, 0);
            assert_eq!(x.fade_remaining_ms, 0);
            assert_eq!(x.prev_pose.bone_count(), 0);
        },
        _ => panic!("expected an indexed blend node"),
    }
}

#[test]
fn update_freshly_stamps_the_evaluated_subtree() {
    // After a tick, the active state's whole evaluated chain carries the
    // new tick's stamp: the caches are this tick's poses, never stale.
    let mut m = Machine::new();
    let mut anims = AnimationContainer::new();
    let clip = clip_with_x(&mut anims, 1000);
    let child = m.add_node(PoseNode::make_play_animation(clip));
    let root = m.add_node(PoseNode::make_blend_animations(vec![BlendPose::new(
        PoseWeight::Constant(UNIT),
        child,
    )]));
    let s = m.add_state(State::new("s", root));
    m.set_entry_state(s);
    let _ = m.update(&anims, 16);
    let tick = m.current_tick();
    match m.node(root).unwrap() {
        PoseNode::BlendAnimations(b) => assert_eq!(b.cache_stamp, tick),
        _ => panic!("expected a blend node"),
    }
    match m.node(child).unwrap() {
        PoseNode::PlayAnimation(p) => assert_eq!(p.cache_stamp, tick),
        _ => panic!("expected a play node"),
    }
}

#[test]
fn children_lists_match_inputs() {
    let a = Handle { index: 3, generation: 7 };
    let b = Handle { index: 4, generation: 1 };
    let play = PoseNode::make_play_animation(a);
    assert_eq!(play.children().len(), 0);
    let blend = PoseNode::make_blend_animations(vec![
        BlendPose::new(PoseWeight::Constant(1), a),
        BlendPose::new(PoseWeight::Constant(2), b),
    ]);
    assert_eq!(blend.children(), vec![a, b]);
    let by_index = PoseNode::make_blend_animations_by_index(
        String::from("p"),
        vec![IndexedBlendInput { blend_time_ms: 5, pose_source: b }],
    );
    assert_eq!(by_index.children(), vec![b]);
}
