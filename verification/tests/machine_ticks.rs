use anim_machine::animation::{Animation, AnimationContainer};
use anim_machine::machine::Machine;
use anim_machine::math::{Transform, Vector3};
use anim_machine::node::PoseNode;
use anim_machine::parameter::Parameter;
use anim_machine::pool::Handle;
use anim_machine::pose::AnimationPose;
use anim_machine::state::State;
use anim_machine::transition::{Condition, Transition};

fn pose_with_x(x: i64) -> AnimationPose {
    let mut p = AnimationPose::new();
    let mut t = Transform::identity();
    t.translation = Vector3 { x, y: 0, z: 0 };
    p.add_bone(t);
    p
}

fn clip_with_x(anims: &mut AnimationContainer, x: i64) -> Handle {
    let mut a = Animation::new(10, true);
    a.add_frame(pose_with_x(x));
    anims.add(a)
}

/// A machine with two one-clip states and one transition between them,
/// gated on the boolean parameter "run".
fn two_state_machine(duration_ms: u32) -> (Machine, AnimationContainer, Handle, Handle, Handle) {
    let mut m = Machine::new();
    let mut anims = AnimationContainer::new();
    let ca = clip_with_x(&mut anims, 1000);
    let cb = clip_with_x(&mut anims, 3000);
    let na = m.add_node(PoseNode::make_play_animation(ca));
    let nb = m.add_node(PoseNode::make_play_animation(cb));
    let sa = m.add_state(State::new("Idle", na));
    let sb = m.add_state(State::new("Run", nb));
    m.set_entry_state(sa);
    let th = m.add_transition(Transition::new(
        "Idle to Run",
        sa,
        sb,
        duration_ms,
        Condition::Rule(String::from("run")),
    ));
    (m, anims, sa, sb, th)
}

#[test]
fn transition_blends_from_source_to_destination() {
    let (mut m, anims, sa, sb, th) = two_state_machine(1000);

    // Idle tick: the entry state's pose comes out.
    let p = m.update(&anims, 100);
    assert_eq!(p.transform_or_identity(0).translation.x, 1000);
    assert_eq!(m.active_state(), sa);
    assert!(m.active_transition().is_none_handle());

    // The condition comes true: the transition starts; at elapsed zero the
    // output still equals the source state's pose.
    m.set_parameter("run", Parameter::Rule(true));
    let p = m.update(&anims, 100);
    assert_eq!(p.transform_or_identity(0).translation.x, 1000);
    assert_eq!(m.active_transition(), th);
    assert_eq!(m.transition(th).unwrap().elapsed_ms, 0);
    assert_eq!(m.active_state(), sa);

    // Half way through: the 50/50 blend.
    let p = m.update(&anims, 500);
    assert_eq!(p.transform_or_identity(0).translation.x, 2000);
    assert_eq!(m.transition(th).unwrap().elapsed_ms, 500);
    assert_eq!(m.active_state(), sa);

    // Elapsed reaches the duration: the transition completes, the
    // destination is promoted, and its pose comes out.
    let p = m.update(&anims, 500);
    assert_eq!(p.transform_or_identity(0).translation.x, 3000);
    assert_eq!(m.active_state(), sb);
    assert!(m.active_transition().is_none_handle());
    assert_eq!(m.transition(th).unwrap().elapsed_ms, 1000);
}

#[test]
fn elapsed_beyond_duration_completes() {
    let (mut m, anims, _sa, sb, _th) = two_state_machine(1000);
    m.update(&anims, 10);
    m.set_parameter("run", Parameter::Rule(true));
    m.update(&anims, 10);
    // One huge step overshoots the duration: complete, destination active.
    let p = m.update(&anims, 50_000);
    assert_eq!(m.active_state(), sb);
    assert!(m.active_transition().is_none_handle());
    assert_eq!(p.transform_or_identity(0).translation.x, 3000);
}

#[test]
fn second_transition_is_rejected_while_one_runs() {
    let (mut m, anims, sa, sb, th) = two_state_machine(1000);
    // A rival transition out of the same state, also enabled.
    let rival = m.add_transition(Transition::new(
        "rival",
        sa,
        sb,
        500,
        Condition::Rule(String::from("run")),
    ));
    m.update(&anims, 10);
    m.set_parameter("run", Parameter::Rule(true));
    m.update(&anims, 10);
    assert_eq!(m.active_transition(), th);

    // An explicit request for the rival is rejected; nothing changes.
    let started = m.try_start_transition(rival);
    assert!(!started);
    assert_eq!(m.active_transition(), th);
    assert_eq!(m.transition(th).unwrap().elapsed_ms, 0);

    // Ticking with both conditions true does not preempt either: the
    // running transition only advances.
    m.update(&anims, 100);
    assert_eq!(m.active_transition(), th);
    assert_eq!(m.transition(th).unwrap().elapsed_ms, 100);
}

#[test]
fn explicit_start_works_only_when_idle() {
    let (mut m, anims, _sa, sb, th) = two_state_machine(400);
    // No condition set; start by hand instead.
    m.update(&anims, 10);
    assert!(m.try_start_transition(th));
    assert_eq!(m.active_transition(), th);
    assert_eq!(m.transition(th).unwrap().elapsed_ms, 0);
    // A second request while running is a no-op.
    assert!(!m.try_start_transition(th));
    // Run it out.
    m.update(&anims, 400);
    assert_eq!(m.active_state(), sb);
    assert!(m.active_transition().is_none_handle());
}

#[test]
fn start_request_with_wrong_source_is_rejected() {
    let (mut m, anims, _sa, sb, _th) = two_state_machine(400);
    let other = m.add_transition(Transition::new(
        "backwards",
        sb,
        sb,
        100,
        Condition::Rule(String::from("never")),
    ));
    m.update(&anims, 10);
    // The machine rests in the entry state, not in `sb`.
    assert!(!m.try_start_transition(other));
    assert!(m.active_transition().is_none_handle());
}

#[test]
fn dangling_state_root_yields_identity_pose() {
    let (mut m, anims, sa, _sb, _th) = two_state_machine(1000);
    let root = m.state(sa).unwrap().root;
    assert!(m.remove_node(root));
    // The machine keeps running; the pose degrades to the identity pose.
    let p = m.update(&anims, 100);
    assert_eq!(p.bone_count(), 0);
    assert_eq!(p.transform_or_identity(0), Transform::identity());
    assert_eq!(m.active_state(), sa);
}

#[test]
fn machine_without_entry_state_stays_neutral() {
    let mut m = Machine::new();
    let anims = AnimationContainer::new();
    let p = m.update(&anims, 16);
    assert_eq!(p.bone_count(), 0);
    assert!(m.active_state().is_none_handle());
}

#[test]
fn removing_a_state_removes_its_transitions() {
    let (mut m, anims, sa, sb, th) = two_state_machine(1000);
    m.update(&anims, 10);
    m.set_parameter("run", Parameter::Rule(true));
    m.update(&anims, 10);
    assert_eq!(m.active_transition(), th);

    // Removing the destination removes the running transition and cancels it.
    assert!(m.remove_state(sb));
    assert!(m.state(sb).is_none());
    assert!(m.transition(th).is_none());
    assert!(m.active_transition().is_none_handle());
    assert_eq!(m.active_state(), sa);

    // The machine goes on ticking in the remaining state.
    let p = m.update(&anims, 10);
    assert_eq!(p.transform_or_identity(0).translation.x, 1000);
}

#[test]
fn removing_the_active_state_clears_it() {
    let (mut m, anims, sa, _sb, _th) = two_state_machine(1000);
    m.update(&anims, 10);
    assert_eq!(m.active_state(), sa);
    assert!(m.remove_state(sa));
    assert!(m.active_state().is_none_handle());
    let p = m.update(&anims, 10);
    assert_eq!(p.bone_count(), 0);
}

#[test]
fn add_node_rejects_dangling_children() {
    let mut m = Machine::new();
    let ghostly = Handle { index: 99, generation: 1 };
    let node = PoseNode::make_blend_animations(vec![anim_machine::node::BlendPose::new(
        anim_machine::node::PoseWeight::Constant(1000),
        ghostly,
    )]);
    let r = m.add_node(node);
    assert!(r.is_none_handle());
    assert!(m.node(r).is_none());
}

#[test]
fn parameters_read_back() {
    let mut m = Machine::new();
    assert!(m.get_parameter("speed").is_none());
    m.set_parameter("speed", Parameter::Weight(700));
    assert_eq!(m.get_parameter("speed"), Some(Parameter::Weight(700)));
    m.set_parameter("speed", Parameter::Weight(250));
    assert_eq!(m.get_parameter("speed"), Some(Parameter::Weight(250)));
    m.set_parameter("jump", Parameter::Rule(true));
    assert_eq!(m.get_parameter("jump"), Some(Parameter::Rule(true)));
    assert_eq!(m.get_parameter("speed"), Some(Parameter::Weight(250)));
}
