//! Named entry points into the pose node graph.
//!
//! A state is a final "container" for an animation pose: it names a root
//! node whose subtree produces the state's pose each tick.  A state whose
//! root no longer resolves is a recoverable, silent no-pose condition.

use vstd::prelude::*;
use crate::animation::AnimationContainer;
use crate::math::Vector2;
use crate::node::{evaluate, fresh_steps, nodes_ok, spec_cached, spec_stamp, same_shape,
    stamped_preserved, touched_are_stamped, node_step, PoseNode};
use crate::parameter::ParameterContainer;
use crate::pool::{Handle, Pool};
use crate::pose::AnimationPose;

verus! {

/// A named handle to a root node of the pose graph: one discrete animation
/// mode.
#[derive(Clone, Debug)]
pub struct State {
    /// Editor position hint, irrelevant to evaluation.
    pub position: Vector2,
    /// The state's display name.
    pub name: String,
    /// Root node of the pose subtree this state stands for.
    pub root: Handle,
}

impl State {
    /// A state named `name` whose pose comes from the subtree under `root`.
    pub fn new(name: &str, root: Handle) -> (s: State)
        ensures
            s.name@ == name@,
            s.root == root,
            s.position.x == 0 && s.position.y == 0,
    {
        State { position: Vector2::zero(), name: name.to_owned(), root }
    }

    /// The state's display name.
    pub fn name(&self) -> (r: &str)
        ensures
            r@ == self.name@,
    {
        self.name.as_str()
    }

    /// An equal copy.
    pub fn duplicate(&self) -> (r: State)
        ensures
            r.position == self.position,
            r.name@ == self.name@,
            r.root == self.root,
    {
        State { position: self.position, name: self.name.clone(), root: self.root }
    }

    /// The cached pose of the state's root node, or `None` when the root
    /// handle no longer resolves — a silent, recoverable no-pose condition.
    pub fn pose(&self, nodes: &Pool<PoseNode>) -> (r: Option<AnimationPose>)
        ensures
            match r {
                Some(p) => nodes.contains(self.root) && p@ == spec_cached(nodes.at(self.root))@,
                None => !nodes.contains(self.root),
            },
    {
        match nodes.try_borrow(self.root) {
            Some(n) => Some(n.pose().duplicate()),
            None => None,
        }
    }

    /// Evaluates the state's subtree for the current tick, under the
    /// once-per-tick discipline of `evaluate`; a dangling root changes
    /// nothing.
    pub fn update(
        &self,
        nodes: &mut Pool<PoseNode>,
        params: &ParameterContainer,
        animations: &AnimationContainer,
        dt_ms: u32,
        tick: u64,
    )
        requires
            nodes_ok(*old(nodes)),
            params.wf(),
            animations.wf(),
        ensures
            nodes_ok(*final(nodes)),
            same_shape(*old(nodes), *final(nodes)),
            stamped_preserved(*old(nodes), *final(nodes), tick),
            touched_are_stamped(*old(nodes), *final(nodes), tick),
            !old(nodes).contains(self.root) ==> *final(nodes) == *old(nodes),
            old(nodes).contains(self.root) && spec_stamp(old(nodes).at(self.root)) == tick
                ==> *final(nodes) == *old(nodes),
            old(nodes).contains(self.root) && spec_stamp(old(nodes).at(self.root)) != tick
                ==> node_step(*old(nodes), *final(nodes), self.root, params@, *animations, dt_ms,
            tick),
            old(nodes).contains(self.root) ==> spec_stamp(final(nodes).at(self.root)) == tick,
            fresh_steps(*old(nodes), *final(nodes), self.root, params@, *animations, dt_ms, tick),
    {
        let _ = evaluate(nodes, self.root, params, animations, dt_ms, tick);
    }
}

} // verus!
