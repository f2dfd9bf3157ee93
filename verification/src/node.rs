//! Pose-producing graph nodes.
//!
//! A node computes one pose per tick from the animation store, the
//! parameter table and its children's poses.  Nodes live in a `Pool` and
//! reference each other by handle; children are fixed when a node is made,
//! so a well-formed graph stays acyclic: every resolving child was spawned
//! before its parent (see `nodes_ok`).  Each node owns one cache cell and a
//! tick stamp, the ground for the once-per-tick evaluation discipline.

use vstd::prelude::*;
use crate::math::Vector2;
use crate::parameter::{spec_weight, Parameter, ParameterContainer};
use crate::pool::{Handle, Pool};
use crate::pose::AnimationPose;

verus! {

/// Fields shared by every node kind: an editor position hint and a
/// non-owning back-reference to the owning state, both irrelevant to
/// evaluation.
#[derive(Clone, Copy, Debug, PartialEq, Eq, Structural)]
pub struct BasePoseNode {
    pub position: Vector2,
    pub parent_state: Handle,
}

/// The default base: zero position, no owning state.
pub open spec fn spec_default_base() -> BasePoseNode {
    BasePoseNode {
        position: Vector2 { x: 0, y: 0 },
        parent_state: crate::pool::spec_none_handle(),
    }
}

impl BasePoseNode {
    /// A base with zero position and no owning state.
    pub fn new() -> (b: BasePoseNode)
        ensures
            b == spec_default_base(),
    {
        BasePoseNode { position: Vector2::zero(), parent_state: Handle::none() }
    }
}

/// A blend weight: a fixed-point constant, or the name of a parameter read
/// live from the table each tick.
#[derive(Clone, Debug, PartialEq)]
pub enum PoseWeight {
    Constant(i64),
    Parameter(String),
}

impl PoseWeight {
    /// An equal copy.
    pub fn duplicate(&self) -> (r: PoseWeight)
        ensures
            r == *self,
    {
        match self {
            PoseWeight::Constant(c) => PoseWeight::Constant(*c),
            PoseWeight::Parameter(s) => PoseWeight::Parameter(s.clone()),
        }
    }
}

/// One blended input: a child node and the weight its pose carries.
#[derive(Clone, Debug, PartialEq)]
pub struct BlendPose {
    pub weight: PoseWeight,
    pub pose_source: Handle,
}

impl BlendPose {
    /// A blend input with the given weight and child.
    pub fn new(weight: PoseWeight, pose_source: Handle) -> (r: BlendPose)
        ensures
            r.weight == weight,
            r.pose_source == pose_source,
    {
        BlendPose { weight, pose_source }
    }

    /// An equal copy.
    pub fn duplicate(&self) -> (r: BlendPose)
        ensures
            r == *self,
    {
        BlendPose { weight: self.weight.duplicate(), pose_source: self.pose_source }
    }
}

/// One indexed input: a child node and the cross-fade window used when the
/// selection switches to it.
#[derive(Clone, Copy, Debug, PartialEq, Eq, Structural)]
pub struct IndexedBlendInput {
    pub blend_time_ms: u32,
    pub pose_source: Handle,
}

/// A leaf node: samples one clip of the animation store at a local time it
/// advances itself by `dt` times its own speed factor.
#[derive(Clone, Debug)]
pub struct PlayAnimation {
    pub base: BasePoseNode,
    pub animation: Handle,
    /// Fixed-point speed factor; `UNIT` plays at natural speed, negative
    /// values rewind.
    pub speed: i64,
    /// Local clip time reached, advanced by evaluation.
    pub time_ms: u64,
    /// The node's cache cell: the pose computed last.
    pub cache_pose: AnimationPose,
    /// Tick of the last cache write; zero means never.
    pub cache_stamp: u64,
}

impl PlayAnimation {
    /// A node playing `animation` at natural speed from time zero.
    pub fn new(animation: Handle) -> (r: PlayAnimation)
        ensures
            r.animation == animation,
            r.speed == crate::math::UNIT,
            r.time_ms == 0,
            r.base == spec_default_base(),
            r.cache_pose@.len() == 0,
            r.cache_stamp == 0,
    {
        PlayAnimation {
            base: BasePoseNode::new(),
            animation,
            speed: crate::math::UNIT,
            time_ms: 0,
            cache_pose: AnimationPose::new(),
            cache_stamp: 0,
        }
    }

    /// The local clip time the node has reached, in milliseconds.
    pub fn local_time_ms(&self) -> (t: u64)
        ensures
            t == self.time_ms,
    {
        self.time_ms
    }
}

/// An inner node: blends all its children's poses by parameter-driven or
/// constant weights.
#[derive(Clone, Debug)]
pub struct BlendAnimations {
    pub base: BasePoseNode,
    pub pose_sources: Vec<BlendPose>,
    /// The node's cache cell: the pose computed last.
    pub cache_pose: AnimationPose,
    /// Tick of the last cache write; zero means never.
    pub cache_stamp: u64,
}

impl BlendAnimations {
    /// A node blending the given inputs.
    pub fn new(poses: Vec<BlendPose>) -> (r: BlendAnimations)
        ensures
            r.pose_sources@ == poses@,
            r.base == spec_default_base(),
            r.cache_pose@.len() == 0,
            r.cache_stamp == 0,
    {
        BlendAnimations {
            base: BasePoseNode::new(),
            pose_sources: poses,
            cache_pose: AnimationPose::new(),
            cache_stamp: 0,
        }
    }

    /// Handles of all child nodes, in input order.
    pub fn children(&self) -> (r: Vec<Handle>)
        ensures
            r@ == self.pose_sources@.map_values(|bp: BlendPose| bp.pose_source),
    {
        let n = self.pose_sources.len();
        let mut out: Vec<Handle> = Vec::new();
        for i in 0..n
            invariant
                n == self.pose_sources@.len(),
                out@.len() == i,
                forall|j: int| 0 <= j < i ==> out@[j] == self.pose_sources@[j].pose_source,
        {
            out.push(self.pose_sources[i].pose_source);
        }
        proof {
            assert(out@ =~= self.pose_sources@.map_values(|bp: BlendPose| bp.pose_source));
        }
        out
    }
}

/// An inner node: an integer parameter selects which single child is
/// evaluated; on a switch the previous cached pose cross-fades into the
/// newly selected child's pose over that input's window.
#[derive(Clone, Debug)]
pub struct BlendAnimationsByIndex {
    pub base: BasePoseNode,
    pub index_parameter: String,
    pub inputs: Vec<IndexedBlendInput>,
    /// The input index whose child was selected last.
    pub active_index: u32,
    /// Milliseconds of cross-fade still to run.
    pub fade_remaining_ms: u32,
    /// Length of the running cross-fade window, in milliseconds.
    pub fade_total_ms: u32,
    /// The pose retained from before the last switch.
    pub prev_pose: AnimationPose,
    /// The node's cache cell: the pose computed last.
    pub cache_pose: AnimationPose,
    /// Tick of the last cache write; zero means never.
    pub cache_stamp: u64,
}

impl BlendAnimationsByIndex {
    /// A node selecting among `inputs` by parameter `index_parameter`,
    /// starting at index zero with no cross-fade pending.
    pub fn new(index_parameter: String, inputs: Vec<IndexedBlendInput>) -> (r:
        BlendAnimationsByIndex)
        ensures
            r.index_parameter == index_parameter,
            r.inputs@ == inputs@,
            r.base == spec_default_base(),
            r.active_index == 0,
            r.fade_remaining_ms == 0,
            r.fade_total_ms == 0,
            r.prev_pose@.len() == 0,
            r.cache_pose@.len() == 0,
            r.cache_stamp == 0,
    {
        BlendAnimationsByIndex {
            base: BasePoseNode::new(),
            index_parameter,
            inputs,
            active_index: 0,
            fade_remaining_ms: 0,
            fade_total_ms: 0,
            prev_pose: AnimationPose::new(),
            cache_pose: AnimationPose::new(),
            cache_stamp: 0,
        }
    }

    /// The input index whose child was selected last.
    pub fn active_index(&self) -> (ix: u32)
        ensures
            ix == self.active_index,
    {
        self.active_index
    }

    /// Handles of all child nodes, in input order.
    pub fn children(&self) -> (r: Vec<Handle>)
        ensures
            r@ == self.inputs@.map_values(|ib: IndexedBlendInput| ib.pose_source),
    {
        let n = self.inputs.len();
        let mut out: Vec<Handle> = Vec::new();
        for i in 0..n
            invariant
                n == self.inputs@.len(),
                out@.len() == i,
                forall|j: int| 0 <= j < i ==> out@[j] == self.inputs@[j].pose_source,
        {
            out.push(self.inputs[i].pose_source);
        }
        proof {
            assert(out@ =~= self.inputs@.map_values(|ib: IndexedBlendInput| ib.pose_source));
        }
        out
    }
}

/// A pose-producing node: one of the three closed kinds.
#[derive(Clone, Debug)]
pub enum PoseNode {
    /// Samples one animation clip.
    PlayAnimation(PlayAnimation),
    /// Blends all children by weights.
    BlendAnimations(BlendAnimations),
    /// Evaluates the one child an index parameter selects.
    BlendAnimationsByIndex(BlendAnimationsByIndex),
}

impl Default for PoseNode {
    /// A freshly made play node with no clip assigned and all-default
    /// fields: natural speed, time zero, default base, empty cache.
    fn default() -> (r: Self)
        ensures
            r is PlayAnimation,
            r->PlayAnimation_0.animation == crate::pool::spec_none_handle(),
            r->PlayAnimation_0.speed == crate::math::UNIT,
            r->PlayAnimation_0.time_ms == 0,
            r->PlayAnimation_0.base == spec_default_base(),
            r->PlayAnimation_0.cache_pose@.len() == 0,
            spec_stamp(r) == 0,
            node_wf(r),
            children_spec(r).len() == 0,
    {
        PoseNode::PlayAnimation(PlayAnimation::new(Handle::none()))
    }
}

/// The child handles a node references, in declaration order.
pub open spec fn children_spec(n: PoseNode) -> Seq<Handle> {
    match n {
        PoseNode::PlayAnimation(_) => Seq::empty(),
        PoseNode::BlendAnimations(b) => b.pose_sources@.map_values(
            |bp: BlendPose| bp.pose_source,
        ),
        PoseNode::BlendAnimationsByIndex(x) => x.inputs@.map_values(
            |ib: IndexedBlendInput| ib.pose_source,
        ),
    }
}

/// The pose a node computed last, as stored in its cache cell.
pub open spec fn spec_cached(n: PoseNode) -> AnimationPose {
    match n {
        PoseNode::PlayAnimation(p) => p.cache_pose,
        PoseNode::BlendAnimations(b) => b.cache_pose,
        PoseNode::BlendAnimationsByIndex(x) => x.cache_pose,
    }
}

/// The tick at which the cache cell was last written; zero means never.
pub open spec fn spec_stamp(n: PoseNode) -> u64 {
    match n {
        PoseNode::PlayAnimation(p) => p.cache_stamp,
        PoseNode::BlendAnimations(b) => b.cache_stamp,
        PoseNode::BlendAnimationsByIndex(x) => x.cache_stamp,
    }
}

/// A node's cache and fade bookkeeping are sound: cached poses are
/// blendable and a cross-fade never has more time left than its window.
pub open spec fn node_wf(n: PoseNode) -> bool {
    &&& spec_cached(n).wf()
    &&& match n {
        PoseNode::BlendAnimationsByIndex(x) => {
            &&& x.fade_remaining_ms <= x.fade_total_ms
            &&& x.prev_pose.wf()
            &&& (x.inputs@.len() > 0 ==> (x.active_index as int) < x.inputs@.len())
        },
        _ => true,
    }
}

/// The evaluation-relevant configuration of two nodes is the same: same
/// kind, same static fields, same children.  Caches, local times and fade
/// bookkeeping may differ.
pub open spec fn same_config(a: PoseNode, b: PoseNode) -> bool {
    match (a, b) {
        (PoseNode::PlayAnimation(x), PoseNode::PlayAnimation(y)) => {
            &&& x.base == y.base
            &&& x.animation == y.animation
            &&& x.speed == y.speed
        },
        (PoseNode::BlendAnimations(x), PoseNode::BlendAnimations(y)) => {
            &&& x.base == y.base
            &&& x.pose_sources@ == y.pose_sources@
        },
        (PoseNode::BlendAnimationsByIndex(x), PoseNode::BlendAnimationsByIndex(y)) => {
            &&& x.base == y.base
            &&& x.index_parameter@ == y.index_parameter@
            &&& x.inputs@ == y.inputs@
        },
        _ => false,
    }
}

impl PoseNode {
    /// Creates a node that plays one animation clip.
    pub fn make_play_animation(animation: Handle) -> (n: PoseNode)
        ensures
            n is PlayAnimation,
            n->PlayAnimation_0.animation == animation,
            n->PlayAnimation_0.speed == crate::math::UNIT,
            n->PlayAnimation_0.time_ms == 0,
            n->PlayAnimation_0.base == spec_default_base(),
            n->PlayAnimation_0.cache_pose@.len() == 0,
            spec_stamp(n) == 0,
            node_wf(n),
            children_spec(n).len() == 0,
    {
        PoseNode::PlayAnimation(PlayAnimation::new(animation))
    }

    /// Creates a node that blends multiple poses by weights.
    pub fn make_blend_animations(poses: Vec<BlendPose>) -> (n: PoseNode)
        ensures
            n is BlendAnimations,
            n->BlendAnimations_0.pose_sources@ == poses@,
            n->BlendAnimations_0.base == spec_default_base(),
            n->BlendAnimations_0.cache_pose@.len() == 0,
            spec_stamp(n) == 0,
            node_wf(n),
            children_spec(n) == poses@.map_values(|bp: BlendPose| bp.pose_source),
    {
        PoseNode::BlendAnimations(BlendAnimations::new(poses))
    }

    /// Creates a node that evaluates the one child an index parameter
    /// selects, cross-fading on switches.
    pub fn make_blend_animations_by_index(index_parameter: String, inputs: Vec<
        IndexedBlendInput,
    >) -> (n: PoseNode)
        ensures
            n is BlendAnimationsByIndex,
            n->BlendAnimationsByIndex_0.index_parameter == index_parameter,
            n->BlendAnimationsByIndex_0.inputs@ == inputs@,
            n->BlendAnimationsByIndex_0.base == spec_default_base(),
            n->BlendAnimationsByIndex_0.active_index == 0,
            n->BlendAnimationsByIndex_0.fade_remaining_ms == 0,
            n->BlendAnimationsByIndex_0.fade_total_ms == 0,
            n->BlendAnimationsByIndex_0.prev_pose@.len() == 0,
            n->BlendAnimationsByIndex_0.cache_pose@.len() == 0,
            spec_stamp(n) == 0,
            node_wf(n),
            children_spec(n) == inputs@.map_values(|ib: IndexedBlendInput| ib.pose_source),
    {
        PoseNode::BlendAnimationsByIndex(BlendAnimationsByIndex::new(index_parameter, inputs))
    }

    /// Handles of all child nodes this node references.
    pub fn children(&self) -> (r: Vec<Handle>)
        ensures
            r@ == children_spec(*self),
    {
        match self {
            PoseNode::PlayAnimation(_) => Vec::new(),
            PoseNode::BlendAnimations(b) => b.children(),
            PoseNode::BlendAnimationsByIndex(x) => x.children(),
        }
    }

    /// The pose this node computed last.
    pub fn pose(&self) -> (r: &AnimationPose)
        ensures
            *r == spec_cached(*self),
    {
        match self {
            PoseNode::PlayAnimation(p) => &p.cache_pose,
            PoseNode::BlendAnimations(b) => &b.cache_pose,
            PoseNode::BlendAnimationsByIndex(x) => &x.cache_pose,
        }
    }

    /// The tick at which this node's cache was last written; zero means
    /// never.
    pub fn cache_tick(&self) -> (t: u64)
        ensures
            t == spec_stamp(*self),
    {
        match self {
            PoseNode::PlayAnimation(p) => p.cache_stamp,
            PoseNode::BlendAnimations(b) => b.cache_stamp,
            PoseNode::BlendAnimationsByIndex(x) => x.cache_stamp,
        }
    }
}

/// A whole node pool is sound: the pool itself is well-formed, every node
/// is, and every resolving child was spawned strictly before its parent —
/// so the graph is a DAG and recursion over children terminates.
pub open spec fn nodes_ok(p: Pool<PoseNode>) -> bool {
    &&& p.wf()
    &&& p.slot_count() <= 0xFFFF_FFFF
    &&& forall|h: Handle| #[trigger] p.contains(h) ==> node_wf(p.at(h))
    &&& forall|h: Handle, c: Handle|
        p.contains(h) && p.contains(c) && #[trigger] children_spec(p.at(h)).contains(c)
            ==> p.birth_of(c) < p.birth_of(h)
}

/// Evaluation changes no topology: the same handles resolve, with the same
/// birth order and the same configuration.
pub open spec fn same_shape(pre: Pool<PoseNode>, post: Pool<PoseNode>) -> bool {
    &&& post.slot_count() == pre.slot_count()
    &&& forall|g: Handle| #[trigger] pre.contains(g) ==> post.contains(g)
    &&& forall|g: Handle| #[trigger] post.contains(g) ==> pre.contains(g)
    &&& forall|g: Handle| #[trigger] post.gone(g) == pre.gone(g)
    &&& forall|g: Handle| #[trigger]
        pre.contains(g) ==> post.birth_of(g) == pre.birth_of(g) && same_config(
            pre.at(g),
            post.at(g),
        )
}

/// Nodes already stamped at `tick` are left exactly as they were: a pose
/// computed this tick is never recomputed or disturbed.
pub open spec fn stamped_preserved(pre: Pool<PoseNode>, post: Pool<PoseNode>, tick: u64) -> bool {
    forall|g: Handle|
        pre.contains(g) && spec_stamp(#[trigger] pre.at(g)) == tick ==> post.at(g) == pre.at(g)
}

/// Every node is either freshly stamped at `tick` or untouched.
pub open spec fn touched_are_stamped(pre: Pool<PoseNode>, post: Pool<PoseNode>, tick: u64) -> bool {
    forall|g: Handle| #[trigger]
        pre.contains(g) ==> spec_stamp(post.at(g)) == tick || post.at(g) == pre.at(g)
}

/// Every node freshly stamped during an evaluation of `h` satisfies its own
/// step relation against the tick's starting state — its cache is the true
/// result of this tick's rule, never a stale or invented value — and was
/// spawned no later than `h` itself.
pub open spec fn fresh_steps(
    pre: Pool<PoseNode>,
    post: Pool<PoseNode>,
    h: Handle,
    params: Map<Seq<char>, Parameter>,
    anims: crate::animation::AnimationContainer,
    dt: u32,
    tick: u64,
) -> bool {
    forall|g: Handle|
        pre.contains(g) && spec_stamp(#[trigger] pre.at(g)) != tick && spec_stamp(post.at(g))
            == tick ==> node_step(pre, post, g, params, anims, dt, tick) && post.birth_of(g)
            <= pre.birth_of(h)
}

/// Weaker, composable form of `fresh_steps`, without the birth bound:
/// every node freshly stamped across the frame satisfies its own step
/// relation against the frame's starting state.
pub open spec fn stepped_frame(
    pre: Pool<PoseNode>,
    post: Pool<PoseNode>,
    params: Map<Seq<char>, Parameter>,
    anims: crate::animation::AnimationContainer,
    dt: u32,
    tick: u64,
) -> bool {
    forall|g: Handle|
        pre.contains(g) && spec_stamp(#[trigger] pre.at(g)) != tick && spec_stamp(post.at(g))
            == tick ==> node_step(pre, post, g, params, anims, dt, tick)
}

/// Two stepped frames of the same tick compose: whatever the second frame
/// stamps was untouched by the first, and whatever the first stamped the
/// second leaves alone.
pub proof fn lemma_stepped_frames_compose(
    pre: Pool<PoseNode>,
    mid: Pool<PoseNode>,
    post: Pool<PoseNode>,
    params: Map<Seq<char>, Parameter>,
    anims: crate::animation::AnimationContainer,
    dt: u32,
    tick: u64,
)
    requires
        stepped_frame(pre, mid, params, anims, dt, tick),
        stepped_frame(mid, post, params, anims, dt, tick),
        same_shape(pre, mid),
        same_shape(mid, post),
        stamped_preserved(mid, post, tick),
        touched_are_stamped(pre, mid, tick),
    ensures
        stepped_frame(pre, post, params, anims, dt, tick),
{
    assert forall|g: Handle|
        pre.contains(g) && spec_stamp(#[trigger] pre.at(g)) != tick && spec_stamp(post.at(g))
            == tick implies node_step(pre, post, g, params, anims, dt, tick) by {
        assert(mid.contains(g));
        if spec_stamp(mid.at(g)) == tick {
            assert(node_step(pre, mid, g, params, anims, dt, tick));
            lemma_node_step_preserved(pre, mid, post, g, params, anims, dt, tick);
        } else {
            assert(mid.at(g) == pre.at(g));
            assert(node_step(mid, post, g, params, anims, dt, tick));
            assert(node_step(pre, post, g, params, anims, dt, tick));
        }
    }
}

/// The cached pose a handle stands for; the identity pose when it does not
/// resolve.
pub open spec fn node_pose_in(p: Pool<PoseNode>, h: Handle) -> Seq<crate::math::Transform> {
    if p.contains(h) {
        spec_cached(p.at(h))@
    } else {
        Seq::empty()
    }
}

/// The raw weight a blend input carries under the given parameters.
pub open spec fn weight_value(w: PoseWeight, params: Map<Seq<char>, Parameter>) -> i64 {
    match w {
        PoseWeight::Constant(c) => c,
        PoseWeight::Parameter(nm) => spec_weight(params, nm@),
    }
}

/// A raw weight with its negative part cut off.
pub open spec fn nonneg_weight(v: i64) -> u64 {
    if v < 0 {
        0u64
    } else {
        v as u64
    }
}

/// The weights of all blend inputs under the given parameters.
pub open spec fn blend_input_weights(srcs: Seq<BlendPose>, params: Map<Seq<char>, Parameter>) -> Seq<
    u64,
> {
    srcs.map_values(|bp: BlendPose| nonneg_weight(weight_value(bp.weight, params)))
}

/// The cached poses of all blend inputs' children in pool `p`.
pub open spec fn blend_child_poses(p: Pool<PoseNode>, srcs: Seq<BlendPose>) -> Seq<
    Seq<crate::math::Transform>,
> {
    srcs.map_values(|bp: BlendPose| node_pose_in(p, bp.pose_source))
}

/// The magnitude of a fixed-point speed factor.
pub open spec fn abs_speed(s: i64) -> int {
    if s >= 0 {
        s as int
    } else {
        -(s as int)
    }
}

/// A local clip time advanced by `dt` times the speed factor: the time
/// moves by `dt * |speed| / UNIT` milliseconds in the direction of the
/// speed's sign, saturating at zero and at `u64::MAX`.
pub open spec fn advance_time(t: u64, dt: u32, speed: i64) -> u64 {
    let step = (dt as int) * abs_speed(speed) / (crate::math::UNIT as int);
    if speed >= 0 {
        if t as int + step > u64::MAX as int {
            u64::MAX
        } else {
            (t as int + step) as u64
        }
    } else {
        if (t as int) < step {
            0u64
        } else {
            ((t as int) - step) as u64
        }
    }
}

/// Subtraction on milliseconds that stops at zero.
pub open spec fn sat_sub_u32(a: u32, b: u32) -> u32 {
    if a < b {
        0u32
    } else {
        (a - b) as u32
    }
}

/// An index parameter value clamped to the valid input range.
pub open spec fn clamped_index(v: u32, len: int) -> int {
    if (v as int) < len {
        v as int
    } else {
        len - 1
    }
}

/// How one evaluation changes the evaluated node: its cache is stamped at
/// `tick` and holds, by kind,
/// - `PlayAnimation`: the store's sample of its clip at the advanced local
///   time, which is also its new local time;
/// - `BlendAnimations`: the weighted average of its children's freshly
///   cached poses under the parameter-driven weights;
/// - `BlendAnimationsByIndex`: the selected child's freshly cached pose,
///   cross-faded from the retained previous pose while the fade window
///   still runs.
pub open spec fn node_step(
    pre: Pool<PoseNode>,
    post: Pool<PoseNode>,
    h: Handle,
    params: Map<Seq<char>, Parameter>,
    anims: crate::animation::AnimationContainer,
    dt: u32,
    tick: u64,
) -> bool {
    let n0 = pre.at(h);
    let n1 = post.at(h);
    &&& spec_stamp(n1) == tick
    &&& match n0 {
        PoseNode::PlayAnimation(p0) => {
            &&& n1 is PlayAnimation
            &&& n1->PlayAnimation_0.time_ms == advance_time(p0.time_ms, dt, p0.speed)
            &&& spec_cached(n1)@ == crate::animation::store_sample(
                anims,
                p0.animation,
                advance_time(p0.time_ms, dt, p0.speed),
            )
        },
        PoseNode::BlendAnimations(b0) => {
            &&& n1 is BlendAnimations
            &&& forall|i: int|
                0 <= i < b0.pose_sources@.len() && post.contains(
                    #[trigger] b0.pose_sources@[i].pose_source,
                ) ==> spec_stamp(post.at(b0.pose_sources@[i].pose_source)) == tick
            &&& crate::pose::blend_result(
                blend_child_poses(post, b0.pose_sources@),
                crate::pose::weights_of(blend_input_weights(b0.pose_sources@, params)),
                spec_cached(n1)@,
            )
        },
        PoseNode::BlendAnimationsByIndex(x0) => {
            &&& n1 is BlendAnimationsByIndex
            &&& {
                let x1 = n1->BlendAnimationsByIndex_0;
                if x0.inputs@.len() == 0 {
                    &&& spec_cached(n1)@ == Seq::<crate::math::Transform>::empty()
                    &&& x1.active_index == x0.active_index
                    &&& x1.fade_remaining_ms == x0.fade_remaining_ms
                    &&& x1.fade_total_ms == x0.fade_total_ms
                } else {
                    let len = x0.inputs@.len() as int;
                    let idx = clamped_index(
                        crate::parameter::spec_index(params, x0.index_parameter@),
                        len,
                    );
                    let switching = idx != x0.active_index as int;
                    let fade_total = if switching {
                        x0.inputs@[idx].blend_time_ms
                    } else {
                        x0.fade_total_ms
                    };
                    let fade_before = if switching {
                        fade_total
                    } else {
                        x0.fade_remaining_ms
                    };
                    let fade_after = sat_sub_u32(fade_before, dt);
                    let prev = if switching {
                        spec_cached(n0)@
                    } else {
                        x0.prev_pose@
                    };
                    let child = node_pose_in(post, x0.inputs@[idx].pose_source);
                    &&& (post.contains(x0.inputs@[idx].pose_source) ==> spec_stamp(
                        post.at(x0.inputs@[idx].pose_source),
                    ) == tick)
                    &&& x1.active_index as int == idx
                    &&& x1.fade_total_ms == fade_total
                    &&& x1.fade_remaining_ms == fade_after
                    &&& x1.prev_pose@ == (if fade_after > 0 {
                        prev
                    } else {
                        Seq::<crate::math::Transform>::empty()
                    })
                    &&& if fade_after > 0 {
                        crate::pose::blend_result(
                            seq![prev, child],
                            crate::pose::weights_of(
                                seq![fade_after as u64, (fade_total - fade_after) as u64],
                            ),
                            spec_cached(n1)@,
                        )
                    } else {
                        spec_cached(n1)@ == child
                    }
                }
            }
        },
    }
}

/// Advances a local clip time per `advance_time`.
fn advance_time_exec(t: u64, dt: u32, speed: i64) -> (r: u64)
    ensures
        r == advance_time(t, dt, speed),
{
    let sp_mag: u128 = if speed >= 0 {
        speed as u128
    } else {
        (-(speed as i128)) as u128
    };
    proof {
        assert(sp_mag == abs_speed(speed));
        assert(sp_mag <= 0x8000_0000_0000_0000u128);
        assert((dt as int) * (sp_mag as int) <= 0x8000_0000_0000_0000_0000_0000) by (
        nonlinear_arith)
            requires
                0 <= (dt as int) <= 0x1_0000_0000,
                0 <= (sp_mag as int) <= 0x8000_0000_0000_0000,
        ;
        assert(0 <= (dt as int) * (sp_mag as int)) by (nonlinear_arith)
            requires
                0 <= (dt as int),
                0 <= (sp_mag as int),
        ;
    }
    let step: u128 = (dt as u128) * sp_mag / 1000u128;
    proof {
        assert(crate::math::UNIT as int == 1000);
    }
    if speed >= 0 {
        if step > (u64::MAX as u128) - (t as u128) {
            u64::MAX
        } else {
            t + (step as u64)
        }
    } else {
        if (t as u128) < step {
            0u64
        } else {
            t - (step as u64)
        }
    }
}

/// After rewriting only node `h` — same handle set, same births, same
/// children, sound node — the whole pool is sound again.
proof fn lemma_nodes_ok_after_set(mid: Pool<PoseNode>, post: Pool<PoseNode>, h: Handle)
    requires
        nodes_ok(mid),
        post.wf(),
        post.slot_count() == mid.slot_count(),
        forall|g: Handle| #[trigger] post.contains(g) == mid.contains(g),
        forall|g: Handle| #[trigger] post.birth_of(g) == mid.birth_of(g),
        forall|g: Handle| g != h && mid.contains(g) ==> #[trigger] post.at(g) == mid.at(g),
        mid.contains(h),
        node_wf(post.at(h)),
        children_spec(post.at(h)) == children_spec(mid.at(h)),
    ensures
        nodes_ok(post),
{
    assert forall|g: Handle| #[trigger] post.contains(g) implies node_wf(post.at(g)) by {
        if g != h {
            assert(node_wf(mid.at(g)));
        }
    }
    assert forall|g: Handle, c: Handle|
        post.contains(g) && post.contains(c) && #[trigger] children_spec(post.at(g)).contains(
            c,
        ) implies post.birth_of(c) < post.birth_of(g) by {
        if g == h {
            assert(children_spec(mid.at(h)).contains(c));
        } else {
            assert(children_spec(mid.at(g)).contains(c));
        }
    }
}

/// Duplicates a list of blend inputs.
fn dup_blend_sources(v: &Vec<BlendPose>) -> (r: Vec<BlendPose>)
    ensures
        r@ == v@,
{
    let n = v.len();
    let mut out: Vec<BlendPose> = Vec::new();
    for i in 0..n
        invariant
            n == v@.len(),
            out@.len() == i,
            forall|j: int| 0 <= j < i ==> out@[j] == v@[j],
    {
        out.push(v[i].duplicate());
    }
    proof {
        assert(out@ =~= v@);
    }
    out
}

/// Duplicates a list of indexed inputs.
fn dup_inputs(v: &Vec<IndexedBlendInput>) -> (r: Vec<IndexedBlendInput>)
    ensures
        r@ == v@,
{
    let n = v.len();
    let mut out: Vec<IndexedBlendInput> = Vec::new();
    for i in 0..n
        invariant
            n == v@.len(),
            out@.len() == i,
            forall|j: int| 0 <= j < i ==> out@[j] == v@[j],
    {
        out.push(v[i]);
    }
    proof {
        assert(out@ =~= v@);
    }
    out
}

/// The same configuration names the same children.
pub proof fn lemma_same_config_children(a: PoseNode, b: PoseNode)
    requires
        same_config(a, b),
    ensures
        children_spec(a) == children_spec(b),
{
    match (a, b) {
        (PoseNode::PlayAnimation(_), PoseNode::PlayAnimation(_)) => {
        },
        (PoseNode::BlendAnimations(x), PoseNode::BlendAnimations(y)) => {
            assert(x.pose_sources@ == y.pose_sources@);
        },
        (PoseNode::BlendAnimationsByIndex(x), PoseNode::BlendAnimationsByIndex(y)) => {
            assert(x.inputs@ == y.inputs@);
        },
        _ => {
        },
    }
}

/// Two evaluation frames compose: topology, stamped nodes and the
/// touched-are-stamped discipline carry across.
pub proof fn lemma_frames_compose(
    pre: Pool<PoseNode>,
    mid: Pool<PoseNode>,
    post: Pool<PoseNode>,
    tick: u64,
)
    requires
        same_shape(pre, mid),
        same_shape(mid, post),
        stamped_preserved(pre, mid, tick),
        stamped_preserved(mid, post, tick),
        touched_are_stamped(pre, mid, tick),
        touched_are_stamped(mid, post, tick),
    ensures
        same_shape(pre, post),
        stamped_preserved(pre, post, tick),
        touched_are_stamped(pre, post, tick),
{
    assert forall|g: Handle| #[trigger] post.gone(g) == pre.gone(g) by {
        assert(post.gone(g) == mid.gone(g));
        assert(mid.gone(g) == pre.gone(g));
    }
    assert forall|g: Handle| #[trigger]
        pre.contains(g) implies post.birth_of(g) == pre.birth_of(g) && same_config(
        pre.at(g),
        post.at(g),
    ) by {
        assert(mid.contains(g));
        assert(same_config(pre.at(g), mid.at(g)));
        assert(same_config(mid.at(g), post.at(g)));
    }
    assert forall|g: Handle|
        pre.contains(g) && spec_stamp(#[trigger] pre.at(g)) == tick implies post.at(g) == pre.at(
        g,
    ) by {
        assert(mid.contains(g));
        assert(mid.at(g) == pre.at(g));
    }
    assert forall|g: Handle| #[trigger]
        pre.contains(g) implies spec_stamp(post.at(g)) == tick || post.at(g) == pre.at(g) by {
        assert(mid.contains(g));
        if spec_stamp(mid.at(g)) == tick {
            assert(post.at(g) == mid.at(g));
        }
    }
}

/// A node's step relation, once established, survives any later frame of
/// the same tick that leaves stamped nodes alone: everything the relation
/// reads in the post pool carries this tick's stamp.
pub proof fn lemma_node_step_preserved(
    pre: Pool<PoseNode>,
    mid: Pool<PoseNode>,
    post: Pool<PoseNode>,
    g: Handle,
    params: Map<Seq<char>, Parameter>,
    anims: crate::animation::AnimationContainer,
    dt: u32,
    tick: u64,
)
    requires
        node_step(pre, mid, g, params, anims, dt, tick),
        mid.contains(g),
        same_shape(mid, post),
        stamped_preserved(mid, post, tick),
    ensures
        node_step(pre, post, g, params, anims, dt, tick),
{
    assert(post.at(g) == mid.at(g));
    match pre.at(g) {
        PoseNode::PlayAnimation(_) => {
        },
        PoseNode::BlendAnimations(b0) => {
            let srcs = b0.pose_sources@;
            assert forall|i: int|
                0 <= i < srcs.len() implies node_pose_in(post, #[trigger] srcs[i].pose_source)
                == node_pose_in(mid, srcs[i].pose_source) by {
                let c = srcs[i].pose_source;
                if mid.contains(c) {
                    assert(spec_stamp(mid.at(c)) == tick);
                    assert(post.at(c) == mid.at(c));
                } else {
                    assert(!post.contains(c));
                }
            }
            assert(blend_child_poses(post, srcs) =~= blend_child_poses(mid, srcs));
        },
        PoseNode::BlendAnimationsByIndex(x0) => {
            if x0.inputs@.len() > 0 {
                let len = x0.inputs@.len() as int;
                let idx = clamped_index(
                    crate::parameter::spec_index(params, x0.index_parameter@),
                    len,
                );
                let c = x0.inputs@[idx].pose_source;
                if mid.contains(c) {
                    assert(spec_stamp(mid.at(c)) == tick);
                    assert(post.at(c) == mid.at(c));
                } else {
                    assert(!post.contains(c));
                }
            }
        },
    }
}

/// A node's step relation also survives the rewrite of one other node `x`,
/// as long as `x` is none of the children the relation reads.
proof fn lemma_node_step_stable_set(
    pre: Pool<PoseNode>,
    mid: Pool<PoseNode>,
    post: Pool<PoseNode>,
    g: Handle,
    x: Handle,
    params: Map<Seq<char>, Parameter>,
    anims: crate::animation::AnimationContainer,
    dt: u32,
    tick: u64,
)
    requires
        node_step(pre, mid, g, params, anims, dt, tick),
        mid.contains(g),
        g != x,
        same_shape(mid, post),
        forall|c: Handle| c != x && mid.contains(c) ==> #[trigger] post.at(c) == mid.at(c),
        mid.contains(x) ==> !children_spec(pre.at(g)).contains(x),
    ensures
        node_step(pre, post, g, params, anims, dt, tick),
{
    assert(post.at(g) == mid.at(g));
    match pre.at(g) {
        PoseNode::PlayAnimation(_) => {
        },
        PoseNode::BlendAnimations(b0) => {
            let srcs = b0.pose_sources@;
            assert forall|i: int|
                0 <= i < srcs.len() implies node_pose_in(post, #[trigger] srcs[i].pose_source)
                == node_pose_in(mid, srcs[i].pose_source) && (post.contains(srcs[i].pose_source)
                ==> post.at(srcs[i].pose_source) == mid.at(srcs[i].pose_source)) by {
                let c = srcs[i].pose_source;
                if mid.contains(c) {
                    if c == x {
                        assert(children_spec(pre.at(g))[i] == c);
                        assert(children_spec(pre.at(g)).contains(x));
                        assert(false);
                    }
                    assert(post.at(c) == mid.at(c));
                } else {
                    assert(!post.contains(c));
                }
            }
            assert(blend_child_poses(post, srcs) =~= blend_child_poses(mid, srcs));
        },
        PoseNode::BlendAnimationsByIndex(x0) => {
            if x0.inputs@.len() > 0 {
                let len = x0.inputs@.len() as int;
                let idx = clamped_index(
                    crate::parameter::spec_index(params, x0.index_parameter@),
                    len,
                );
                let c = x0.inputs@[idx].pose_source;
                if mid.contains(c) {
                    if c == x {
                        assert(children_spec(pre.at(g))[idx] == c);
                        assert(children_spec(pre.at(g)).contains(x));
                        assert(false);
                    }
                    assert(post.at(c) == mid.at(c));
                } else {
                    assert(!post.contains(c));
                }
            }
        },
    }
}

/// After the children frames and the final rewrite of `h` itself — a node
/// that was not yet stamped this tick — the whole evaluation keeps the
/// topology, every already-stamped node, and the touched-are-stamped
/// discipline.
proof fn lemma_finish_set(
    pre: Pool<PoseNode>,
    mid: Pool<PoseNode>,
    post: Pool<PoseNode>,
    h: Handle,
    tick: u64,
)
    requires
        same_shape(pre, mid),
        stamped_preserved(pre, mid, tick),
        touched_are_stamped(pre, mid, tick),
        pre.contains(h),
        spec_stamp(pre.at(h)) != tick,
        post.slot_count() == mid.slot_count(),
        forall|g: Handle| #[trigger] post.contains(g) == mid.contains(g),
        forall|g: Handle| #[trigger] post.birth_of(g) == mid.birth_of(g),
        forall|g: Handle| #[trigger] post.gone(g) == mid.gone(g),
        forall|g: Handle| g != h && mid.contains(g) ==> #[trigger] post.at(g) == mid.at(g),
        same_config(pre.at(h), post.at(h)),
        spec_stamp(post.at(h)) == tick,
    ensures
        same_shape(pre, post),
        stamped_preserved(pre, post, tick),
        touched_are_stamped(pre, post, tick),
{
    assert forall|g: Handle| #[trigger] post.gone(g) == pre.gone(g) by {
        assert(post.gone(g) == mid.gone(g));
        assert(mid.gone(g) == pre.gone(g));
    }
    assert forall|g: Handle| #[trigger]
        pre.contains(g) implies post.birth_of(g) == pre.birth_of(g) && same_config(
        pre.at(g),
        post.at(g),
    ) by {
        assert(mid.contains(g));
        if g != h {
            assert(post.at(g) == mid.at(g));
            assert(same_config(pre.at(g), mid.at(g)));
        }
    }
    assert forall|g: Handle|
        pre.contains(g) && spec_stamp(#[trigger] pre.at(g)) == tick implies post.at(g) == pre.at(
        g,
    ) by {
        assert(g != h);
        assert(mid.contains(g));
        assert(mid.at(g) == pre.at(g));
    }
    assert forall|g: Handle| #[trigger]
        pre.contains(g) implies spec_stamp(post.at(g)) == tick || post.at(g) == pre.at(g) by {
        if g != h {
            assert(mid.contains(g));
            if spec_stamp(mid.at(g)) == tick {
                assert(post.at(g) == mid.at(g));
            }
        }
    }
}

/// Evaluates the pose of node `h` for the current `tick`.
///
/// A node whose cache already carries this tick's stamp is returned from
/// cache, untouched — so over a whole tick every node is computed at most
/// once, no matter how many parents share it.  A handle that resolves to
/// nothing yields the identity pose and changes nothing.  Otherwise the
/// node's children are evaluated first (each under the same discipline),
/// the node's own rule is applied per `node_step`, and the result is
/// stamped into its cache.
///
/// The write frame, deliberately: the contract does not carve out the
/// exact subtree under `h`.  Instead it pins every write — a changed node
/// is freshly stamped (`touched_are_stamped`), satisfies its own
/// evaluation rule against the tick's starting state and was spawned no
/// later than `h` (`fresh_steps`), and `node_step` demands this tick's
/// stamp on every child a rule reads, so freshness is inductive through
/// the DAG.  A node outside the evaluated subtree can thus at most be
/// given the very cache this tick's rules assign it anyway, never a stale
/// or invented one.
#[verifier::loop_isolation(false)]
#[verifier::rlimit(80)]
pub fn evaluate(
    nodes: &mut Pool<PoseNode>,
    h: Handle,
    params: &ParameterContainer,
    animations: &crate::animation::AnimationContainer,
    dt_ms: u32,
    tick: u64,
) -> (pose: AnimationPose)
    requires
        nodes_ok(*old(nodes)),
        params.wf(),
        animations.wf(),
    ensures
        nodes_ok(*final(nodes)),
        same_shape(*old(nodes), *final(nodes)),
        stamped_preserved(*old(nodes), *final(nodes), tick),
        touched_are_stamped(*old(nodes), *final(nodes), tick),
        pose.wf(),
        !old(nodes).contains(h) ==> pose@ == Seq::<crate::math::Transform>::empty()
            && *final(nodes) == *old(nodes),
        old(nodes).contains(h) && spec_stamp(old(nodes).at(h)) == tick
            ==> *final(nodes) == *old(nodes) && pose@ == spec_cached(old(nodes).at(h))@,
        old(nodes).contains(h) && spec_stamp(old(nodes).at(h)) != tick ==> pose@ == spec_cached(
            final(nodes).at(h),
        )@ && node_step(*old(nodes), *final(nodes), h, params@, *animations, dt_ms, tick),
        fresh_steps(*old(nodes), *final(nodes), h, params@, *animations, dt_ms, tick),
    decreases old(nodes).birth_of(h),
{
    let ghost pre = *nodes;
    if !nodes.is_valid(h) {
        return AnimationPose::new();
    }
    if nodes.borrow(h).cache_tick() == tick {
        return nodes.borrow(h).pose().duplicate();
    }
    let ghost n0 = pre.at(h);
    match nodes.borrow(h) {
        PoseNode::PlayAnimation(p) => {
            let base = p.base;
            let anim = p.animation;
            let speed = p.speed;
            let t0 = p.time_ms;
            let t1 = advance_time_exec(t0, dt_ms, speed);
            let sampled = animations.sample(anim, t1);
            let cache = sampled.duplicate();
            let ghost mid = *nodes;
            nodes.set(
                h,
                PoseNode::PlayAnimation(
                    PlayAnimation {
                        base,
                        animation: anim,
                        speed,
                        time_ms: t1,
                        cache_pose: cache,
                        cache_stamp: tick,
                    },
                ),
            );
            proof {
                lemma_nodes_ok_after_set(mid, *nodes, h);
                lemma_finish_set(pre, mid, *nodes, h, tick);
                assert(node_step(pre, *nodes, h, params@, *animations, dt_ms, tick));
                assert forall|g: Handle|
                    pre.contains(g) && spec_stamp(#[trigger] pre.at(g)) != tick && spec_stamp(
                        nodes.at(g),
                    ) == tick implies node_step(pre, *nodes, g, params@, *animations, dt_ms, tick)
                    && nodes.birth_of(g) <= pre.birth_of(h) by {
                    if g != h {
                        assert(nodes.at(g) == mid.at(g));
                        assert(mid == pre);
                        assert(false);
                    }
                }
                assert(fresh_steps(pre, *nodes, h, params@, *animations, dt_ms, tick));
            }
            sampled
        },
        PoseNode::BlendAnimations(b) => {
            let base = b.base;
            let srcs = dup_blend_sources(&b.pose_sources);
            let n_src = srcs.len();
            proof {
                assert(srcs@ == n0->BlendAnimations_0.pose_sources@);
            }
            let mut child_poses: Vec<AnimationPose> = Vec::new();
            let mut raw_ws: Vec<u64> = Vec::new();
            for i in 0..n_src
                invariant
                    nodes_ok(*nodes),
                    same_shape(pre, *nodes),
                    stamped_preserved(pre, *nodes, tick),
                    touched_are_stamped(pre, *nodes, tick),
                    child_poses@.len() == i,
                    raw_ws@.len() == i,
                    forall|j: int|
                        0 <= j < i ==> raw_ws@[j] == nonneg_weight(
                            weight_value(srcs@[j].weight, params@),
                        ),
                    forall|j: int| 0 <= j < i ==> (#[trigger] child_poses@[j]).wf(),
                    forall|j: int|
                        0 <= j < i ==> (#[trigger] child_poses@[j])@ == node_pose_in(
                            *nodes,
                            srcs@[j].pose_source,
                        ),
                    forall|j: int|
                        0 <= j < i ==> !nodes.contains(#[trigger] srcs@[j].pose_source)
                            || spec_stamp(nodes.at(srcs@[j].pose_source)) == tick,
                    fresh_steps(pre, *nodes, h, params@, *animations, dt_ms, tick),
            {
                let c = srcs[i].pose_source;
                let ghost mid = *nodes;
                let p_i: AnimationPose;
                if nodes.is_valid(c) {
                    proof {
                        assert(children_spec(pre.at(h)).contains(c)) by {
                            assert(children_spec(pre.at(h))[i as int] == c);
                        }
                        assert(pre.contains(c));
                        assert(nodes.birth_of(c) == pre.birth_of(c));
                        assert(pre.birth_of(c) < pre.birth_of(h));
                    }
                    p_i = evaluate(nodes, c, params, animations, dt_ms, tick);
                    proof {
                        lemma_frames_compose(pre, mid, *nodes, tick);
                        assert forall|g: Handle|
                            pre.contains(g) && spec_stamp(#[trigger] pre.at(g)) != tick
                                && spec_stamp(nodes.at(g)) == tick implies node_step(
                            pre,
                            *nodes,
                            g,
                            params@,
                            *animations,
                            dt_ms,
                            tick,
                        ) && nodes.birth_of(g) <= pre.birth_of(h) by {
                            assert(mid.contains(g));
                            if spec_stamp(mid.at(g)) == tick {
                                assert(node_step(pre, mid, g, params@, *animations, dt_ms, tick));
                                assert(mid.birth_of(g) <= pre.birth_of(h));
                                lemma_node_step_preserved(pre, mid, *nodes, g, params@,
                                    *animations, dt_ms, tick);
                            } else {
                                assert(mid.at(g) == pre.at(g));
                                assert(node_step(mid, *nodes, g, params@, *animations, dt_ms,
                                    tick));
                                assert(nodes.birth_of(g) <= mid.birth_of(c));
                                assert(mid.birth_of(c) == pre.birth_of(c));
                                assert(node_step(pre, *nodes, g, params@, *animations, dt_ms,
                                    tick));
                            }
                        }
                        assert(fresh_steps(pre, *nodes, h, params@, *animations, dt_ms, tick));
                    }
                } else {
                    p_i = AnimationPose::new();
                }
                let wv: i64 = match &srcs[i].weight {
                    PoseWeight::Constant(cst) => *cst,
                    PoseWeight::Parameter(nm) => params.weight_of(nm.as_str()),
                };
                let w: u64 = if wv < 0 {
                    0
                } else {
                    wv as u64
                };
                child_poses.push(p_i);
                raw_ws.push(w);
                proof {
                    assert forall|j: int| 0 <= j < i + 1 implies (#[trigger] child_poses@[j])@
                        == node_pose_in(*nodes, srcs@[j].pose_source) by {
                        if j < i {
                            let cj = srcs@[j].pose_source;
                            if mid.contains(cj) {
                                assert(spec_stamp(mid.at(cj)) == tick);
                                assert(nodes.at(cj) == mid.at(cj));
                            } else {
                                assert(!nodes.contains(cj));
                            }
                        }
                    }
                }
            }
            let blended = AnimationPose::blend(&child_poses, &raw_ws);
            let cache = blended.duplicate();
            let ghost mid2 = *nodes;
            nodes.set(
                h,
                PoseNode::BlendAnimations(
                    BlendAnimations {
                        base,
                        pose_sources: srcs,
                        cache_pose: cache,
                        cache_stamp: tick,
                    },
                ),
            );
            proof {
                assert(same_config(mid2.at(h), nodes.at(h))) by {
                    assert(same_config(pre.at(h), mid2.at(h)));
                }
                lemma_nodes_ok_after_set(mid2, *nodes, h);
                lemma_finish_set(pre, mid2, *nodes, h, tick);
                assert forall|j: int|
                    0 <= j < srcs@.len() implies node_pose_in(*nodes, srcs@[j].pose_source)
                    == node_pose_in(mid2, #[trigger] srcs@[j].pose_source) by {
                    let cj = srcs@[j].pose_source;
                    if mid2.contains(cj) {
                        assert(cj != h || spec_stamp(mid2.at(cj)) == tick);
                        if cj == h {
                            assert(children_spec(pre.at(h)).contains(cj)) by {
                                assert(children_spec(pre.at(h))[j] == cj);
                            }
                            assert(pre.birth_of(cj) < pre.birth_of(h));
                            assert(false);
                        }
                    }
                }
                assert(blend_child_poses(*nodes, srcs@) =~= crate::pose::views_of(child_poses@));
                assert(blend_input_weights(srcs@, params@) =~= raw_ws@);
                assert(node_step(pre, *nodes, h, params@, *animations, dt_ms, tick));
                assert(same_shape(mid2, *nodes));
                assert forall|g: Handle|
                    pre.contains(g) && spec_stamp(#[trigger] pre.at(g)) != tick && spec_stamp(
                        nodes.at(g),
                    ) == tick implies node_step(pre, *nodes, g, params@, *animations, dt_ms, tick)
                    && nodes.birth_of(g) <= pre.birth_of(h) by {
                    if g != h {
                        if spec_stamp(mid2.at(g)) == tick {
                            assert(node_step(pre, mid2, g, params@, *animations, dt_ms, tick));
                            assert(mid2.birth_of(g) <= pre.birth_of(h));
                            assert(mid2.contains(g));
                            assert(!children_spec(pre.at(g)).contains(h)) by {
                                if children_spec(pre.at(g)).contains(h) {
                                    lemma_same_config_children(pre.at(g), mid2.at(g));
                                    assert(children_spec(mid2.at(g)).contains(h));
                                    assert(mid2.contains(h));
                                    assert(mid2.birth_of(h) < mid2.birth_of(g));
                                    assert(mid2.birth_of(h) == pre.birth_of(h));
                                    assert(mid2.birth_of(g) == pre.birth_of(g));
                                }
                            }
                            lemma_node_step_stable_set(pre, mid2, *nodes, g, h, params@,
                                *animations, dt_ms, tick);
                        } else {
                            assert(nodes.at(g) == mid2.at(g));
                            assert(false);
                        }
                    }
                }
                assert(fresh_steps(pre, *nodes, h, params@, *animations, dt_ms, tick));
            }
            blended
        },
        PoseNode::BlendAnimationsByIndex(x) => {
            let base = x.base;
            let index_parameter = x.index_parameter.clone();
            let inputs = dup_inputs(&x.inputs);
            let active0 = x.active_index;
            let fade_rem0 = x.fade_remaining_ms;
            let fade_tot0 = x.fade_total_ms;
            let prev0 = x.prev_pose.duplicate();
            let cache0 = x.cache_pose.duplicate();
            proof {
                assert(inputs@ == n0->BlendAnimationsByIndex_0.inputs@);
                assert(fade_rem0 <= fade_tot0);
            }
            if inputs.len() == 0 {
                let ghost mid = *nodes;
                nodes.set(
                    h,
                    PoseNode::BlendAnimationsByIndex(
                        BlendAnimationsByIndex {
                            base,
                            index_parameter,
                            inputs,
                            active_index: active0,
                            fade_remaining_ms: fade_rem0,
                            fade_total_ms: fade_tot0,
                            prev_pose: prev0,
                            cache_pose: AnimationPose::new(),
                            cache_stamp: tick,
                        },
                    ),
                );
                proof {
                    lemma_nodes_ok_after_set(mid, *nodes, h);
                    lemma_finish_set(pre, mid, *nodes, h, tick);
                    assert(spec_cached(nodes.at(h))@ =~= Seq::<crate::math::Transform>::empty());
                    assert(node_step(pre, *nodes, h, params@, *animations, dt_ms, tick));
                    assert forall|g: Handle|
                        pre.contains(g) && spec_stamp(#[trigger] pre.at(g)) != tick
                            && spec_stamp(nodes.at(g)) == tick implies node_step(
                        pre,
                        *nodes,
                        g,
                        params@,
                        *animations,
                        dt_ms,
                        tick,
                    ) && nodes.birth_of(g) <= pre.birth_of(h) by {
                        if g != h {
                            assert(nodes.at(g) == mid.at(g));
                            assert(mid == pre);
                            assert(false);
                        }
                    }
                    assert(fresh_steps(pre, *nodes, h, params@, *animations, dt_ms, tick));
                }
                return AnimationPose::new();
            }
            let len = inputs.len();
            let pidx = params.index_of(index_parameter.as_str());
            let idx: usize = if (pidx as usize) < len {
                pidx as usize
            } else {
                len - 1
            };
            proof {
                assert(idx < len);
                assert(idx as int == clamped_index(pidx, len as int));
                assert(idx <= 0xFFFF_FFFF);
            }
            let switching = idx != (active0 as usize);
            let fade_total = if switching {
                inputs[idx].blend_time_ms
            } else {
                fade_tot0
            };
            let fade_before = if switching {
                fade_total
            } else {
                fade_rem0
            };
            let fade_after = if fade_before > dt_ms {
                fade_before - dt_ms
            } else {
                0
            };
            let prev = if switching {
                cache0
            } else {
                prev0
            };
            let c = inputs[idx].pose_source;
            let ghost mid0 = *nodes;
            let child_pose: AnimationPose;
            if nodes.is_valid(c) {
                proof {
                    assert(children_spec(pre.at(h)).contains(c)) by {
                        assert(children_spec(pre.at(h))[idx as int] == c);
                    }
                    assert(pre.contains(c));
                    assert(pre.birth_of(c) < pre.birth_of(h));
                }
                child_pose = evaluate(nodes, c, params, animations, dt_ms, tick);
                proof {
                    lemma_frames_compose(pre, mid0, *nodes, tick);
                    assert(mid0 == pre);
                    assert forall|g: Handle|
                        pre.contains(g) && spec_stamp(#[trigger] pre.at(g)) != tick
                            && spec_stamp(nodes.at(g)) == tick implies node_step(
                        pre,
                        *nodes,
                        g,
                        params@,
                        *animations,
                        dt_ms,
                        tick,
                    ) && nodes.birth_of(g) <= pre.birth_of(h) by {
                        assert(node_step(pre, *nodes, g, params@, *animations, dt_ms, tick));
                        assert(nodes.birth_of(g) <= pre.birth_of(c));
                    }
                    assert(fresh_steps(pre, *nodes, h, params@, *animations, dt_ms, tick));
                }
            } else {
                child_pose = AnimationPose::new();
                proof {
                    assert(fresh_steps(pre, *nodes, h, params@, *animations, dt_ms, tick));
                }
            }
            let ghost childv = child_pose@;
            proof {
                assert(childv == node_pose_in(*nodes, c));
            }
            let out: AnimationPose;
            let stored_prev: AnimationPose;
            if fade_after > 0 {
                let mut bl_poses: Vec<AnimationPose> = Vec::new();
                bl_poses.push(prev.duplicate());
                bl_poses.push(child_pose);
                let mut bl_ws: Vec<u64> = Vec::new();
                bl_ws.push(fade_after as u64);
                bl_ws.push((fade_total - fade_after) as u64);
                out = AnimationPose::blend(&bl_poses, &bl_ws);
                stored_prev = prev;
                proof {
                    assert(crate::pose::views_of(bl_poses@) =~= seq![stored_prev@, childv]);
                    assert(bl_ws@ =~= seq![fade_after as u64, (fade_total - fade_after) as u64]);
                }
            } else {
                // The fade is over: the retained pose is dropped.
                out = child_pose;
                stored_prev = AnimationPose::new();
            }
            let cache = out.duplicate();
            let ghost mid1 = *nodes;
            nodes.set(
                h,
                PoseNode::BlendAnimationsByIndex(
                    BlendAnimationsByIndex {
                        base,
                        index_parameter,
                        inputs,
                        active_index: idx as u32,
                        fade_remaining_ms: fade_after,
                        fade_total_ms: fade_total,
                        prev_pose: stored_prev,
                        cache_pose: cache,
                        cache_stamp: tick,
                    },
                ),
            );
            proof {
                assert(same_config(mid1.at(h), nodes.at(h))) by {
                    assert(same_config(pre.at(h), mid1.at(h)));
                }
                lemma_nodes_ok_after_set(mid1, *nodes, h);
                lemma_finish_set(pre, mid1, *nodes, h, tick);
                assert(node_pose_in(*nodes, c) == node_pose_in(mid1, c)) by {
                    if mid1.contains(c) && c == h {
                        assert(children_spec(pre.at(h)).contains(c)) by {
                            assert(children_spec(pre.at(h))[idx as int] == c);
                        }
                        assert(pre.birth_of(c) < pre.birth_of(h));
                        assert(false);
                    }
                }
                if fade_after == 0 {
                    assert(stored_prev@ =~= Seq::<crate::math::Transform>::empty());
                }
                assert(node_step(pre, *nodes, h, params@, *animations, dt_ms, tick));
                assert(same_shape(mid1, *nodes));
                assert forall|g: Handle|
                    pre.contains(g) && spec_stamp(#[trigger] pre.at(g)) != tick && spec_stamp(
                        nodes.at(g),
                    ) == tick implies node_step(pre, *nodes, g, params@, *animations, dt_ms, tick)
                    && nodes.birth_of(g) <= pre.birth_of(h) by {
                    if g != h {
                        if spec_stamp(mid1.at(g)) == tick {
                            assert(node_step(pre, mid1, g, params@, *animations, dt_ms, tick));
                            assert(mid1.birth_of(g) <= pre.birth_of(h));
                            assert(mid1.contains(g));
                            assert(!children_spec(pre.at(g)).contains(h)) by {
                                if children_spec(pre.at(g)).contains(h) {
                                    lemma_same_config_children(pre.at(g), mid1.at(g));
                                    assert(children_spec(mid1.at(g)).contains(h));
                                    assert(mid1.contains(h));
                                    assert(mid1.birth_of(h) < mid1.birth_of(g));
                                    assert(mid1.birth_of(h) == pre.birth_of(h));
                                    assert(mid1.birth_of(g) == pre.birth_of(g));
                                }
                            }
                            lemma_node_step_stable_set(pre, mid1, *nodes, g, h, params@,
                                *animations, dt_ms, tick);
                        } else {
                            assert(nodes.at(g) == mid1.at(g));
                            assert(false);
                        }
                    }
                }
                assert(fresh_steps(pre, *nodes, h, params@, *animations, dt_ms, tick));
            }
            out
        },
    }
}

} // verus!
