//! The animation state machine.
//!
//! A machine owns the pose node graph, the set of states, the list of
//! transitions and the parameter table.  Each tick it either rests in its
//! active state, or runs the one active transition, cross-fading the source
//! state's pose into the destination state's and promoting the destination
//! when the transition's duration has elapsed.  While a transition runs no
//! other transition may start.

use vstd::prelude::*;
use crate::animation::AnimationContainer;
use crate::math::Transform;
use crate::node::{children_spec, evaluate, fresh_steps, lemma_node_step_preserved,
    lemma_stepped_frames_compose, node_pose_in, node_step, node_wf, nodes_ok, same_config,
    same_shape, spec_stamp, stamped_preserved, stepped_frame, touched_are_stamped,
    BlendAnimations, BlendAnimationsByIndex, PlayAnimation, PoseNode};
use crate::parameter::{Parameter, ParameterContainer};
use crate::pool::{spec_none_handle, Handle, Pool};
use crate::pose::{lerp_result, AnimationPose};
use crate::state::State;
use crate::transition::{condition_holds, Transition};

verus! {

/// A transition is ready when it leaves the given state, both its endpoint
/// states exist, and its condition holds of the parameter snapshot.
pub open spec fn ready_spec(
    states: Pool<State>,
    t: Transition,
    from: Handle,
    params: Map<Seq<char>, Parameter>,
) -> bool {
    &&& t.source == from
    &&& states.contains(t.source)
    &&& states.contains(t.dest)
    &&& condition_holds(t.condition, params)
}

/// The first ready transition at or after slot `i`, in slot order.
pub open spec fn first_ready_from(
    trs: Pool<Transition>,
    states: Pool<State>,
    from: Handle,
    params: Map<Seq<char>, Parameter>,
    i: int,
) -> Option<Handle>
    decreases trs.slot_count() - i,
{
    if i < 0 || i >= trs.slot_count() {
        None
    } else if trs.slot_live(i) && ready_spec(states, trs.at(trs.slot_handle(i)), from, params) {
        Some(trs.slot_handle(i))
    } else {
        first_ready_from(trs, states, from, params, i + 1)
    }
}

/// The first ready transition of the machine, in slot order, for a tick
/// that starts from state `from`.
pub open spec fn first_ready(m: Machine, from: Handle) -> Option<Handle> {
    first_ready_from(m.spec_transitions(), m.spec_states(), from, m.spec_params(), 0)
}

/// Two transitions with the same endpoints, duration, name and condition:
/// only the elapsed time may differ.
pub open spec fn same_transition_config(a: Transition, b: Transition) -> bool {
    &&& a.name@ == b.name@
    &&& a.source == b.source
    &&& a.dest == b.dest
    &&& a.duration_ms == b.duration_ms
    &&& a.condition == b.condition
}

/// A tick rewrites at most the elapsed time of transition `th`; every other
/// transition is untouched.
pub open spec fn transitions_frame(
    pre: Pool<Transition>,
    post: Pool<Transition>,
    th: Handle,
) -> bool {
    &&& post.slot_count() == pre.slot_count()
    &&& forall|g: Handle| #[trigger] post.contains(g) == pre.contains(g)
    &&& forall|g: Handle|
        g != th && pre.contains(g) ==> #[trigger] post.at(g) == pre.at(g)
    &&& pre.contains(th) ==> same_transition_config(pre.at(th), post.at(th))
}

/// After a tick, a state the tick evaluated carries a fresh pose: its root
/// (when it resolves) is stamped at the new tick, and — unless something
/// had already stamped the root this tick — the root satisfies the
/// evaluation rule `node_step` against the tick's starting graph.
pub open spec fn state_evaluated(
    pre: Machine,
    post: Machine,
    anims: AnimationContainer,
    dt: u32,
    s: Handle,
) -> bool {
    pre.spec_states().contains(s) ==> {
        let root = pre.spec_states().at(s).root;
        let tick = (pre.spec_tick() + 1) as u64;
        &&& (post.spec_nodes().contains(root) ==> spec_stamp(post.spec_nodes().at(root)) == tick)
        &&& (pre.spec_nodes().contains(root) && spec_stamp(pre.spec_nodes().at(root)) != tick
            ==> node_step(
            pre.spec_nodes(),
            post.spec_nodes(),
            root,
            pre.spec_params(),
            anims,
            dt,
            tick,
        ))
    }
}

/// The parameter-driven pose evaluation and state transition machine.
pub struct Machine {
    nodes: Pool<PoseNode>,
    states: Pool<State>,
    transitions: Pool<Transition>,
    parameters: ParameterContainer,
    entry_state: Handle,
    active_state: Handle,
    active_transition: Handle,
    tick: u64,
}

impl Machine {
    /// The pose node graph.
    pub closed spec fn spec_nodes(self) -> Pool<PoseNode> {
        self.nodes
    }

    /// The states.
    pub closed spec fn spec_states(self) -> Pool<State> {
        self.states
    }

    /// The transitions.
    pub closed spec fn spec_transitions(self) -> Pool<Transition> {
        self.transitions
    }

    /// The parameter snapshot.
    pub closed spec fn spec_params(self) -> Map<Seq<char>, Parameter> {
        self.parameters@
    }

    /// The state entered when no state is active yet.
    pub closed spec fn spec_entry(self) -> Handle {
        self.entry_state
    }

    /// The active state; the reserved handle before the first tick.
    pub closed spec fn spec_active_state(self) -> Handle {
        self.active_state
    }

    /// The active transition; the reserved handle while idle.
    pub closed spec fn spec_active_transition(self) -> Handle {
        self.active_transition
    }

    /// How many ticks have run.
    pub closed spec fn spec_tick(self) -> u64 {
        self.tick
    }

    /// The machine's invariant: every pool is well-formed, the node graph
    /// is a sound DAG, no cache stamp is ahead of the tick counter, and a
    /// running transition resolves, has not overrun its duration, and still
    /// has both endpoint states.
    pub closed spec fn wf(self) -> bool {
        &&& nodes_ok(self.nodes)
        &&& self.states.wf()
        &&& self.states.slot_count() <= 0xFFFF_FFFF
        &&& self.transitions.wf()
        &&& self.transitions.slot_count() <= 0xFFFF_FFFF
        &&& self.parameters.wf()
        &&& forall|h: Handle| #[trigger]
            self.nodes.contains(h) ==> spec_stamp(self.nodes.at(h)) <= self.tick
        &&& forall|g: Handle, c: Handle|
            self.nodes.contains(g) && #[trigger] children_spec(self.nodes.at(g)).contains(c)
                ==> self.nodes.contains(c) || self.nodes.gone(c)
        &&& (self.active_transition != spec_none_handle() ==> {
            &&& self.transitions.contains(self.active_transition)
            &&& self.transitions.at(self.active_transition).elapsed_ms <= self.transitions.at(
                self.active_transition,
            ).duration_ms
            &&& self.states.contains(self.transitions.at(self.active_transition).source)
            &&& self.states.contains(self.transitions.at(self.active_transition).dest)
        })
    }

    /// The state the next tick will treat as active.
    pub open spec fn resolved_active(self) -> Handle {
        if self.spec_active_state() == spec_none_handle() {
            self.spec_entry()
        } else {
            self.spec_active_state()
        }
    }

    /// The cached pose of a state's root subtree; the identity pose when
    /// the state or its root no longer resolves.
    pub open spec fn state_pose(self, s: Handle) -> Seq<Transform> {
        if self.spec_states().contains(s) {
            node_pose_in(self.spec_nodes(), self.spec_states().at(s).root)
        } else {
            Seq::empty()
        }
    }

    /// An empty machine: no nodes, states, transitions or parameters.
    pub fn new() -> (m: Machine)
        ensures
            m.wf(),
            m.spec_tick() == 0,
            m.spec_nodes().slot_count() == 0,
            m.spec_states().slot_count() == 0,
            m.spec_transitions().slot_count() == 0,
            m.spec_entry() == spec_none_handle(),
            m.spec_active_state() == spec_none_handle(),
            m.spec_active_transition() == spec_none_handle(),
            forall|h: Handle| !(#[trigger] m.spec_nodes().contains(h)),
            forall|h: Handle| !(#[trigger] m.spec_states().contains(h)),
            forall|h: Handle| !(#[trigger] m.spec_transitions().contains(h)),
            m.spec_params() == Map::<Seq<char>, Parameter>::empty(),
    {
        Machine {
            nodes: Pool::new(),
            states: Pool::new(),
            transitions: Pool::new(),
            parameters: ParameterContainer::new(),
            entry_state: Handle::none(),
            active_state: Handle::none(),
            active_transition: Handle::none(),
            tick: 0,
        }
    }

    /// Adds a node to the pose graph with its cache, local time and fade
    /// bookkeeping cleared.  The node is rejected — nothing is added and
    /// the reserved handle comes back — unless every child it references
    /// resolves in the graph right now; this construction-time check is
    /// what keeps the graph a DAG.
    pub fn add_node(&mut self, node: PoseNode) -> (r: Handle)
        requires
            old(self).wf(),
            old(self).spec_nodes().slot_count() < 0xFFFF_FFFF,
        ensures
            final(self).wf(),
            final(self).spec_states() == old(self).spec_states(),
            final(self).spec_transitions() == old(self).spec_transitions(),
            final(self).spec_params() == old(self).spec_params(),
            final(self).spec_entry() == old(self).spec_entry(),
            final(self).spec_active_state() == old(self).spec_active_state(),
            final(self).spec_active_transition() == old(self).spec_active_transition(),
            final(self).spec_tick() == old(self).spec_tick(),
            r == spec_none_handle() <==> !(forall|i: int|
                0 <= i < children_spec(node).len() ==> old(self).spec_nodes().contains(
                    #[trigger] children_spec(node)[i],
                )),
            r == spec_none_handle() ==> *final(self) == *old(self),
            final(self).spec_nodes().slot_count() <= old(self).spec_nodes().slot_count() + 1,
            r != spec_none_handle() ==> {
                &&& final(self).spec_nodes().contains(r)
                &&& !old(self).spec_nodes().contains(r)
                &&& same_config(node, final(self).spec_nodes().at(r))
                &&& spec_stamp(final(self).spec_nodes().at(r)) == 0
                &&& forall|g: Handle|
                    old(self).spec_nodes().contains(g) ==> final(self).spec_nodes().contains(g)
                        && final(self).spec_nodes().at(g) == old(self).spec_nodes().at(g)
            },
    {
        let children = node.children();
        let n_children = children.len();
        let mut i: usize = 0;
        let mut all_ok = true;
        while i < n_children
            invariant
                n_children == children@.len(),
                children@ == children_spec(node),
                i <= n_children,
                all_ok == (forall|j: int|
                    0 <= j < i ==> self.nodes.contains(#[trigger] children@[j])),
                *self == *old(self),
            decreases n_children - i,
        {
            if !self.nodes.is_valid(children[i]) {
                all_ok = false;
                proof {
                    assert(!self.nodes.contains(children@[i as int]));
                }
                i = n_children;
            } else {
                i += 1;
            }
        }
        if !all_ok {
            proof {
                assert(!(forall|j: int|
                    0 <= j < children_spec(node).len() ==> old(self).spec_nodes().contains(
                        #[trigger] children_spec(node)[j],
                    )));
            }
            return Handle::none();
        }
        let clean = reset_node(node);
        let ghost pre = self.nodes;
        let h = self.nodes.spawn(clean);
        proof {
            assert forall|g: Handle| #[trigger] self.nodes.contains(g) implies node_wf(
                self.nodes.at(g),
            ) by {
                if g != h {
                    assert(pre.contains(g));
                }
            }
            assert forall|g: Handle, c: Handle|
                self.nodes.contains(g) && self.nodes.contains(c)
                    && #[trigger] children_spec(self.nodes.at(g)).contains(c) implies
                self.nodes.birth_of(c) < self.nodes.birth_of(g) by {
                if g == h {
                    let cs = children_spec(self.nodes.at(h));
                    assert(cs == children_spec(node));
                    let j = choose|j: int| 0 <= j < cs.len() && cs[j] == c;
                    assert(pre.contains(cs[j]));
                    assert(pre.contains(c));
                } else {
                    assert(pre.contains(g));
                    if c == h {
                        // An old node's dangling child can never coincide
                        // with a fresh handle: once dead, dead for good.
                        assert(pre.contains(c) || pre.gone(c));
                        assert(!pre.gone(h));
                        assert(pre.contains(c));
                    } else {
                        assert(pre.contains(c));
                    }
                }
            }
            assert forall|g: Handle| #[trigger]
                self.nodes.contains(g) implies spec_stamp(self.nodes.at(g)) <= self.tick by {
                if g != h {
                    assert(pre.contains(g));
                }
            }
            assert forall|g: Handle, c: Handle|
                self.nodes.contains(g) && #[trigger] children_spec(self.nodes.at(g)).contains(
                    c,
                ) implies self.nodes.contains(c) || self.nodes.gone(c) by {
                if g == h {
                    let cs = children_spec(self.nodes.at(h));
                    assert(cs == children_spec(node));
                    let j = choose|j: int| 0 <= j < cs.len() && cs[j] == c;
                    assert(pre.contains(cs[j]));
                } else {
                    assert(pre.contains(g));
                    assert(pre.contains(c) || pre.gone(c));
                }
            }
        }
        h
    }

    /// Removes a node from the pose graph.  Handles to it — including
    /// children lists of other nodes and state roots — stop resolving and
    /// degrade gracefully at evaluation.
    pub fn remove_node(&mut self, h: Handle) -> (removed: bool)
        requires
            old(self).wf(),
        ensures
            final(self).wf(),
            removed == old(self).spec_nodes().contains(h),
            !final(self).spec_nodes().contains(h),
            final(self).spec_nodes().slot_count() == old(self).spec_nodes().slot_count(),
            forall|g: Handle|
                g != h ==> (final(self).spec_nodes().contains(g) == old(self).spec_nodes().contains(
                    g,
                )) && (old(self).spec_nodes().contains(g) ==> final(self).spec_nodes().at(g) == old(
                    self,
                ).spec_nodes().at(g)),
            final(self).spec_states() == old(self).spec_states(),
            final(self).spec_transitions() == old(self).spec_transitions(),
            final(self).spec_params() == old(self).spec_params(),
            final(self).spec_entry() == old(self).spec_entry(),
            final(self).spec_active_state() == old(self).spec_active_state(),
            final(self).spec_active_transition() == old(self).spec_active_transition(),
            final(self).spec_tick() == old(self).spec_tick(),
    {
        let ghost pre = self.nodes;
        let removed = self.nodes.free(h);
        proof {
            assert forall|g: Handle| #[trigger] self.nodes.contains(g) implies node_wf(
                self.nodes.at(g),
            ) && spec_stamp(self.nodes.at(g)) <= self.tick by {
                assert(g != h);
                assert(pre.contains(g));
            }
            assert forall|g: Handle, c: Handle|
                self.nodes.contains(g) && self.nodes.contains(c)
                    && #[trigger] children_spec(self.nodes.at(g)).contains(c) implies
                self.nodes.birth_of(c) < self.nodes.birth_of(g) by {
                assert(g != h && c != h);
                assert(pre.contains(g) && pre.contains(c));
            }
            assert forall|g: Handle, c: Handle|
                self.nodes.contains(g) && #[trigger] children_spec(self.nodes.at(g)).contains(
                    c,
                ) implies self.nodes.contains(c) || self.nodes.gone(c) by {
                assert(g != h);
                assert(pre.contains(g));
                assert(pre.contains(c) || pre.gone(c));
                if pre.contains(c) && c == h {
                    assert(self.nodes.gone(c));
                }
            }
        }
        removed
    }

    /// Adds a state.  A dangling root is allowed: it is a silent no-pose
    /// condition, not an error.
    pub fn add_state(&mut self, state: State) -> (h: Handle)
        requires
            old(self).wf(),
            old(self).spec_states().slot_count() < 0xFFFF_FFFF,
        ensures
            final(self).wf(),
            final(self).spec_states().contains(h),
            !old(self).spec_states().contains(h),
            h != spec_none_handle(),
            final(self).spec_states().slot_count() <= old(self).spec_states().slot_count() + 1,
            final(self).spec_states().at(h) == state,
            forall|g: Handle|
                old(self).spec_states().contains(g) ==> final(self).spec_states().contains(g)
                    && final(self).spec_states().at(g) == old(self).spec_states().at(g),
            final(self).spec_nodes() == old(self).spec_nodes(),
            final(self).spec_transitions() == old(self).spec_transitions(),
            final(self).spec_params() == old(self).spec_params(),
            final(self).spec_entry() == old(self).spec_entry(),
            final(self).spec_active_state() == old(self).spec_active_state(),
            final(self).spec_active_transition() == old(self).spec_active_transition(),
            final(self).spec_tick() == old(self).spec_tick(),
    {
        self.states.spawn(state)
    }

    /// Adds a transition with its elapsed time cleared.
    pub fn add_transition(&mut self, transition: Transition) -> (h: Handle)
        requires
            old(self).wf(),
            old(self).spec_transitions().slot_count() < 0xFFFF_FFFF,
        ensures
            final(self).wf(),
            final(self).spec_transitions().contains(h),
            !old(self).spec_transitions().contains(h),
            h != spec_none_handle(),
            final(self).spec_transitions().slot_count() <= old(self).spec_transitions(
            ).slot_count() + 1,
            same_transition_config(transition, final(self).spec_transitions().at(h)),
            final(self).spec_transitions().at(h).elapsed_ms == 0,
            forall|g: Handle|
                old(self).spec_transitions().contains(g) ==> final(self).spec_transitions(
                ).contains(g) && final(self).spec_transitions().at(g) == old(
                    self,
                ).spec_transitions().at(g),
            final(self).spec_nodes() == old(self).spec_nodes(),
            final(self).spec_states() == old(self).spec_states(),
            final(self).spec_params() == old(self).spec_params(),
            final(self).spec_entry() == old(self).spec_entry(),
            final(self).spec_active_state() == old(self).spec_active_state(),
            final(self).spec_active_transition() == old(self).spec_active_transition(),
            final(self).spec_tick() == old(self).spec_tick(),
    {
        let mut t = transition;
        t.elapsed_ms = 0;
        let ghost pre = self.transitions;
        let h = self.transitions.spawn(t);
        proof {
            if self.active_transition != spec_none_handle() {
                assert(pre.contains(self.active_transition));
            }
        }
        h
    }

    /// Chooses the state the machine starts from.
    pub fn set_entry_state(&mut self, h: Handle)
        requires
            old(self).wf(),
        ensures
            final(self).wf(),
            final(self).spec_entry() == h,
            final(self).spec_nodes() == old(self).spec_nodes(),
            final(self).spec_states() == old(self).spec_states(),
            final(self).spec_transitions() == old(self).spec_transitions(),
            final(self).spec_params() == old(self).spec_params(),
            final(self).spec_active_state() == old(self).spec_active_state(),
            final(self).spec_active_transition() == old(self).spec_active_transition(),
            final(self).spec_tick() == old(self).spec_tick(),
    {
        self.entry_state = h;
    }

    /// Binds a parameter; called by gameplay code between ticks, never by
    /// the machine itself.
    pub fn set_parameter(&mut self, name: &str, value: Parameter)
        requires
            old(self).wf(),
        ensures
            final(self).wf(),
            final(self).spec_params() == old(self).spec_params().insert(name@, value),
            final(self).spec_nodes() == old(self).spec_nodes(),
            final(self).spec_states() == old(self).spec_states(),
            final(self).spec_transitions() == old(self).spec_transitions(),
            final(self).spec_entry() == old(self).spec_entry(),
            final(self).spec_active_state() == old(self).spec_active_state(),
            final(self).spec_active_transition() == old(self).spec_active_transition(),
            final(self).spec_tick() == old(self).spec_tick(),
    {
        self.parameters.set(name, value);
    }

    /// The value bound to a parameter name, if any.
    pub fn get_parameter(&self, name: &str) -> (r: Option<Parameter>)
        requires
            self.wf(),
        ensures
            match r {
                Some(v) => self.spec_params().contains_key(name@) && v == self.spec_params()[name@],
                None => !self.spec_params().contains_key(name@),
            },
    {
        self.parameters.get(name)
    }

    /// The active state's handle.
    pub fn active_state(&self) -> (h: Handle)
        ensures
            h == self.spec_active_state(),
    {
        self.active_state
    }

    /// The active transition's handle; the reserved handle while idle.
    pub fn active_transition(&self) -> (h: Handle)
        ensures
            h == self.spec_active_transition(),
    {
        self.active_transition
    }

    /// How many ticks have run.
    pub fn current_tick(&self) -> (t: u64)
        ensures
            t == self.spec_tick(),
    {
        self.tick
    }

    /// A shared borrow of a node, if its handle resolves.
    pub fn node(&self, h: Handle) -> (r: Option<&PoseNode>)
        ensures
            match r {
                Some(n) => self.spec_nodes().contains(h) && *n == self.spec_nodes().at(h),
                None => !self.spec_nodes().contains(h),
            },
    {
        self.nodes.try_borrow(h)
    }

    /// A shared borrow of a state, if its handle resolves.
    pub fn state(&self, h: Handle) -> (r: Option<&State>)
        ensures
            match r {
                Some(s) => self.spec_states().contains(h) && *s == self.spec_states().at(h),
                None => !self.spec_states().contains(h),
            },
    {
        self.states.try_borrow(h)
    }

    /// A shared borrow of a transition, if its handle resolves.
    pub fn transition(&self, h: Handle) -> (r: Option<&Transition>)
        ensures
            match r {
                Some(t) => self.spec_transitions().contains(h) && *t == self.spec_transitions().at(
                    h,
                ),
                None => !self.spec_transitions().contains(h),
            },
    {
        self.transitions.try_borrow(h)
    }

    /// Evaluates one state's pose subtree for the tick; a state or root
    /// handle that does not resolve yields the identity pose and changes
    /// nothing.  Afterwards the state's root, if it resolves, is stamped.
    fn eval_state(
        states: &Pool<State>,
        nodes: &mut Pool<PoseNode>,
        params: &ParameterContainer,
        animations: &AnimationContainer,
        dt_ms: u32,
        tick: u64,
        s: Handle,
    ) -> (pose: AnimationPose)
        requires
            nodes_ok(*old(nodes)),
            params.wf(),
            animations.wf(),
        ensures
            nodes_ok(*final(nodes)),
            same_shape(*old(nodes), *final(nodes)),
            stamped_preserved(*old(nodes), *final(nodes), tick),
            touched_are_stamped(*old(nodes), *final(nodes), tick),
            pose.wf(),
            pose@ == (if states.contains(s) {
                node_pose_in(*final(nodes), states.at(s).root)
            } else {
                Seq::<Transform>::empty()
            }),
            states.contains(s) ==> (!final(nodes).contains(states.at(s).root) || spec_stamp(
                final(nodes).at(states.at(s).root),
            ) == tick),
            states.contains(s) && old(nodes).contains(states.at(s).root) && spec_stamp(
                old(nodes).at(states.at(s).root),
            ) != tick ==> node_step(*old(nodes), *final(nodes), states.at(s).root, params@,
            *animations, dt_ms, tick),
            stepped_frame(*old(nodes), *final(nodes), params@, *animations, dt_ms, tick),
            !states.contains(s) ==> *final(nodes) == *old(nodes),
    {
        let r = match states.try_borrow(s) {
            Some(st) => evaluate(nodes, st.root, params, animations, dt_ms, tick),
            None => AnimationPose::new(),
        };
        proof {
            if states.contains(s) {
                assert(fresh_steps(*old(nodes), *nodes, states.at(s).root, params@, *animations,
                    dt_ms, tick));
            }
            assert(stepped_frame(*old(nodes), *nodes, params@, *animations, dt_ms, tick));
        }
        r
    }

    /// Advances the machine by one tick of `dt_ms` milliseconds and
    /// produces the final pose.
    ///
    /// While idle, the first transition (in slot order) that leaves the
    /// active state, whose endpoints both exist and whose condition holds
    /// of the parameters, starts with its elapsed time reset; this tick
    /// then blends at factor zero, so the output still equals the source
    /// state's pose.  While a transition runs, no other may start: its
    /// elapsed time grows by `dt_ms`, both endpoint states are evaluated,
    /// and the output is their cross-fade at `elapsed / duration`.  Once
    /// the elapsed time reaches the duration, the destination becomes the
    /// active state, the transition is cleared, and the output is the
    /// destination's pose.  With no transition ready, the active state
    /// alone is evaluated; if it does not resolve, the output is the
    /// identity pose.
    #[verifier::loop_isolation(false)]
    #[verifier::rlimit(80)]
    pub fn update(&mut self, animations: &AnimationContainer, dt_ms: u32) -> (pose: AnimationPose)
        requires
            old(self).wf(),
            animations.wf(),
            old(self).spec_tick() < u64::MAX,
        ensures
            final(self).wf(),
            pose.wf(),
            final(self).spec_tick() == old(self).spec_tick() + 1,
            final(self).spec_params() == old(self).spec_params(),
            final(self).spec_entry() == old(self).spec_entry(),
            final(self).spec_states() == old(self).spec_states(),
            same_shape(old(self).spec_nodes(), final(self).spec_nodes()),
            touched_are_stamped(
                old(self).spec_nodes(),
                final(self).spec_nodes(),
                (old(self).spec_tick() + 1) as u64,
            ),
            transitions_frame(
                old(self).spec_transitions(),
                final(self).spec_transitions(),
                if old(self).spec_active_transition() == spec_none_handle() {
                    match first_ready(*old(self), old(self).resolved_active()) {
                        Some(th) => th,
                        None => spec_none_handle(),
                    }
                } else {
                    old(self).spec_active_transition()
                },
            ),
            stepped_frame(
                old(self).spec_nodes(),
                final(self).spec_nodes(),
                old(self).spec_params(),
                *animations,
                dt_ms,
                (old(self).spec_tick() + 1) as u64,
            ),
            ({
                let from = old(self).resolved_active();
                if old(self).spec_active_transition() == spec_none_handle() {
                    match first_ready(*old(self), from) {
                        None => state_evaluated(*old(self), *final(self), *animations, dt_ms,
                        from),
                        Some(th) => state_evaluated(
                            *old(self),
                            *final(self),
                            *animations,
                            dt_ms,
                            old(self).spec_transitions().at(th).source,
                        ) && state_evaluated(
                            *old(self),
                            *final(self),
                            *animations,
                            dt_ms,
                            old(self).spec_transitions().at(th).dest,
                        ),
                    }
                } else {
                    state_evaluated(
                        *old(self),
                        *final(self),
                        *animations,
                        dt_ms,
                        old(self).spec_transitions().at(old(self).spec_active_transition()).source,
                    ) && state_evaluated(
                        *old(self),
                        *final(self),
                        *animations,
                        dt_ms,
                        old(self).spec_transitions().at(old(self).spec_active_transition()).dest,
                    )
                }
            }),
            ({
                let from = old(self).resolved_active();
                if old(self).spec_active_transition() == spec_none_handle() {
                    match first_ready(*old(self), from) {
                        None => {
                            &&& final(self).spec_active_transition() == spec_none_handle()
                            &&& final(self).spec_active_state() == from
                            &&& final(self).spec_transitions() == old(self).spec_transitions()
                            &&& pose@ == final(self).state_pose(from)
                        },
                        Some(th) => {
                            &&& final(self).spec_active_transition() == th
                            &&& final(self).spec_active_state() == from
                            &&& final(self).spec_transitions().at(th).elapsed_ms == 0
                            &&& lerp_result(
                                final(self).state_pose(
                                    old(self).spec_transitions().at(th).source,
                                ),
                                final(self).state_pose(old(self).spec_transitions().at(th).dest),
                                0,
                                old(self).spec_transitions().at(th).duration_ms,
                                pose@,
                            )
                        },
                    }
                } else {
                    let th = old(self).spec_active_transition();
                    let t = old(self).spec_transitions().at(th);
                    if t.elapsed_ms + dt_ms >= t.duration_ms {
                        &&& final(self).spec_active_transition() == spec_none_handle()
                        &&& final(self).spec_active_state() == t.dest
                        &&& final(self).spec_transitions().at(th).elapsed_ms == t.duration_ms
                        &&& pose@ == final(self).state_pose(t.dest)
                    } else {
                        &&& final(self).spec_active_transition() == th
                        &&& final(self).spec_active_state() == old(self).spec_active_state()
                        &&& final(self).spec_transitions().at(th).elapsed_ms == t.elapsed_ms
                            + dt_ms
                        &&& lerp_result(
                            final(self).state_pose(t.source),
                            final(self).state_pose(t.dest),
                            (t.elapsed_ms + dt_ms) as u32,
                            t.duration_ms,
                            pose@,
                        )
                    }
                }
            }),
    {
        let ghost m0 = *self;
        let tick = self.tick + 1;
        self.tick = tick;
        let from: Handle = if self.active_state.is_none_handle() {
            self.entry_state
        } else {
            self.active_state
        };
        proof {
            assert(from == m0.resolved_active());
        }
        if self.active_transition.is_none_handle() {
            // Idle: look for the first ready transition, in slot order.
            let n_slots = self.transitions.slot_len();
            proof {
                self.transitions.lemma_slots();
            }
            let mut found: Option<Handle> = None;
            let mut i: usize = 0;
            while i < n_slots
                invariant
                    i <= n_slots,
                    match found {
                        None => first_ready(m0, from) == first_ready_from(
                            m0.spec_transitions(),
                            m0.spec_states(),
                            from,
                            m0.spec_params(),
                            i as int,
                        ),
                        Some(th) => first_ready(m0, from) == Some(th)
                            && self.transitions.contains(th) && ready_spec(
                            m0.spec_states(),
                            self.transitions.at(th),
                            from,
                            m0.spec_params(),
                        ),
                    },
                decreases n_slots - i,
            {
                if found.is_none() {
                    match self.transitions.handle_at(i) {
                        Some(th) => {
                            let t = self.transitions.borrow(th);
                            let ok = t.source == from && self.states.is_valid(t.source)
                                && self.states.is_valid(t.dest) && t.condition.eval(
                                &self.parameters,
                            );
                            if ok {
                                found = Some(th);
                            }
                        },
                        None => {
                        },
                    }
                }
                i += 1;
            }
            proof {
                match found {
                    None => {
                        assert(first_ready(m0, from) is None);
                    },
                    Some(th) => {
                        assert(first_ready(m0, from) == Some(th));
                    },
                }
            }
            match found {
                None => {
                    self.active_state = from;
                    let ghost nodes0 = self.nodes;
                    let pose = Self::eval_state(
                        &self.states,
                        &mut self.nodes,
                        &self.parameters,
                        animations,
                        dt_ms,
                        tick,
                        from,
                    );
                    proof {
                        self.lemma_restore_wf(m0, tick);
                        assert(nodes0 == m0.spec_nodes());
                        assert(stepped_frame(m0.spec_nodes(), self.nodes, m0.spec_params(),
                            *animations, dt_ms, tick));
                        assert(state_evaluated(m0, *self, *animations, dt_ms, from));
                    }
                    pose
                },
                Some(th) => {
                    let mut td = self.transitions.borrow(th).duplicate();
                    let t_src = td.source;
                    let t_dst = td.dest;
                    let dur = td.duration_ms;
                    td.elapsed_ms = 0;
                    self.transitions.set(th, td);
                    self.active_transition = th;
                    self.active_state = from;
                    let ghost nodes0 = self.nodes;
                    let sp = Self::eval_state(
                        &self.states,
                        &mut self.nodes,
                        &self.parameters,
                        animations,
                        dt_ms,
                        tick,
                        t_src,
                    );
                    let ghost nodes1 = self.nodes;
                    let dp = Self::eval_state(
                        &self.states,
                        &mut self.nodes,
                        &self.parameters,
                        animations,
                        dt_ms,
                        tick,
                        t_dst,
                    );
                    let pose = AnimationPose::lerp(&sp, &dp, 0, dur);
                    proof {
                        crate::node::lemma_frames_compose(nodes0, nodes1, self.nodes, tick);
                        self.lemma_restore_wf(m0, tick);
                        self.lemma_source_pose_stable(nodes1, t_src);
                        assert(sp@ == self.state_pose(t_src));
                        assert(dp@ == self.state_pose(t_dst));
                        assert(nodes0 == m0.spec_nodes());
                        lemma_stepped_frames_compose(nodes0, nodes1, self.nodes, m0.spec_params(),
                            *animations, dt_ms, tick);
                        self.lemma_both_states_evaluated(m0, nodes0, nodes1, *animations, dt_ms,
                            tick, t_src, t_dst);
                    }
                    pose
                },
            }
        } else {
            // A transition is running: advance it; no other may start.
            let th = self.active_transition;
            let mut td = self.transitions.borrow(th).duplicate();
            let t_src = td.source;
            let t_dst = td.dest;
            let dur = td.duration_ms;
            let el0 = td.elapsed_ms;
            let complete = (el0 as u64) + (dt_ms as u64) >= (dur as u64);
            let new_el: u32 = if complete {
                dur
            } else {
                el0 + dt_ms
            };
            td.elapsed_ms = new_el;
            self.transitions.set(th, td);
            let ghost nodes0 = self.nodes;
            let sp = Self::eval_state(
                &self.states,
                &mut self.nodes,
                &self.parameters,
                animations,
                dt_ms,
                tick,
                t_src,
            );
            let ghost nodes1 = self.nodes;
            let dp = Self::eval_state(
                &self.states,
                &mut self.nodes,
                &self.parameters,
                animations,
                dt_ms,
                tick,
                t_dst,
            );
            let pose: AnimationPose;
            if complete {
                self.active_state = t_dst;
                self.active_transition = Handle::none();
                pose = dp;
            } else {
                pose = AnimationPose::lerp(&sp, &dp, new_el, dur);
            }
            proof {
                crate::node::lemma_frames_compose(nodes0, nodes1, self.nodes, tick);
                self.lemma_restore_wf(m0, tick);
                self.lemma_source_pose_stable(nodes1, t_src);
                assert(sp@ == self.state_pose(t_src));
                assert(dp@ == self.state_pose(t_dst));
                assert(nodes0 == m0.spec_nodes());
                lemma_stepped_frames_compose(nodes0, nodes1, self.nodes, m0.spec_params(),
                    *animations, dt_ms, tick);
                self.lemma_both_states_evaluated(m0, nodes0, nodes1, *animations, dt_ms, tick,
                    t_src, t_dst);
            }
            pose
        }
    }

    /// Lifts the two per-state evaluation frames of a transition tick —
    /// source first, destination second — to `state_evaluated` facts
    /// against the tick's starting machine.
    proof fn lemma_both_states_evaluated(
        self,
        m0: Machine,
        nodes0: Pool<PoseNode>,
        nodes1: Pool<PoseNode>,
        anims: AnimationContainer,
        dt_ms: u32,
        tick: u64,
        t_src: Handle,
        t_dst: Handle,
    )
        requires
            nodes0 == m0.spec_nodes(),
            tick == (m0.spec_tick() + 1) as u64,
            m0.spec_tick() < u64::MAX,
            self.spec_states() == m0.spec_states(),
            self.spec_params() == m0.spec_params(),
            same_shape(nodes0, nodes1),
            stamped_preserved(nodes0, nodes1, tick),
            touched_are_stamped(nodes0, nodes1, tick),
            stepped_frame(nodes0, nodes1, m0.spec_params(), anims, dt_ms, tick),
            m0.spec_states().contains(t_src) ==> (!nodes1.contains(
                m0.spec_states().at(t_src).root,
            ) || spec_stamp(nodes1.at(m0.spec_states().at(t_src).root)) == tick),
            m0.spec_states().contains(t_src) && nodes0.contains(m0.spec_states().at(t_src).root)
                && spec_stamp(nodes0.at(m0.spec_states().at(t_src).root)) != tick ==> node_step(
                nodes0,
                nodes1,
                m0.spec_states().at(t_src).root,
                m0.spec_params(),
                anims,
                dt_ms,
                tick,
            ),
            same_shape(nodes1, self.spec_nodes()),
            stamped_preserved(nodes1, self.spec_nodes(), tick),
            stepped_frame(nodes1, self.spec_nodes(), m0.spec_params(), anims, dt_ms, tick),
            m0.spec_states().contains(t_dst) ==> (!self.spec_nodes().contains(
                m0.spec_states().at(t_dst).root,
            ) || spec_stamp(self.spec_nodes().at(m0.spec_states().at(t_dst).root)) == tick),
            m0.spec_states().contains(t_dst) && nodes1.contains(m0.spec_states().at(t_dst).root)
                && spec_stamp(nodes1.at(m0.spec_states().at(t_dst).root)) != tick ==> node_step(
                nodes1,
                self.spec_nodes(),
                m0.spec_states().at(t_dst).root,
                m0.spec_params(),
                anims,
                dt_ms,
                tick,
            ),
        ensures
            state_evaluated(m0, self, anims, dt_ms, t_src),
            state_evaluated(m0, self, anims, dt_ms, t_dst),
    {
        if m0.spec_states().contains(t_src) {
            let root_s = m0.spec_states().at(t_src).root;
            if nodes1.contains(root_s) {
                assert(spec_stamp(nodes1.at(root_s)) == tick);
                assert(self.spec_nodes().at(root_s) == nodes1.at(root_s));
            }
            if nodes0.contains(root_s) && spec_stamp(nodes0.at(root_s)) != tick {
                lemma_node_step_preserved(nodes0, nodes1, self.spec_nodes(), root_s,
                    m0.spec_params(), anims, dt_ms, tick);
            }
        }
        if m0.spec_states().contains(t_dst) {
            let root_d = m0.spec_states().at(t_dst).root;
            if nodes0.contains(root_d) && spec_stamp(nodes0.at(root_d)) != tick {
                if spec_stamp(nodes1.at(root_d)) == tick {
                    assert(node_step(nodes0, nodes1, root_d, m0.spec_params(), anims, dt_ms,
                        tick));
                    lemma_node_step_preserved(nodes0, nodes1, self.spec_nodes(), root_d,
                        m0.spec_params(), anims, dt_ms, tick);
                } else {
                    assert(nodes1.at(root_d) == nodes0.at(root_d));
                    assert(node_step(nodes1, self.spec_nodes(), root_d, m0.spec_params(), anims,
                        dt_ms, tick));
                    assert(node_step(nodes0, self.spec_nodes(), root_d, m0.spec_params(), anims,
                        dt_ms, tick));
                }
            }
        }
    }

    /// After a tick's node evaluations — which keep the graph's shape —
    /// the machine's invariant holds again.
    proof fn lemma_restore_wf(self, m0: Machine, tick: u64)
        requires
            m0.wf(),
            tick == m0.spec_tick() + 1,
            m0.spec_tick() < u64::MAX,
            self.spec_tick() == tick,
            nodes_ok(self.spec_nodes()),
            same_shape(m0.spec_nodes(), self.spec_nodes()),
            touched_are_stamped(m0.spec_nodes(), self.spec_nodes(), tick),
            self.spec_states() == m0.spec_states(),
            self.spec_params() == m0.spec_params(),
            self.parameters.wf(),
            self.spec_active_transition() != spec_none_handle() ==> {
                &&& self.spec_transitions().contains(self.spec_active_transition())
                &&& self.spec_transitions().at(self.spec_active_transition()).elapsed_ms
                    <= self.spec_transitions().at(self.spec_active_transition()).duration_ms
                &&& self.spec_states().contains(
                    self.spec_transitions().at(self.spec_active_transition()).source,
                )
                &&& self.spec_states().contains(
                    self.spec_transitions().at(self.spec_active_transition()).dest,
                )
            },
            self.spec_transitions().wf(),
            self.spec_transitions().slot_count() == m0.spec_transitions().slot_count(),
        ensures
            self.wf(),
    {
        let pre = m0.spec_nodes();
        let post = self.spec_nodes();
        assert forall|h: Handle| #[trigger] post.contains(h) implies spec_stamp(post.at(h))
            <= tick by {
            assert(pre.contains(h));
            assert(spec_stamp(pre.at(h)) <= m0.spec_tick());
        }
        assert forall|g: Handle, c: Handle|
            post.contains(g) && #[trigger] children_spec(post.at(g)).contains(c) implies
            post.contains(c) || post.gone(c) by {
            assert(pre.contains(g));
            assert(same_config(pre.at(g), post.at(g)));
            crate::node::lemma_same_config_children(pre.at(g), post.at(g));
            assert(pre.contains(c) || pre.gone(c));
        }
    }

    /// The source state evaluated first keeps its freshly stamped pose
    /// through the destination state's evaluation.
    proof fn lemma_source_pose_stable(self, nodes1: Pool<PoseNode>, s: Handle)
        requires
            same_shape(nodes1, self.spec_nodes()),
            stamped_preserved(nodes1, self.spec_nodes(), self.spec_tick()),
            self.spec_states().contains(s) ==> (!nodes1.contains(self.spec_states().at(s).root)
                || spec_stamp(nodes1.at(self.spec_states().at(s).root)) == self.spec_tick()),
        ensures
            self.spec_states().contains(s) ==> node_pose_in(
                nodes1,
                self.spec_states().at(s).root,
            ) == node_pose_in(self.spec_nodes(), self.spec_states().at(s).root),
    {
        if self.spec_states().contains(s) {
            let r = self.spec_states().at(s).root;
            if nodes1.contains(r) {
                assert(self.spec_nodes().at(r) == nodes1.at(r));
            } else {
                assert(!self.spec_nodes().contains(r));
            }
        }
    }

    /// Requests that transition `th` start now.
    ///
    /// The request is rejected — nothing changes, the active transition
    /// least of all — while another transition is already running, and
    /// likewise when `th` does not resolve, when either endpoint state no
    /// longer exists, or when the transition does not leave the state the
    /// machine is in.  On success the transition starts with its elapsed
    /// time reset to zero.
    pub fn try_start_transition(&mut self, th: Handle) -> (started: bool)
        requires
            old(self).wf(),
        ensures
            final(self).wf(),
            old(self).spec_active_transition() != spec_none_handle() ==> !started,
            !started ==> *final(self) == *old(self),
            started <==> {
                &&& old(self).spec_active_transition() == spec_none_handle()
                &&& old(self).spec_transitions().contains(th)
                &&& old(self).spec_states().contains(old(self).spec_transitions().at(th).source)
                &&& old(self).spec_states().contains(old(self).spec_transitions().at(th).dest)
                &&& old(self).spec_transitions().at(th).source == old(self).resolved_active()
            },
            started ==> {
                &&& final(self).spec_active_transition() == th
                &&& final(self).spec_active_state() == old(self).resolved_active()
                &&& final(self).spec_transitions().at(th).elapsed_ms == 0
                &&& same_transition_config(
                    old(self).spec_transitions().at(th),
                    final(self).spec_transitions().at(th),
                )
                &&& transitions_frame(
                    old(self).spec_transitions(),
                    final(self).spec_transitions(),
                    th,
                )
                &&& final(self).spec_nodes() == old(self).spec_nodes()
                &&& final(self).spec_states() == old(self).spec_states()
                &&& final(self).spec_params() == old(self).spec_params()
                &&& final(self).spec_entry() == old(self).spec_entry()
                &&& final(self).spec_tick() == old(self).spec_tick()
            },
    {
        if !self.active_transition.is_none_handle() {
            return false;
        }
        let from: Handle = if self.active_state.is_none_handle() {
            self.entry_state
        } else {
            self.active_state
        };
        match self.transitions.try_borrow(th) {
            Some(t) => {
                if t.source == from && self.states.is_valid(t.source) && self.states.is_valid(
                    t.dest,
                ) {
                    let mut td = t.duplicate();
                    td.elapsed_ms = 0;
                    self.transitions.set(th, td);
                    self.active_transition = th;
                    self.active_state = from;
                    proof {
                        self.states.lemma_none_never_contained();
                    }
                    true
                } else {
                    false
                }
            },
            None => false,
        }
    }

    /// Removes a state.  Every transition that leaves or enters it is
    /// removed with it; a running transition among them is cancelled.  If
    /// the removed state was active, the machine re-enters from the entry
    /// state on the next tick.
    #[verifier::loop_isolation(false)]
    pub fn remove_state(&mut self, h: Handle) -> (removed: bool)
        requires
            old(self).wf(),
        ensures
            final(self).wf(),
            removed == old(self).spec_states().contains(h),
            !final(self).spec_states().contains(h),
            final(self).spec_states().slot_count() == old(self).spec_states().slot_count(),
            final(self).spec_transitions().slot_count() == old(self).spec_transitions(
            ).slot_count(),
            forall|g: Handle|
                g != h ==> (final(self).spec_states().contains(g) == old(
                    self,
                ).spec_states().contains(g)) && (old(self).spec_states().contains(g) ==> final(self).spec_states().at(g) == old(self).spec_states().at(g)),
            forall|g: Handle|
                old(self).spec_transitions().contains(g) && (old(self).spec_transitions().at(
                    g,
                ).source == h || old(self).spec_transitions().at(g).dest == h) ==> !final(self).spec_transitions().contains(g),
            forall|g: Handle| #[trigger]
                old(self).spec_transitions().contains(g) && old(self).spec_transitions().at(
                    g,
                ).source != h && old(self).spec_transitions().at(g).dest != h ==> final(self).spec_transitions().contains(g) && final(self).spec_transitions().at(g) == old(
                    self,
                ).spec_transitions().at(g),
            forall|g: Handle| #[trigger]
                final(self).spec_transitions().contains(g) ==> old(
                    self,
                ).spec_transitions().contains(g),
            final(self).spec_active_transition() == (
            if old(self).spec_active_transition() != spec_none_handle() && (old(
                self,
            ).spec_transitions().at(old(self).spec_active_transition()).source == h || old(
                self,
            ).spec_transitions().at(old(self).spec_active_transition()).dest == h) {
                spec_none_handle()
            } else {
                old(self).spec_active_transition()
            }),
            final(self).spec_active_state() == (
            if old(self).spec_active_state() == h {
                spec_none_handle()
            } else {
                old(self).spec_active_state()
            }),
            final(self).spec_nodes() == old(self).spec_nodes(),
            final(self).spec_params() == old(self).spec_params(),
            final(self).spec_entry() == old(self).spec_entry(),
            final(self).spec_tick() == old(self).spec_tick(),
    {
        let ghost m0 = *self;
        let removed = self.states.free(h);
        let ghost states1 = self.states;
        let n_slots = self.transitions.slot_len();
        proof {
            self.transitions.lemma_slots();
        }
        let mut i: usize = 0;
        while i < n_slots
            invariant
                i <= n_slots,
                self.nodes == m0.spec_nodes(),
                self.states == states1,
                self.parameters == m0.parameters,
                self.entry_state == m0.spec_entry(),
                self.active_state == m0.spec_active_state(),
                self.tick == m0.spec_tick(),
                self.transitions.wf(),
                self.transitions.slot_count() == m0.spec_transitions().slot_count(),
                forall|g: Handle| #[trigger]
                    self.transitions.contains(g) ==> m0.spec_transitions().contains(g)
                        && self.transitions.at(g) == m0.spec_transitions().at(g),
                forall|g: Handle| #[trigger]
                    m0.spec_transitions().contains(g) && (m0.spec_transitions().at(g).source == h
                        || m0.spec_transitions().at(g).dest == h) && (g.index as int) < i
                        ==> !self.transitions.contains(g),
                forall|g: Handle| #[trigger]
                    m0.spec_transitions().contains(g) && m0.spec_transitions().at(g).source != h
                        && m0.spec_transitions().at(g).dest != h ==> self.transitions.contains(g),
                forall|g: Handle| #[trigger]
                    m0.spec_transitions().contains(g) && (g.index as int) >= i
                        ==> self.transitions.contains(g),
                self.active_transition == (
                if m0.spec_active_transition() != spec_none_handle() && (m0.spec_transitions().at(
                    m0.spec_active_transition(),
                ).source == h || m0.spec_transitions().at(m0.spec_active_transition()).dest == h)
                    && (m0.spec_active_transition().index as int) < i {
                    spec_none_handle()
                } else {
                    m0.spec_active_transition()
                }),
            decreases n_slots - i,
        {
            proof {
                self.transitions.lemma_slots();
                m0.spec_transitions().lemma_slots();
            }
            match self.transitions.handle_at(i) {
                Some(g) => {
                    let drop_it = {
                        let trf = self.transitions.borrow(g);
                        trf.source == h || trf.dest == h
                    };
                    if drop_it {
                        let _ = self.transitions.free(g);
                        if self.active_transition == g {
                            self.active_transition = Handle::none();
                        }
                    }
                    proof {
                        assert forall|g2: Handle| #[trigger]
                            m0.spec_transitions().contains(g2) && (m0.spec_transitions().at(
                                g2,
                            ).source == h || m0.spec_transitions().at(g2).dest == h) && (
                        g2.index as int) < i + 1 implies !self.transitions.contains(g2) by {
                            if g2.index as int == i as int {
                                assert(m0.spec_transitions().slot_handle(i as int) == g2);
                                assert(g2 == g);
                            }
                        }
                    }
                },
                None => {
                    proof {
                        assert forall|g2: Handle| #[trigger]
                            m0.spec_transitions().contains(g2) && (m0.spec_transitions().at(
                                g2,
                            ).source == h || m0.spec_transitions().at(g2).dest == h) && (
                        g2.index as int) < i + 1 implies !self.transitions.contains(g2) by {
                            if g2.index as int == i as int {
                                assert(m0.spec_transitions().slot_live(i as int));
                            }
                        }
                    }
                },
            }
            i += 1;
        }
        if self.active_state == h {
            self.active_state = Handle::none();
        }
        proof {
            m0.spec_transitions().lemma_slots();
            if self.active_transition != spec_none_handle() {
                let a = self.active_transition;
                assert(a == m0.spec_active_transition());
                assert(m0.spec_transitions().contains(a));
                assert((a.index as int) < m0.spec_transitions().slot_count()) by {
                    m0.spec_transitions().lemma_slots();
                }
                assert(self.transitions.contains(a));
                assert(self.states.contains(self.transitions.at(a).source));
                assert(self.states.contains(self.transitions.at(a).dest));
            }
        }
        removed
    }

    /// What the machine maintains of a running transition, exposed for
    /// callers: the active transition resolves, its elapsed time never
    /// exceeds its duration, and both endpoint states still exist.  With
    /// `update`'s contract this also gives the elapsed time's monotonicity
    /// while one transition stays active: each tick moves it from
    /// `elapsed` to `min(elapsed + dt, duration)`.
    pub proof fn lemma_running_transition_invariant(self)
        requires
            self.wf(),
            self.spec_active_transition() != spec_none_handle(),
        ensures
            self.spec_transitions().contains(self.spec_active_transition()),
            self.spec_transitions().at(self.spec_active_transition()).elapsed_ms
                <= self.spec_transitions().at(self.spec_active_transition()).duration_ms,
            self.spec_states().contains(
                self.spec_transitions().at(self.spec_active_transition()).source,
            ),
            self.spec_states().contains(
                self.spec_transitions().at(self.spec_active_transition()).dest,
            ),
    {
    }

    /// The cached pose of a state, as of the last tick that evaluated it.
    pub fn pose_of_state(&self, s: Handle) -> (pose: AnimationPose)
        ensures
            pose@ == self.state_pose(s),
    {
        match self.states.try_borrow(s) {
            Some(st) => {
                match self.nodes.try_borrow(st.root) {
                    Some(n) => n.pose().duplicate(),
                    None => AnimationPose::new(),
                }
            },
            None => AnimationPose::new(),
        }
    }
}

/// The given node with cache, local time, selection and fade bookkeeping
/// cleared: configuration (kind, children, weights, clip, speed, base)
/// kept, dynamic state zeroed.
pub fn reset_node(node: PoseNode) -> (r: PoseNode)
    ensures
        same_config(node, r),
        spec_stamp(r) == 0,
        node_wf(r),
        children_spec(r) == children_spec(node),
{
    match node {
        PoseNode::PlayAnimation(p) => {
            let mut q = PlayAnimation::new(p.animation);
            q.base = p.base;
            q.speed = p.speed;
            PoseNode::PlayAnimation(q)
        },
        PoseNode::BlendAnimations(b) => {
            let mut q = BlendAnimations::new(b.pose_sources);
            q.base = b.base;
            PoseNode::BlendAnimations(q)
        },
        PoseNode::BlendAnimationsByIndex(x) => {
            let mut q = BlendAnimationsByIndex::new(x.index_parameter, x.inputs);
            q.base = x.base;
            PoseNode::BlendAnimationsByIndex(q)
        },
    }
}

} // verus!
