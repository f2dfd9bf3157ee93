//! Source animation clips and their sampling.
//!
//! A clip is a list of key poses at a fixed frame interval.  Sampling picks
//! the key pose whose slot the queried time falls into, wrapping for a
//! looping clip and holding the last pose otherwise.  The clip owns this
//! looping-or-clamping policy; callers only hand in a local time.

use vstd::prelude::*;
use crate::math::Transform;
use crate::pool::{Handle, Pool};
use crate::pose::AnimationPose;

verus! {

/// One animation clip: key poses at a fixed interval.
#[derive(Clone, Debug)]
pub struct Animation {
    frames: Vec<AnimationPose>,
    frame_interval_ms: u64,
    looping: bool,
}

impl Animation {
    /// The clip's key poses.
    pub closed spec fn spec_frames(&self) -> Seq<AnimationPose> {
        self.frames@
    }

    /// Milliseconds between two key poses.
    pub closed spec fn spec_interval(&self) -> u64 {
        self.frame_interval_ms
    }

    /// Whether time wraps around the clip's end.
    pub closed spec fn spec_looping(&self) -> bool {
        self.looping
    }

    /// The interval is positive and every key pose is blendable.
    pub open spec fn wf(&self) -> bool {
        &&& self.spec_interval() >= 1
        &&& forall|i: int|
            0 <= i < self.spec_frames().len() ==> (#[trigger] self.spec_frames()[i]).wf()
    }

    /// An empty clip with the given frame interval and looping policy.
    pub fn new(frame_interval_ms: u64, looping: bool) -> (a: Animation)
        requires
            frame_interval_ms >= 1,
        ensures
            a.wf(),
            a.spec_frames().len() == 0,
            a.spec_interval() == frame_interval_ms,
            a.spec_looping() == looping,
    {
        Animation { frames: Vec::new(), frame_interval_ms, looping }
    }

    /// Appends the next key pose.
    pub fn add_frame(&mut self, pose: AnimationPose)
        requires
            old(self).wf(),
            pose.wf(),
        ensures
            final(self).wf(),
            final(self).spec_frames() == old(self).spec_frames().push(pose),
            final(self).spec_interval() == old(self).spec_interval(),
            final(self).spec_looping() == old(self).spec_looping(),
    {
        self.frames.push(pose);
        proof {
            assert forall|i: int| 0 <= i < self.spec_frames().len() implies (#[trigger] self
                .spec_frames()[i]).wf() by {
                if i < old(self).spec_frames().len() {
                    assert(self.spec_frames()[i] == old(self).spec_frames()[i]);
                }
            }
        }
    }

    /// How many key poses the clip holds.
    pub fn frame_count(&self) -> (n: usize)
        ensures
            n == self.spec_frames().len(),
    {
        self.frames.len()
    }

    /// The pose of the clip at local time `t`, per `clip_sample`.
    pub fn sample(&self, t: u64) -> (pose: AnimationPose)
        requires
            self.wf(),
        ensures
            pose@ == clip_sample(*self, t),
            pose.wf(),
    {
        let len = self.frames.len();
        if len == 0 {
            return AnimationPose::new();
        }
        let raw: u64 = t / self.frame_interval_ms;
        let idx: usize = if self.looping {
            (raw % (len as u64)) as usize
        } else {
            if raw < (len as u64) {
                raw as usize
            } else {
                len - 1
            }
        };
        proof {
            assert(idx < self.spec_frames().len());
            assert(self.spec_frames()[idx as int].wf());
        }
        self.frames[idx].duplicate()
    }
}

/// What sampling a clip at local time `t` returns: the key pose whose slot
/// `t` falls into, index wrapped for a looping clip and clamped to the last
/// pose otherwise; an empty clip yields the identity pose.
pub open spec fn clip_sample(a: Animation, t: u64) -> Seq<Transform> {
    let len = a.spec_frames().len() as int;
    if len == 0 {
        Seq::empty()
    } else {
        let raw = t as int / a.spec_interval() as int;
        let idx = if a.spec_looping() {
            raw % len
        } else if raw < len {
            raw
        } else {
            len - 1
        };
        a.spec_frames()[idx]@
    }
}

/// A store of animation clips addressed by handle.
pub struct AnimationContainer {
    pool: Pool<Animation>,
}

impl AnimationContainer {
    /// Whether `h` resolves to a clip.
    pub closed spec fn contains(self, h: Handle) -> bool {
        self.pool.contains(h)
    }

    /// The clip `h` resolves to.
    pub closed spec fn at(self, h: Handle) -> Animation {
        self.pool.at(h)
    }

    /// How many slots the underlying pool has ever allocated.
    pub closed spec fn slot_count(self) -> nat {
        self.pool.slot_count()
    }

    /// The pool is well-formed and every stored clip is.
    pub closed spec fn wf(self) -> bool {
        &&& self.pool.wf()
        &&& self.pool.slot_count() <= 0xFFFF_FFFF
        &&& forall|h: Handle| #[trigger] self.pool.contains(h) ==> self.pool.at(h).wf()
    }

    /// An empty store.
    pub fn new() -> (c: AnimationContainer)
        ensures
            c.wf(),
            c.slot_count() == 0,
            forall|h: Handle| !(#[trigger] c.contains(h)),
    {
        AnimationContainer { pool: Pool::new() }
    }

    /// Adds a clip and hands back its handle; earlier handles are untouched.
    pub fn add(&mut self, a: Animation) -> (h: Handle)
        requires
            old(self).wf(),
            a.wf(),
            old(self).slot_count() < 0xFFFF_FFFF,
        ensures
            final(self).wf(),
            final(self).contains(h),
            final(self).at(h) == a,
            !old(self).contains(h),
            final(self).slot_count() <= old(self).slot_count() + 1,
            forall|g: Handle|
                old(self).contains(g) ==> final(self).contains(g) && final(self).at(g) == old(
                    self,
                ).at(g),
    {
        self.pool.spawn(a)
    }

    /// Retires a clip; handles to it stop resolving, others are untouched.
    pub fn remove(&mut self, h: Handle) -> (removed: bool)
        requires
            old(self).wf(),
        ensures
            final(self).wf(),
            removed == old(self).contains(h),
            !final(self).contains(h),
            final(self).slot_count() == old(self).slot_count(),
            forall|g: Handle|
                g != h ==> (final(self).contains(g) == old(self).contains(g)) && (old(
                    self,
                ).contains(g) ==> final(self).at(g) == old(self).at(g)),
    {
        self.pool.free(h)
    }

    /// Samples clip `h` at local time `t`; an unresolved handle yields the
    /// identity pose rather than failing.
    pub fn sample(&self, h: Handle, t: u64) -> (pose: AnimationPose)
        requires
            self.wf(),
        ensures
            pose@ == store_sample(*self, h, t),
            pose.wf(),
    {
        match self.pool.try_borrow(h) {
            Some(a) => a.sample(t),
            None => AnimationPose::new(),
        }
    }
}

/// What sampling the store returns: `clip_sample` of the resolved clip, or
/// the identity pose for a handle that resolves to nothing.
pub open spec fn store_sample(c: AnimationContainer, h: Handle, t: u64) -> Seq<Transform> {
    if c.contains(h) {
        clip_sample(c.at(h), t)
    } else {
        Seq::empty()
    }
}

} // verus!
