//! Skeletal poses and weighted pose blending.
//!
//! A pose is an ordered list of bone transforms, indexed by bone number.
//! A pose is read as a total function over bones: any bone beyond its
//! explicit length carries the neutral transform, so poses of different
//! lengths blend deterministically and the empty pose is the identity pose.
//!
//! Blending rule, deliberately: all ten components of a transform —
//! rotation included — are combined by the same exact per-component
//! weighted average, and the blended quaternion is *not* renormalized.
//! In this integer model a renormalization would have to round, and
//! rounding would break the exact identities the contracts state (a
//! cross-fade at factor zero returns the source pose bit for bit, at the
//! full duration the destination).  A consumer that needs unit quaternions
//! renormalizes downstream; between nearby unit rotations the
//! unnormalized average is the usual short linear approximation.

use vstd::prelude::*;
use vstd::arithmetic::div_mod::{lemma_div_is_ordered, lemma_div_multiples_vanish};
use vstd::arithmetic::mul::lemma_mul_inequality;
use crate::math::{bounded, comp, spec_identity, Transform, COMP_MAX, WEIGHT_MAX};

verus! {

/// The transform of bone `b` in pose `p`, neutral beyond the explicit length.
pub open spec fn pose_at(p: Seq<Transform>, b: int) -> Transform {
    if 0 <= b < p.len() {
        p[b]
    } else {
        spec_identity()
    }
}

/// Whether every explicit bone transform of `p` is within the blendable range.
pub open spec fn pose_bounded(p: Seq<Transform>) -> bool {
    forall|b: int| 0 <= b < p.len() ==> bounded(#[trigger] p[b])
}

/// Two poses agree on every bone, explicit or implicit.
pub open spec fn same_pose(a: Seq<Transform>, b: Seq<Transform>) -> bool {
    forall|i: int| #[trigger] pose_at(a, i) == pose_at(b, i)
}

/// A raw weight, clamped into `[0, WEIGHT_MAX]`.
pub open spec fn clamp_weight_spec(w: u64) -> int {
    if w > WEIGHT_MAX {
        WEIGHT_MAX as int
    } else {
        w as int
    }
}

/// The given weights, each clamped into `[0, WEIGHT_MAX]`.
pub open spec fn weights_of(ws: Seq<u64>) -> Seq<int> {
    ws.map_values(|w: u64| clamp_weight_spec(w))
}

/// Sum of the first `n` weights.
pub open spec fn sum_prefix(ws: Seq<int>, n: int) -> int
    decreases n,
{
    if n <= 0 {
        0
    } else {
        sum_prefix(ws, n - 1) + ws[n - 1]
    }
}

/// Sum of all weights.
pub open spec fn total_weight(ws: Seq<int>) -> int {
    sum_prefix(ws, ws.len() as int)
}

/// Weighted sum of component `k` of bone `b` over the first `n` poses.
pub open spec fn weighted_sum(ps: Seq<Seq<Transform>>, ws: Seq<int>, b: int, k: int, n: int) -> int
    decreases n,
{
    if n <= 0 {
        0
    } else {
        weighted_sum(ps, ws, b, k, n - 1) + ws[n - 1] * comp(pose_at(ps[n - 1], b), k)
    }
}

/// Component `k` of bone `b` of the weighted average of `ps` under `ws`.
pub open spec fn blend_comp(ps: Seq<Seq<Transform>>, ws: Seq<int>, b: int, k: int) -> int {
    weighted_sum(ps, ws, b, k, ps.len() as int) / total_weight(ws)
}

/// Length of the longest of the first `n` poses.
pub open spec fn max_len_prefix(ps: Seq<Seq<Transform>>, n: int) -> int
    decreases n,
{
    if n <= 0 {
        0
    } else {
        let m = max_len_prefix(ps, n - 1);
        if ps[n - 1].len() > m {
            ps[n - 1].len() as int
        } else {
            m
        }
    }
}

/// Length of the longest pose.
pub open spec fn max_len(ps: Seq<Seq<Transform>>) -> int {
    max_len_prefix(ps, ps.len() as int)
}

/// The views of a list of poses.
pub open spec fn views_of(ps: Seq<AnimationPose>) -> Seq<Seq<Transform>> {
    ps.map_values(|p: AnimationPose| p@)
}

/// What `AnimationPose::blend` computes: with a zero weight total the
/// identity pose (no explicit bones); otherwise, for every bone of the
/// longest input pose, the per-component weighted average, rounded toward
/// negative infinity.
pub open spec fn blend_result(ps: Seq<Seq<Transform>>, ws: Seq<int>, out: Seq<Transform>) -> bool {
    if total_weight(ws) == 0 {
        out.len() == 0
    } else {
        &&& out.len() == max_len(ps)
        &&& forall|b: int, k: int|
            0 <= b < out.len() && 0 <= k < 10 ==> #[trigger] comp(out[b], k) == blend_comp(
                ps,
                ws,
                b,
                k,
            )
    }
}

/// A complete set of per-bone local transforms at one instant.
#[derive(Clone, Debug, PartialEq)]
pub struct AnimationPose {
    transforms: Vec<Transform>,
}

impl View for AnimationPose {
    type V = Seq<Transform>;

    closed spec fn view(&self) -> Seq<Transform> {
        self.transforms@
    }
}

impl AnimationPose {
    /// Whether every bone transform is within the blendable range.
    pub open spec fn wf(&self) -> bool {
        pose_bounded(self@)
    }

    /// The identity pose: no explicit bones, every bone neutral.
    pub fn new() -> (r: AnimationPose)
        ensures
            r@.len() == 0,
            r.wf(),
    {
        AnimationPose { transforms: Vec::new() }
    }

    /// How many explicit bones the pose holds.
    pub fn bone_count(&self) -> (n: usize)
        ensures
            n == self@.len(),
    {
        self.transforms.len()
    }

    /// Appends the transform of the next bone.
    pub fn add_bone(&mut self, t: Transform)
        requires
            bounded(t),
        ensures
            final(self)@ == old(self)@.push(t),
            old(self).wf() ==> final(self).wf(),
    {
        self.transforms.push(t);
    }

    /// The transform of bone `b`, neutral beyond the explicit length.
    pub fn transform_or_identity(&self, b: usize) -> (t: Transform)
        ensures
            t == pose_at(self@, b as int),
            self.wf() ==> bounded(t),
    {
        if b < self.transforms.len() {
            self.transforms[b]
        } else {
            Transform::identity()
        }
    }

    /// An equal copy of the pose.
    pub fn duplicate(&self) -> (r: AnimationPose)
        ensures
            r@ == self@,
    {
        let n = self.transforms.len();
        let mut out: Vec<Transform> = Vec::new();
        for i in 0..n
            invariant
                n == self.transforms@.len(),
                out@ =~= self.transforms@.take(i as int),
        {
            out.push(self.transforms[i]);
        }
        proof {
            assert(out@ =~= self.transforms@);
        }
        AnimationPose { transforms: out }
    }

    /// Clamps a raw weight into `[0, WEIGHT_MAX]`.
    pub fn clamp_weight(w: u64) -> (r: u64)
        ensures
            r == clamp_weight_spec(w),
            r <= WEIGHT_MAX,
    {
        if w > WEIGHT_MAX {
            WEIGHT_MAX
        } else {
            w
        }
    }

    /// Blends `poses` by the per-pose `weights` (clamped into
    /// `[0, WEIGHT_MAX]`): each bone of the result is the weighted average
    /// of that bone over all inputs, a missing bone counting as neutral.
    /// If the weights sum to zero the result is the identity pose.
    /// Rotation components follow the same per-component rule, without
    /// renormalization — see the module note on the blending rule.
    #[verifier::loop_isolation(false)]
    #[verifier::rlimit(50)]
    pub fn blend(poses: &Vec<AnimationPose>, weights: &Vec<u64>) -> (out: AnimationPose)
        requires
            poses@.len() == weights@.len(),
            forall|i: int| 0 <= i < poses@.len() ==> (#[trigger] poses@[i]).wf(),
        ensures
            out.wf(),
            blend_result(views_of(poses@), weights_of(weights@), out@),
    {
        let n = poses.len();
        let ghost views = views_of(poses@);
        let ghost ws = weights_of(weights@);
        assert(ws.len() == n);
        assert(forall|i: int| 0 <= i < n ==> 0 <= #[trigger] ws[i] <= WEIGHT_MAX);

        // Total weight, clamped per entry.
        let mut total_u: u128 = 0;
        for j in 0..n
            invariant
                total_u == sum_prefix(ws, j as int),
                total_u <= (j as int) * (WEIGHT_MAX as int),
        {
            let w = Self::clamp_weight(weights[j]);
            assert((j as int) * (WEIGHT_MAX as int) + (WEIGHT_MAX as int) == ((j + 1) as int) * (
            WEIGHT_MAX as int)) by (nonlinear_arith);
            total_u = total_u + (w as u128);
        }
        assert(total_u == total_weight(ws));
        if total_u == 0 {
            return AnimationPose::new();
        }
        proof {
            lemma_mul_inequality(n as int, 0x1_0000_0000_0000_0000, WEIGHT_MAX as int);
        }
        assert(total_u <= 0x1_0000_0000_0000_0000u128 * (WEIGHT_MAX as u128));
        let total: i128 = total_u as i128;
        assert(total == total_weight(ws));
        assert(0 < total);

        // Length of the longest input pose.
        let mut ml: usize = 0;
        for j in 0..n
            invariant
                ml == max_len_prefix(views, j as int),
        {
            let bc = poses[j].bone_count();
            if bc > ml {
                ml = bc;
            }
        }
        assert(ml == max_len(views));

        let mut out_vec: Vec<Transform> = Vec::new();
        for b in 0..ml
            invariant
                out_vec@.len() == b,
                forall|b2: int| 0 <= b2 < b ==> bounded(#[trigger] out_vec@[b2]),
                forall|b2: int, k: int|
                    0 <= b2 < b && 0 <= k < 10 ==> #[trigger] comp(out_vec@[b2], k) == blend_comp(
                        views,
                        ws,
                        b2,
                        k,
                    ),
        {
            let mut comps: Vec<i64> = Vec::new();
            for k in 0..10usize
                invariant
                    comps@.len() == k,
                    forall|k2: int|
                        0 <= k2 < k ==> #[trigger] comps@[k2] == blend_comp(views, ws, b as int, k2)
                            && -COMP_MAX <= comps@[k2] <= COMP_MAX,
            {
                let mut acc: i128 = 0;
                for j in 0..n
                    invariant
                        acc == weighted_sum(views, ws, b as int, k as int, j as int),
                        -(sum_prefix(ws, j as int) * (COMP_MAX as int)) <= acc <= sum_prefix(
                            ws,
                            j as int,
                        ) * (COMP_MAX as int),
                        sum_prefix(ws, j as int) <= total,
                {
                    let t = poses[j].transform_or_identity(b);
                    let c = t.component(k);
                    let w = Self::clamp_weight(weights[j]);
                    proof {
                        assert(t == pose_at(views[j as int], b as int));
                        assert(bounded(t));
                        assert(-COMP_MAX <= c <= COMP_MAX);
                        let s = sum_prefix(ws, j as int);
                        let s2 = sum_prefix(ws, j as int + 1);
                        assert(s2 == s + w);
                        lemma_sum_prefix_extends(ws, j as int + 1, total as int);
                        assert(s2 <= 0x1_0000_0000_0000_0000_0000_0000);
                        assert(-(s2 * (COMP_MAX as int)) <= acc + (w as int) * (c as int) <= s2 * (
                        COMP_MAX as int)) by (nonlinear_arith)
                            requires
                                -(s * (COMP_MAX as int)) <= acc <= s * (COMP_MAX as int),
                                -(COMP_MAX as int) <= (c as int) <= (COMP_MAX as int),
                                0 <= (w as int),
                                s2 == s + w,
                                0 <= (COMP_MAX as int),
                        ;
                        assert(s2 * (COMP_MAX as int) <= 0x1_0000_0000_0000_0000_0000_0000 * (
                        COMP_MAX as int) <= 0x4000_0000_0000_0000_0000_0000_0000_0000) by (
                        nonlinear_arith)
                            requires
                                s2 <= 0x1_0000_0000_0000_0000_0000_0000,
                                0 <= (COMP_MAX as int),
                                (COMP_MAX as int) == 0x4000_0000,
                        ;
                        assert(-((w as int) * (c as int))
                            <= 0x4000_0000_0000_0000_0000_0000_0000_0000 && (w as int) * (c as int)
                            <= 0x4000_0000_0000_0000_0000_0000_0000_0000) by (nonlinear_arith)
                            requires
                                -(COMP_MAX as int) <= (c as int) <= (COMP_MAX as int),
                                0 <= (w as int) <= (WEIGHT_MAX as int),
                                (COMP_MAX as int) == 0x4000_0000,
                                (WEIGHT_MAX as int) == 0x1_0000_0000,
                        ;
                    }
                    acc = acc + (w as i128) * (c as i128);
                }
                proof {
                    let num = acc as int;
                    let den = total as int;
                    assert(num <= den * (COMP_MAX as int));
                    assert(-(den * (COMP_MAX as int)) <= num);
                    assert(den * (COMP_MAX as int) == (COMP_MAX as int) * den) by (nonlinear_arith);
                    lemma_div_is_ordered(num, den * (COMP_MAX as int), den);
                    lemma_div_multiples_vanish(COMP_MAX as int, den);
                    lemma_div_is_ordered(den * (-(COMP_MAX as int)), num, den);
                    assert(den * (-(COMP_MAX as int)) == -(den * (COMP_MAX as int)))
                        by (nonlinear_arith);
                    lemma_div_multiples_vanish(-(COMP_MAX as int), den);
                    assert(-COMP_MAX <= num / den <= COMP_MAX);
                }
                let q_opt = acc.checked_div_euclid(total);
                assert(q_opt.is_some());
                let q = q_opt.unwrap();
                comps.push(q as i64);
            }
            let t = Transform::from_components(&comps);
            proof {
                assert(forall|k: int| 0 <= k < 10 ==> #[trigger] comp(t, k) == comps@[k]);
                assert(bounded(t));
            }
            out_vec.push(t);
        }
        let out = AnimationPose { transforms: out_vec };
        proof {
            assert(out.wf());
            assert(blend_result(views, ws, out@));
        }
        out
    }
}

/// What `AnimationPose::lerp` computes: the destination pose once the
/// elapsed time reaches the duration (in particular for a zero duration),
/// otherwise the per-bone weighted average of source and destination under
/// the weights `(duration - elapsed, elapsed)` — the linear cross-fade at
/// factor `elapsed / duration`.
pub open spec fn lerp_result(
    src: Seq<Transform>,
    dst: Seq<Transform>,
    elapsed: u32,
    duration: u32,
    out: Seq<Transform>,
) -> bool {
    if elapsed >= duration {
        out == dst
    } else {
        blend_result(
            seq![src, dst],
            weights_of(seq![(duration - elapsed) as u64, elapsed as u64]),
            out,
        )
    }
}

impl AnimationPose {
    /// Cross-fades `src` into `dst` at blend factor `elapsed / duration`:
    /// the source pose at zero elapsed time, the destination pose once the
    /// duration is reached, the per-bone linear blend in between.
    pub fn lerp(src: &AnimationPose, dst: &AnimationPose, elapsed: u32, duration: u32) -> (out:
        AnimationPose)
        requires
            src.wf(),
            dst.wf(),
        ensures
            out.wf(),
            lerp_result(src@, dst@, elapsed, duration, out@),
    {
        if elapsed >= duration {
            return dst.duplicate();
        }
        let mut ps: Vec<AnimationPose> = Vec::new();
        ps.push(src.duplicate());
        ps.push(dst.duplicate());
        let mut ws: Vec<u64> = Vec::new();
        ws.push((duration - elapsed) as u64);
        ws.push(elapsed as u64);
        let out = AnimationPose::blend(&ps, &ws);
        proof {
            assert(views_of(ps@) =~= seq![src@, dst@]);
            assert(ws@ =~= seq![(duration - elapsed) as u64, elapsed as u64]);
        }
        out
    }
}

/// Transforms that agree on all ten components are equal.
proof fn lemma_comp_ext(a: Transform, b: Transform)
    requires
        forall|k: int| 0 <= k < 10 ==> comp(a, k) == comp(b, k),
    ensures
        a == b,
{
    assert(comp(a, 0) == comp(b, 0));
    assert(comp(a, 1) == comp(b, 1));
    assert(comp(a, 2) == comp(b, 2));
    assert(comp(a, 3) == comp(b, 3));
    assert(comp(a, 4) == comp(b, 4));
    assert(comp(a, 5) == comp(b, 5));
    assert(comp(a, 6) == comp(b, 6));
    assert(comp(a, 7) == comp(b, 7));
    assert(comp(a, 8) == comp(b, 8));
    assert(comp(a, 9) == comp(b, 9));
}

/// The longest-pose length bounds each pose's length.
proof fn lemma_max_len_ge(ps: Seq<Seq<Transform>>, i: int, n: int)
    requires
        0 <= i < n <= ps.len(),
    ensures
        ps[i].len() <= max_len_prefix(ps, n),
    decreases n,
{
    if i < n - 1 {
        lemma_max_len_ge(ps, i, n - 1);
    }
}

/// If every weight of a blend is zero — given or absent — the result is
/// the identity pose: every bone carries the neutral transform.
pub proof fn lemma_zero_weights_identity(
    ps: Seq<Seq<Transform>>,
    ws: Seq<int>,
    out: Seq<Transform>,
)
    requires
        blend_result(ps, ws, out),
        total_weight(ws) == 0,
    ensures
        forall|i: int| #[trigger] pose_at(out, i) == spec_identity(),
{
    assert(out.len() == 0);
}

/// A cross-fade that has not yet begun equals the source pose on every
/// bone: blending `src` and `dst` at elapsed time zero reproduces `src`.
pub proof fn lemma_lerp_at_start(
    src: Seq<Transform>,
    dst: Seq<Transform>,
    duration: u32,
    out: Seq<Transform>,
)
    requires
        lerp_result(src, dst, 0, duration, out),
        duration > 0,
    ensures
        same_pose(out, src),
{
    let ps = seq![src, dst];
    let raw = seq![duration as u64, 0u64];
    let ws = weights_of(raw);
    let d = duration as int;
    assert(ws.len() == 2);
    assert(ws[0] == d);
    assert(ws[1] == 0);
    assert(sum_prefix(ws, 0) == 0);
    assert(sum_prefix(ws, 1) == d);
    assert(sum_prefix(ws, 2) == d);
    assert(total_weight(ws) == d);
    assert(blend_result(ps, ws, out));
    assert(out.len() == max_len(ps));
    assert forall|i: int| #[trigger] pose_at(out, i) == pose_at(src, i) by {
        if 0 <= i < out.len() {
            assert forall|k: int| 0 <= k < 10 implies comp(out[i], k) == comp(
                pose_at(src, i),
                k,
            ) by {
                let c = comp(pose_at(ps[0], i), k);
                assert(weighted_sum(ps, ws, i, k, 0) == 0);
                assert(weighted_sum(ps, ws, i, k, 1) == d * c);
                assert(weighted_sum(ps, ws, i, k, 2) == d * c);
                lemma_div_multiples_vanish(c, d);
                assert(blend_comp(ps, ws, i, k) == c);
                assert(comp(out[i], k) == blend_comp(ps, ws, i, k));
            }
            lemma_comp_ext(out[i], pose_at(src, i));
        } else {
            if i >= out.len() {
                if 0 <= i {
                    assert(ps[0] == src);
                    if i < src.len() as int {
                        lemma_max_len_ge(ps, 0, 2);
                        assert(false);
                    }
                    assert(pose_at(src, i) == spec_identity());
                }
            }
        }
    }
}

/// A nonempty prefix sum of nonnegative weights never exceeds a longer one.
proof fn lemma_sum_prefix_extends(ws: Seq<int>, m: int, t: int)
    requires
        0 <= m <= ws.len(),
        t == total_weight(ws),
        forall|i: int| 0 <= i < ws.len() ==> 0 <= #[trigger] ws[i],
    ensures
        sum_prefix(ws, m) <= t,
    decreases ws.len() - m,
{
    if m < ws.len() {
        lemma_sum_prefix_extends(ws, m + 1, t);
    }
}

} // verus!


