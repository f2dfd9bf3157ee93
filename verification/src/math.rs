//! Fixed-point vectors, quaternions and bone transforms.
//!
//! All components are integers scaled by `UNIT`: the value `1000` stands for
//! `1.0`.  Components of transforms that take part in blending are kept
//! within `[-COMP_MAX, COMP_MAX]` so that weighted sums fit the integer
//! types they are accumulated in.

use vstd::prelude::*;

verus! {

/// Fixed-point scale: this many integer steps stand for `1.0`.
pub const UNIT: i64 = 1000;

/// Largest magnitude a transform component may have.
pub const COMP_MAX: i64 = 1_073_741_824;

/// Largest blend weight that is used as given; anything above is clamped.
pub const WEIGHT_MAX: u64 = 4_294_967_296;

/// A 2D position hint for external tooling; it plays no part in evaluation.
#[derive(Clone, Copy, Debug, PartialEq, Eq, Structural)]
pub struct Vector2 {
    pub x: i64,
    pub y: i64,
}

impl Vector2 {
    pub fn zero() -> (v: Vector2)
        ensures
            v.x == 0 && v.y == 0,
    {
        Vector2 { x: 0, y: 0 }
    }
}

/// A fixed-point 3D vector, used for translation and scale.
#[derive(Clone, Copy, Debug, PartialEq, Eq, Structural)]
pub struct Vector3 {
    pub x: i64,
    pub y: i64,
    pub z: i64,
}

/// A fixed-point quaternion, used for rotation.
#[derive(Clone, Copy, Debug, PartialEq, Eq, Structural)]
pub struct Quaternion {
    pub x: i64,
    pub y: i64,
    pub z: i64,
    pub w: i64,
}

/// One bone's local transform: translation, rotation and scale.
#[derive(Clone, Copy, Debug, PartialEq, Eq, Structural)]
pub struct Transform {
    pub translation: Vector3,
    pub rotation: Quaternion,
    pub scale: Vector3,
}

/// Selects one of the ten components of a transform, in declaration order:
/// translation x, y, z; rotation x, y, z, w; scale x, y, z.
pub open spec fn comp(t: Transform, k: int) -> int {
    if k == 0 {
        t.translation.x as int
    } else if k == 1 {
        t.translation.y as int
    } else if k == 2 {
        t.translation.z as int
    } else if k == 3 {
        t.rotation.x as int
    } else if k == 4 {
        t.rotation.y as int
    } else if k == 5 {
        t.rotation.z as int
    } else if k == 6 {
        t.rotation.w as int
    } else if k == 7 {
        t.scale.x as int
    } else if k == 8 {
        t.scale.y as int
    } else {
        t.scale.z as int
    }
}

/// The neutral transform: no translation, identity rotation, unit scale.
pub open spec fn spec_identity() -> Transform {
    Transform {
        translation: Vector3 { x: 0, y: 0, z: 0 },
        rotation: Quaternion { x: 0, y: 0, z: 0, w: UNIT },
        scale: Vector3 { x: UNIT, y: UNIT, z: UNIT },
    }
}

/// Whether every component of `t` is within the blendable range.
pub open spec fn bounded(t: Transform) -> bool {
    forall|k: int| 0 <= k < 10 ==> -COMP_MAX <= #[trigger] comp(t, k) <= COMP_MAX
}

impl Transform {
    /// The neutral transform, also used as the per-bone value of an identity pose.
    pub fn identity() -> (t: Transform)
        ensures
            t == spec_identity(),
            bounded(t),
    {
        let t = Transform {
            translation: Vector3 { x: 0, y: 0, z: 0 },
            rotation: Quaternion { x: 0, y: 0, z: 0, w: UNIT },
            scale: Vector3 { x: UNIT, y: UNIT, z: UNIT },
        };
        proof {
            assert(forall|k: int| 0 <= k < 10 ==> -COMP_MAX <= #[trigger] comp(t, k) <= COMP_MAX);
        }
        t
    }

    /// Reads component `k`, in the order fixed by `comp`.
    pub fn component(&self, k: usize) -> (c: i64)
        requires
            k < 10,
        ensures
            c == comp(*self, k as int),
    {
        if k == 0 {
            self.translation.x
        } else if k == 1 {
            self.translation.y
        } else if k == 2 {
            self.translation.z
        } else if k == 3 {
            self.rotation.x
        } else if k == 4 {
            self.rotation.y
        } else if k == 5 {
            self.rotation.z
        } else if k == 6 {
            self.rotation.w
        } else if k == 7 {
            self.scale.x
        } else if k == 8 {
            self.scale.y
        } else {
            self.scale.z
        }
    }

    /// Rebuilds a transform from its ten components.
    pub fn from_components(comps: &Vec<i64>) -> (t: Transform)
        requires
            comps@.len() == 10,
        ensures
            forall|k: int| 0 <= k < 10 ==> #[trigger] comp(t, k) == comps@[k],
    {
        Transform {
            translation: Vector3 { x: comps[0], y: comps[1], z: comps[2] },
            rotation: Quaternion { x: comps[3], y: comps[4], z: comps[5], w: comps[6] },
            scale: Vector3 { x: comps[7], y: comps[8], z: comps[9] },
        }
    }

    /// Whether every component is within the blendable range.
    pub fn is_bounded(&self) -> (r: bool)
        ensures
            r == bounded(*self),
    {
        let r = self.translation.x >= -COMP_MAX && self.translation.x <= COMP_MAX
            && self.translation.y >= -COMP_MAX && self.translation.y <= COMP_MAX
            && self.translation.z >= -COMP_MAX && self.translation.z <= COMP_MAX
            && self.rotation.x >= -COMP_MAX && self.rotation.x <= COMP_MAX
            && self.rotation.y >= -COMP_MAX && self.rotation.y <= COMP_MAX
            && self.rotation.z >= -COMP_MAX && self.rotation.z <= COMP_MAX
            && self.rotation.w >= -COMP_MAX && self.rotation.w <= COMP_MAX
            && self.scale.x >= -COMP_MAX && self.scale.x <= COMP_MAX
            && self.scale.y >= -COMP_MAX && self.scale.y <= COMP_MAX
            && self.scale.z >= -COMP_MAX && self.scale.z <= COMP_MAX;
        proof {
            if r {
                assert(forall|k: int| 0 <= k < 10
                    ==> -COMP_MAX <= #[trigger] comp(*self, k) <= COMP_MAX);
            } else {
                assert(!bounded(*self)) by {
                    if self.translation.x < -COMP_MAX || self.translation.x > COMP_MAX {
                        assert(comp(*self, 0) == self.translation.x as int);
                    } else if self.translation.y < -COMP_MAX || self.translation.y > COMP_MAX {
                        assert(comp(*self, 1) == self.translation.y as int);
                    } else if self.translation.z < -COMP_MAX || self.translation.z > COMP_MAX {
                        assert(comp(*self, 2) == self.translation.z as int);
                    } else if self.rotation.x < -COMP_MAX || self.rotation.x > COMP_MAX {
                        assert(comp(*self, 3) == self.rotation.x as int);
                    } else if self.rotation.y < -COMP_MAX || self.rotation.y > COMP_MAX {
                        assert(comp(*self, 4) == self.rotation.y as int);
                    } else if self.rotation.z < -COMP_MAX || self.rotation.z > COMP_MAX {
                        assert(comp(*self, 5) == self.rotation.z as int);
                    } else if self.rotation.w < -COMP_MAX || self.rotation.w > COMP_MAX {
                        assert(comp(*self, 6) == self.rotation.w as int);
                    } else if self.scale.x < -COMP_MAX || self.scale.x > COMP_MAX {
                        assert(comp(*self, 7) == self.scale.x as int);
                    } else if self.scale.y < -COMP_MAX || self.scale.y > COMP_MAX {
                        assert(comp(*self, 8) == self.scale.y as int);
                    } else {
                        assert(comp(*self, 9) == self.scale.z as int);
                    }
                }
            }
        }
        r
    }
}

} // verus!
