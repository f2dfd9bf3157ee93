//! Animation blend-and-transition core.
//!
//! A machine owns a graph of pose-producing nodes, a set of named states and
//! a list of condition-gated transitions.  Each tick it evaluates the active
//! state's pose graph (every node at most once), advances the active
//! transition, and blends the source and destination poses into one final
//! pose.  All numeric values are fixed-point integers: one unit of weight,
//! scale or rotation is `UNIT` (1000), times are in milliseconds.

pub mod animation;
pub mod machine;
pub mod math;
pub mod message;
pub mod node;
pub mod parameter;
pub mod pool;
pub mod pose;
pub mod state;
pub mod transition;

pub use animation::{Animation, AnimationContainer};
pub use machine::Machine;
pub use math::{Quaternion, Transform, Vector2, Vector3, COMP_MAX, UNIT, WEIGHT_MAX};
pub use node::PoseNode;
pub use parameter::{Parameter, ParameterContainer};
pub use pool::{Handle, Pool};
pub use pose::AnimationPose;
pub use state::State;
pub use transition::{Condition, Transition};
