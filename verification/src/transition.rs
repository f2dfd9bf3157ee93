//! Timed, condition-gated edges between states.
//!
//! A transition names a source and a destination state, a cross-fade
//! duration, and a condition over the parameter table.  Its elapsed time is
//! reset when it starts and only grows while it is the machine's active
//! transition.

use vstd::prelude::*;
use crate::parameter::{spec_index, spec_rule, spec_weight, Parameter, ParameterContainer};
use crate::pool::Handle;

verus! {

/// A boolean condition over the parameter table, evaluated purely from the
/// current parameter snapshot.
#[derive(Debug)]
pub enum Condition {
    /// A boolean parameter is true.
    Rule(String),
    /// A weight parameter exceeds a fixed-point threshold.
    WeightAbove(String, i64),
    /// An index parameter equals a value.
    IndexEquals(String, u32),
    /// Negation.
    Not(Box<Condition>),
    /// Both conditions hold.
    And(Box<Condition>, Box<Condition>),
    /// At least one condition holds.
    Or(Box<Condition>, Box<Condition>),
}

/// Whether a condition holds of a parameter snapshot.  Missing parameters
/// degrade as elsewhere: absent rules are false, absent weights and indices
/// are zero.
pub open spec fn condition_holds(c: Condition, params: Map<Seq<char>, Parameter>) -> bool
    decreases c,
{
    match c {
        Condition::Rule(nm) => spec_rule(params, nm@),
        Condition::WeightAbove(nm, th) => spec_weight(params, nm@) > th,
        Condition::IndexEquals(nm, v) => spec_index(params, nm@) == v,
        Condition::Not(b) => !condition_holds(*b, params),
        Condition::And(a, b) => condition_holds(*a, params) && condition_holds(*b, params),
        Condition::Or(a, b) => condition_holds(*a, params) || condition_holds(*b, params),
    }
}

impl Condition {
    /// Evaluates the condition against the current parameter table.
    pub fn eval(&self, params: &ParameterContainer) -> (r: bool)
        requires
            params.wf(),
        ensures
            r == condition_holds(*self, params@),
        decreases *self,
    {
        match self {
            Condition::Rule(nm) => params.rule_of(nm.as_str()),
            Condition::WeightAbove(nm, th) => params.weight_of(nm.as_str()) > *th,
            Condition::IndexEquals(nm, v) => params.index_of(nm.as_str()) == *v,
            Condition::Not(b) => !b.eval(params),
            Condition::And(a, b) => a.eval(params) && b.eval(params),
            Condition::Or(a, b) => a.eval(params) || b.eval(params),
        }
    }

    /// An equal copy.
    pub fn duplicate(&self) -> (r: Condition)
        ensures
            r == *self,
        decreases *self,
    {
        match self {
            Condition::Rule(nm) => Condition::Rule(nm.clone()),
            Condition::WeightAbove(nm, th) => Condition::WeightAbove(nm.clone(), *th),
            Condition::IndexEquals(nm, v) => Condition::IndexEquals(nm.clone(), *v),
            Condition::Not(b) => Condition::Not(Box::new(b.duplicate())),
            Condition::And(a, b) => Condition::And(Box::new(a.duplicate()), Box::new(b.duplicate())),
            Condition::Or(a, b) => Condition::Or(Box::new(a.duplicate()), Box::new(b.duplicate())),
        }
    }
}

/// A timed, condition-gated cross-fade from one state to another.
#[derive(Debug)]
pub struct Transition {
    /// The transition's display name.
    pub name: String,
    /// The state the transition leaves.
    pub source: Handle,
    /// The state the transition enters.
    pub dest: Handle,
    /// Cross-fade length in milliseconds.
    pub duration_ms: u32,
    /// The condition that lets the machine take this transition.
    pub condition: Condition,
    /// Milliseconds elapsed since the transition last started; grows only
    /// while the transition is active and is reset when it (re)starts.
    pub elapsed_ms: u32,
}

impl Transition {
    /// A transition from `source` to `dest` taking `duration_ms` to cross-
    /// fade, taken when `condition` holds.
    pub fn new(name: &str, source: Handle, dest: Handle, duration_ms: u32, condition: Condition)
        -> (t: Transition)
        ensures
            t.name@ == name@,
            t.source == source,
            t.dest == dest,
            t.duration_ms == duration_ms,
            t.condition == condition,
            t.elapsed_ms == 0,
    {
        Transition { name: name.to_owned(), source, dest, duration_ms, condition, elapsed_ms: 0 }
    }

    /// An equal copy.
    pub fn duplicate(&self) -> (t: Transition)
        ensures
            t.name@ == self.name@,
            t.source == self.source,
            t.dest == self.dest,
            t.duration_ms == self.duration_ms,
            t.condition == self.condition,
            t.elapsed_ms == self.elapsed_ms,
    {
        Transition {
            name: self.name.clone(),
            source: self.source,
            dest: self.dest,
            duration_ms: self.duration_ms,
            condition: self.condition.duplicate(),
            elapsed_ms: self.elapsed_ms,
        }
    }

    /// Whether the elapsed time has reached the duration.
    pub fn is_done(&self) -> (r: bool)
        ensures
            r == (self.elapsed_ms >= self.duration_ms),
    {
        self.elapsed_ms >= self.duration_ms
    }
}

} // verus!
