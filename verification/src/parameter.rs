//! Named parameters: blend weights, selection indices and boolean rules.
//!
//! Parameters are written by gameplay code between ticks and only read by
//! the machine.  A missing or wrongly-typed parameter never fails a lookup:
//! weights fall back to zero, indices to zero, rules to false.

use vstd::prelude::*;

verus! {

/// A named value driving blend weights and transition conditions.
#[derive(Clone, Copy, Debug, PartialEq, Eq, Structural)]
pub enum Parameter {
    /// A fixed-point blend weight (`UNIT` stands for `1.0`).
    Weight(i64),
    /// A selection index for `BlendAnimationsByIndex`.
    Index(u32),
    /// A boolean flag for transition conditions.
    Rule(bool),
}

/// The mapping an association list denotes, later entries winning.
pub open spec fn map_of(items: Seq<(String, Parameter)>) -> Map<Seq<char>, Parameter>
    decreases items.len(),
{
    if items.len() == 0 {
        Map::empty()
    } else {
        map_of(items.drop_last()).insert(items.last().0@, items.last().1)
    }
}

/// Whether the list holds each name at most once.
pub open spec fn distinct_keys(items: Seq<(String, Parameter)>) -> bool {
    forall|i: int, j: int| 0 <= i < j < items.len() ==> items[i].0@ != items[j].0@
}

/// The weight a name stands for: its `Weight` value, zero when the name is
/// missing or bound to another kind.
pub open spec fn spec_weight(m: Map<Seq<char>, Parameter>, k: Seq<char>) -> i64 {
    if m.contains_key(k) && m[k] is Weight {
        m[k]->Weight_0
    } else {
        0
    }
}

/// The index a name stands for: its `Index` value, zero when the name is
/// missing or bound to another kind.
pub open spec fn spec_index(m: Map<Seq<char>, Parameter>, k: Seq<char>) -> u32 {
    if m.contains_key(k) && m[k] is Index {
        m[k]->Index_0
    } else {
        0
    }
}

/// The truth a name stands for: its `Rule` value, false when the name is
/// missing or bound to another kind.
pub open spec fn spec_rule(m: Map<Seq<char>, Parameter>, k: Seq<char>) -> bool {
    m.contains_key(k) && m[k] is Rule && m[k]->Rule_0
}

/// A table of named parameters with unique names.
#[derive(Clone, Debug)]
pub struct ParameterContainer {
    items: Vec<(String, Parameter)>,
}

impl View for ParameterContainer {
    type V = Map<Seq<char>, Parameter>;

    closed spec fn view(&self) -> Map<Seq<char>, Parameter> {
        map_of(self.items@)
    }
}

impl ParameterContainer {
    /// Names are stored at most once.
    pub closed spec fn wf(&self) -> bool {
        distinct_keys(self.items@)
    }

    /// An empty table.
    pub fn new() -> (c: ParameterContainer)
        ensures
            c.wf(),
            c@ == Map::<Seq<char>, Parameter>::empty(),
    {
        ParameterContainer { items: Vec::new() }
    }

    /// Binds `name` to `value`, replacing any earlier binding.
    pub fn set(&mut self, name: &str, value: Parameter)
        requires
            old(self).wf(),
        ensures
            final(self).wf(),
            final(self)@ == old(self)@.insert(name@, value),
    {
        let key: String = name.to_owned();
        let n = self.items.len();
        let ghost pre = self.items@;
        let mut j: usize = 0;
        while j < n
            invariant
                n == self.items@.len(),
                self.items@ == pre,
                pre == old(self).items@,
                key@ == name@,
                distinct_keys(pre),
                forall|i: int| 0 <= i < j ==> pre[i].0@ != name@,
            decreases n - j,
        {
            if self.items[j].0 == key {
                self.items.set(j, (key, value));
                proof {
                    assert(self.items@ == pre.update(j as int, self.items@[j as int]));
                    lemma_map_of_update(pre, j as int, self.items@[j as int]);
                    assert(self@ =~= map_of(pre).insert(name@, value));
                    assert forall|i: int, k2: int|
                        0 <= i < k2 < self.items@.len() implies self.items@[i].0@
                        != self.items@[k2].0@ by {
                        assert(pre[i].0@ != pre[k2].0@);
                    }
                }
                return ;
            }
            j += 1;
        }
        self.items.push((key, value));
        proof {
            assert(self.items@.drop_last() =~= pre);
            lemma_map_of_absent(pre, name@);
            assert(self@ =~= map_of(pre).insert(name@, value));
            assert forall|i: int, k2: int|
                0 <= i < k2 < self.items@.len() implies self.items@[i].0@
                != self.items@[k2].0@ by {
                if k2 == pre.len() as int {
                    assert(self.items@[i] == pre[i]);
                }
            }
        }
    }

    /// The value bound to `name`, if any.
    pub fn get(&self, name: &str) -> (r: Option<Parameter>)
        requires
            self.wf(),
        ensures
            match r {
                Some(v) => self@.contains_key(name@) && v == self@[name@],
                None => !self@.contains_key(name@),
            },
    {
        let key: String = name.to_owned();
        let n = self.items.len();
        let mut j: usize = 0;
        while j < n
            invariant
                n == self.items@.len(),
                key@ == name@,
                self.wf(),
                forall|i: int| 0 <= i < j ==> self.items@[i].0@ != name@,
            decreases n - j,
        {
            if self.items[j].0 == key {
                proof {
                    lemma_map_of_at(self.items@, j as int);
                }
                return Some(self.items[j].1);
            }
            j += 1;
        }
        proof {
            lemma_map_of_absent(self.items@, name@);
        }
        None
    }

    /// The weight `name` stands for; zero when missing or of another kind.
    pub fn weight_of(&self, name: &str) -> (w: i64)
        requires
            self.wf(),
        ensures
            w == spec_weight(self@, name@),
    {
        match self.get(name) {
            Some(Parameter::Weight(w)) => w,
            _ => 0,
        }
    }

    /// The index `name` stands for; zero when missing or of another kind.
    pub fn index_of(&self, name: &str) -> (ix: u32)
        requires
            self.wf(),
        ensures
            ix == spec_index(self@, name@),
    {
        match self.get(name) {
            Some(Parameter::Index(ix)) => ix,
            _ => 0,
        }
    }

    /// The truth `name` stands for; false when missing or of another kind.
    pub fn rule_of(&self, name: &str) -> (b: bool)
        requires
            self.wf(),
        ensures
            b == spec_rule(self@, name@),
    {
        match self.get(name) {
            Some(Parameter::Rule(b)) => b,
            _ => false,
        }
    }
}

/// Entries left of a matching entry never shadow it when names are unique.
proof fn lemma_map_of_at(items: Seq<(String, Parameter)>, i: int)
    requires
        distinct_keys(items),
        0 <= i < items.len(),
    ensures
        map_of(items).contains_key(items[i].0@),
        map_of(items)[items[i].0@] == items[i].1,
    decreases items.len(),
{
    if i < items.len() - 1 {
        assert(items.drop_last()[i] == items[i]);
        lemma_map_of_at(items.drop_last(), i);
        assert(items.last().0@ != items[i].0@);
    }
}

/// A name held by no entry is absent from the denoted map.
proof fn lemma_map_of_absent(items: Seq<(String, Parameter)>, k: Seq<char>)
    requires
        forall|i: int| 0 <= i < items.len() ==> items[i].0@ != k,
    ensures
        !map_of(items).contains_key(k),
    decreases items.len(),
{
    if items.len() > 0 {
        assert(forall|i: int|
            0 <= i < items.drop_last().len() ==> items.drop_last()[i].0@ != k);
        lemma_map_of_absent(items.drop_last(), k);
    }
}

/// Replacing an entry in place rebinds exactly its name.
proof fn lemma_map_of_update(items: Seq<(String, Parameter)>, i: int, p: (String, Parameter))
    requires
        distinct_keys(items),
        0 <= i < items.len(),
        p.0@ == items[i].0@,
    ensures
        map_of(items.update(i, p)) =~= map_of(items).insert(p.0@, p.1),
    decreases items.len(),
{
    let updated = items.update(i, p);
    if i == items.len() - 1 {
        assert(updated.drop_last() =~= items.drop_last());
        assert(updated.last() == p);
    } else {
        assert(updated.drop_last() =~= items.drop_last().update(i, p));
        assert(items.drop_last()[i] == items[i]);
        lemma_map_of_update(items.drop_last(), i, p);
        assert(updated.last() == items.last());
        assert(items.last().0@ != p.0@);
    }
}

} // verus!
