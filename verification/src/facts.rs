use vstd::prelude::*;
use crate::cond_facts::{compose_v, join_v, stored_ok, CondFacts, CondFactsV};
use crate::name::{Id, Name};
use crate::types::{TyV, Type};

verus! {

/// The mathematical value of a [`Facts`] pair.
#[verifier::ext_equal]
pub struct FactsV {
    pub true_facts: CondFactsV,
    pub false_facts: CondFactsV,
}

impl FactsV {
    pub open spec fn empty() -> FactsV {
        FactsV { true_facts: CondFactsV::empty(), false_facts: CondFactsV::empty() }
    }
}

/// Negation swaps the two sides.
pub open spec fn negate_v(f: FactsV) -> FactsV {
    FactsV { true_facts: f.false_facts, false_facts: f.true_facts }
}

/// Negation is an involution: negating twice gives back the same facts.
pub proof fn lemma_negation_involution(f: FactsV)
    ensures
        negate_v(negate_v(f)) == f,
{
}

/// The facts of the two sides of a condition: what holds when it was true,
/// and what holds when it was false.
#[derive(Debug)]
pub struct Facts {
    pub true_facts: CondFacts,
    pub false_facts: CondFacts,
}

impl View for Facts {
    type V = FactsV;

    open spec fn view(&self) -> FactsV {
        FactsV { true_facts: self.true_facts@, false_facts: self.false_facts@ }
    }
}

impl Facts {
    pub open spec fn wf(self) -> bool {
        self.true_facts.wf() && self.false_facts.wf()
    }

    pub fn new() -> (r: Self)
        ensures
            r.wf(),
            r@ == FactsV::empty(),
    {
        Facts { true_facts: CondFacts::new(), false_facts: CondFacts::new() }
    }

    /// Move the whole pair out, leaving this one empty.
    pub fn take(&mut self) -> (r: Self)
        ensures
            r == *old(self),
            final(self).wf(),
            final(self)@ == FactsV::empty(),
    {
        Facts { true_facts: self.true_facts.take(), false_facts: self.false_facts.take() }
    }

    /// Negate the condition: swap the two sides.
    pub fn negate(self) -> (r: Facts)
        ensures
            r@ == negate_v(self@),
            self.wf() ==> r.wf(),
    {
        Facts { true_facts: self.false_facts, false_facts: self.true_facts }
    }

    /// Sequential composition, side by side.
    pub fn compose(&mut self, rhs: Facts)
        requires
            old(self).wf(),
            rhs.wf(),
        ensures
            final(self).wf(),
            final(self)@.true_facts == compose_v(old(self)@.true_facts, rhs@.true_facts),
            final(self)@.false_facts == compose_v(old(self)@.false_facts, rhs@.false_facts),
    {
        self.true_facts.compose(rhs.true_facts);
        self.false_facts.compose(rhs.false_facts);
    }

    /// Parallel join, side by side.
    pub fn join(self, rhs: Facts) -> (r: Facts)
        requires
            self.wf(),
            rhs.wf(),
        ensures
            r.wf(),
            r@.true_facts == join_v(self@.true_facts, rhs@.true_facts),
            r@.false_facts == join_v(self@.false_facts, rhs@.false_facts),
    {
        Facts {
            true_facts: self.true_facts.join(rhs.true_facts),
            false_facts: self.false_facts.join(rhs.false_facts),
        }
    }

    /// Record that `name` is `ty` on one side and that `exclude` is removed
    /// from its candidates on the other: the true side when `negate` is
    /// false, the false side when it is true.
    pub fn insert_var(&mut self, name: Name, ty: Type, exclude: Type, negate: bool)
        requires
            old(self).wf(),
            name.wf(),
            stored_ok(ty@),
            stored_ok(exclude@),
        ensures
            final(self).wf(),
            !negate ==> {
                &&& final(self)@.true_facts.vars == old(self)@.true_facts.vars.insert(name@, ty@)
                &&& final(self)@.false_facts.excludes == old(self)@.false_facts.excludes.insert(
                    name@,
                    appended_excludes(old(self)@.false_facts, name@, exclude@),
                )
                &&& final(self)@.true_facts.facts == old(self)@.true_facts.facts
                &&& final(self)@.true_facts.excludes == old(self)@.true_facts.excludes
                &&& final(self)@.true_facts.types == old(self)@.true_facts.types
                &&& final(self)@.false_facts.facts == old(self)@.false_facts.facts
                &&& final(self)@.false_facts.vars == old(self)@.false_facts.vars
                &&& final(self)@.false_facts.types == old(self)@.false_facts.types
            },
            negate ==> {
                &&& final(self)@.false_facts.vars == old(self)@.false_facts.vars.insert(name@, ty@)
                &&& final(self)@.true_facts.excludes == old(self)@.true_facts.excludes.insert(
                    name@,
                    appended_excludes(old(self)@.true_facts, name@, exclude@),
                )
                &&& final(self)@.false_facts.facts == old(self)@.false_facts.facts
                &&& final(self)@.false_facts.excludes == old(self)@.false_facts.excludes
                &&& final(self)@.false_facts.types == old(self)@.false_facts.types
                &&& final(self)@.true_facts.facts == old(self)@.true_facts.facts
                &&& final(self)@.true_facts.vars == old(self)@.true_facts.vars
                &&& final(self)@.true_facts.types == old(self)@.true_facts.types
            },
    {
        if negate {
            let name2 = name.clone();
            self.false_facts.set_var(name, ty);
            self.true_facts.add_exclude(name2, exclude);
        } else {
            let name2 = name.clone();
            self.true_facts.set_var(name, ty);
            self.false_facts.add_exclude(name2, exclude);
        }
    }
}

/// The exclusion list for `name` after appending `ex`: the previous list, or
/// an empty one when none was bound, with `ex` at the end.
pub open spec fn appended_excludes(cf: CondFactsV, name: Seq<Id>, ex: TyV) -> Seq<TyV> {
    if cf.excludes.dom().contains(name) {
        cf.excludes[name].push(ex)
    } else {
        seq![ex]
    }
}

} // verus!
