use vstd::prelude::*;
use crate::error::Storage;
use crate::facts::Facts;
use crate::scope::Scope;

verus! {

/// The context flags a surrounding construct pushes for its children.
#[derive(Clone, Copy, PartialEq, Eq, Structural, Debug)]
pub struct Ctx {
    /// Inside a conditional test position.
    pub in_cond: bool,
    /// The expression evaluator must record truthy/falsy facts.
    pub should_store_truthy_for_access: bool,
    /// The current expression is a switch case test.
    pub in_switch_case_test: bool,
    /// The synthesized case comparison is being checked.
    pub checking_switch_discriminant_as_bin: bool,
    /// A forward reference to a variable being declared is permitted.
    pub allow_ref_declaring: bool,
    /// The right side of a `for`-in/of head must not be a tuple literal.
    pub cannot_be_tuple: bool,
    /// Errors are suppressed (non-final loop passes).
    pub ignore_errors: bool,
    /// Code from here on is unreachable.
    pub in_unreachable: bool,
}

impl Ctx {
    pub fn default() -> (r: Ctx)
        ensures
            r == (Ctx {
                in_cond: false,
                should_store_truthy_for_access: false,
                in_switch_case_test: false,
                checking_switch_discriminant_as_bin: false,
                allow_ref_declaring: false,
                cannot_be_tuple: false,
                ignore_errors: false,
                in_unreachable: false,
            }),
    {
        Ctx {
            in_cond: false,
            should_store_truthy_for_access: false,
            in_switch_case_test: false,
            checking_switch_discriminant_as_bin: false,
            allow_ref_declaring: false,
            cannot_be_tuple: false,
            ignore_errors: false,
            in_unreachable: false,
        }
    }
}

/// The mutable state the narrowing core carries through one analysis: the
/// facts accumulator, the context flags, the live scope and the error sink.
#[derive(Debug)]
pub struct Analyzer {
    pub cur_facts: Facts,
    pub ctx: Ctx,
    pub scope: Scope,
    pub storage: Storage,
}

impl Analyzer {
    pub open spec fn wf(self) -> bool {
        self.cur_facts.wf() && self.scope.wf()
    }

    pub fn new() -> (r: Analyzer)
        ensures
            r.wf(),
            r.storage@ == Seq::<crate::error::ErrorKind>::empty(),
    {
        Analyzer {
            cur_facts: Facts::new(),
            ctx: Ctx::default(),
            scope: Scope::root(),
            storage: Storage::new(),
        }
    }
}

} // verus!
