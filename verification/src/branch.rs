use vstd::prelude::*;
use crate::analyzer::Analyzer;
use crate::cond_facts::{compose_v, CondFacts, CondFactsV};
use crate::facts::{Facts, FactsV};

verus! {

impl Analyzer {
    /// The flow-sensitive merge after an `if`.  On entry the analyzer's
    /// facts slot is empty (the branches were visited under the test's two
    /// sides); `prev_facts` is what preceded the statement and `false_facts`
    /// the test's false side.  In order:
    /// - a `then` branch that ends with `return`/`throw`/`continue` means
    ///   code after the `if` runs only when the test was false: the false
    ///   side composes into the after-`if` true facts;
    /// - otherwise, both branches unreachable make the point after the `if`
    ///   unreachable;
    /// - an unreachable `then` branch alone hoists the false side likewise;
    /// - otherwise no fact is installed.
    pub fn finish_if(
        &mut self,
        prev_facts: Facts,
        false_facts: CondFacts,
        cons_ends_with_ret: bool,
        cons_unreachable: bool,
        alt_unreachable: Option<bool>,
    )
        requires
            old(self).wf(),
            prev_facts.wf(),
            false_facts.wf(),
        ensures
            final(self).wf(),
            final(self).scope == old(self).scope,
            final(self).storage == old(self).storage,
            cons_ends_with_ret ==> {
                &&& final(self).cur_facts@.true_facts == compose_v(
                    prev_facts@.true_facts,
                    false_facts@,
                )
                &&& final(self).cur_facts@.false_facts == prev_facts@.false_facts
                &&& final(self).ctx == old(self).ctx
            },
            !cons_ends_with_ret && cons_unreachable && alt_unreachable == Some(true) ==> {
                &&& final(self).cur_facts@ == prev_facts@
                &&& final(self).ctx == (crate::analyzer::Ctx { in_unreachable: true, ..old(self).ctx })
            },
            !cons_ends_with_ret && cons_unreachable && alt_unreachable != Some(true) ==> {
                &&& final(self).cur_facts@.true_facts == compose_v(
                    prev_facts@.true_facts,
                    false_facts@,
                )
                &&& final(self).cur_facts@.false_facts == prev_facts@.false_facts
                &&& final(self).ctx == old(self).ctx
            },
            !cons_ends_with_ret && !cons_unreachable ==> {
                &&& final(self).cur_facts@ == prev_facts@
                &&& final(self).ctx == old(self).ctx
            },
    {
        self.cur_facts = prev_facts;
        if cons_ends_with_ret {
            self.cur_facts.true_facts.compose(false_facts);
            return;
        }
        if cons_unreachable {
            match alt_unreachable {
                Some(true) => {
                    self.ctx.in_unreachable = true;
                }
                _ => {
                    self.cur_facts.true_facts.compose(false_facts);
                }
            }
        }
    }
}

/// The running state of a switch analysis: the facts each case body starts
/// from, the accumulated false sides of the tested cases, and whether the
/// most recent case body ended with `return`/`throw`/`continue`.
#[derive(Debug)]
pub struct SwitchAnalysis {
    pub base_true_facts: CondFacts,
    pub false_facts: CondFacts,
    pub ends_with_ret: bool,
}

impl SwitchAnalysis {
    pub open spec fn wf(self) -> bool {
        self.base_true_facts.wf() && self.false_facts.wf()
    }

    /// Open the analysis over the facts that precede the switch.
    pub fn begin(cur_facts: &mut Facts) -> (r: SwitchAnalysis)
        requires
            old(cur_facts).wf(),
        ensures
            final(cur_facts).wf(),
            final(cur_facts)@.true_facts == CondFactsV::empty(),
            final(cur_facts)@.false_facts == old(cur_facts)@.false_facts,
            r.wf(),
            r.base_true_facts@ == old(cur_facts)@.true_facts,
            r.false_facts@ == CondFactsV::empty(),
            !r.ends_with_ret,
    {
        SwitchAnalysis {
            base_true_facts: cur_facts.true_facts.take(),
            false_facts: CondFacts::new(),
            ends_with_ret: false,
        }
    }

    /// Account one case, in source order.  The evaluator compared the
    /// discriminant to the case test and left the comparison's facts in
    /// `cur_facts`; this drains them and yields the facts the case body runs
    /// under: the accumulated base plus the comparison's true side.  When
    /// the body ends with `return`/`throw`/`continue`, or this is the last
    /// case, the comparison's false side accumulates for the following
    /// cases and for after the switch.
    pub fn case_step(
        &mut self,
        cur_facts: &mut Facts,
        case_ends_with_ret: bool,
        is_last: bool,
    ) -> (facts_for_body: CondFacts)
        requires
            old(self).wf(),
            old(cur_facts).wf(),
        ensures
            final(self).wf(),
            final(cur_facts).wf(),
            final(cur_facts)@ == FactsV::empty(),
            facts_for_body.wf(),
            facts_for_body@ == compose_v(
                old(self).base_true_facts@,
                old(cur_facts)@.true_facts,
            ),
            final(self).ends_with_ret == case_ends_with_ret,
            (case_ends_with_ret || is_last) ==> {
                &&& final(self).false_facts@ == compose_v(
                    old(self).false_facts@,
                    old(cur_facts)@.false_facts,
                )
                &&& final(self).base_true_facts@ == compose_v(
                    old(self).base_true_facts@,
                    old(cur_facts)@.false_facts,
                )
            },
            !(case_ends_with_ret || is_last) ==> {
                &&& final(self).false_facts == old(self).false_facts
                &&& final(self).base_true_facts == old(self).base_true_facts
            },
    {
        let true_facts_of_case = cur_facts.true_facts.take();
        let false_facts_of_case = cur_facts.false_facts.take();
        let mut facts_for_body = self.base_true_facts.clone();
        facts_for_body.compose(true_facts_of_case);
        if case_ends_with_ret || is_last {
            self.false_facts.compose(false_facts_of_case.clone());
            self.base_true_facts.compose(false_facts_of_case);
        }
        self.ends_with_ret = case_ends_with_ret;
        facts_for_body
    }

    /// Close the analysis.  When no case errored and every case body is an
    /// unconditional terminator, code after the switch is unreachable; when
    /// the last case ended with `return`/`throw`/`continue`, the accumulated
    /// false sides hold after the switch.
    pub fn finish(self, a: &mut Analyzer, all_cases_terminate: bool, errored: bool)
        requires
            old(a).wf(),
            self.wf(),
        ensures
            final(a).wf(),
            final(a).scope == old(a).scope,
            final(a).storage == old(a).storage,
            final(a).ctx.in_unreachable == (old(a).ctx.in_unreachable || (!errored
                && all_cases_terminate)),
            self.ends_with_ret ==> final(a).cur_facts@.true_facts == compose_v(
                old(a).cur_facts@.true_facts,
                self.false_facts@,
            ) && final(a).cur_facts@.false_facts == old(a).cur_facts@.false_facts,
            !self.ends_with_ret ==> final(a).cur_facts == old(a).cur_facts,
    {
        if !errored {
            if all_cases_terminate {
                a.ctx.in_unreachable = true;
            }
        }
        if self.ends_with_ret {
            a.cur_facts.true_facts.compose(self.false_facts);
        }
    }
}

} // verus!
