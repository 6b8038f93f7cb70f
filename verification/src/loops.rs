use vstd::prelude::*;
use crate::cond_facts::{cf_same, compose_v, CondFacts, CondFactsV};
use crate::facts::{Facts, FactsV};
use crate::name::Id;
use crate::type_facts::TypeFacts;

verus! {

/// The state of one loop fixed-point analysis.  The surrounding visitor
/// evaluates the loop's test and body once per pass; this machine decides,
/// from the facts each pass produced, whether another pass is needed and
/// under which facts it runs.
#[derive(Debug)]
pub struct LoopAnalysis {
    /// The facts the next pass starts from; grows monotonically.
    pub prev_facts: CondFacts,
    /// The false-side facts of the loop's own test, held for after the loop.
    pub false_facts: CondFacts,
    /// What the previous pass produced, the stability reference.
    pub facts_of_prev_body_eval: CondFacts,
    /// The next pass is the final one, run with errors enabled.
    pub last: bool,
}

/// What to do after a pass.
#[derive(Debug)]
pub enum LoopStep {
    /// Run the body once more under `seed`; suppress errors unless this is
    /// the final pass.
    Continue { seed: CondFacts, ignore_errors: bool },
    /// The final pass ran; install the results via [`LoopAnalysis::finish`].
    Finished,
}

/// `r`'s binding map is `a`'s overridden by `b`'s, the rest is `a`'s.
pub open spec fn override_vars_v(a: CondFactsV, b: CondFactsV) -> CondFactsV {
    CondFactsV { vars: a.vars.union_prefer_right(b.vars), ..a }
}

/// The facts a pass hands on, after the pass produced `fb`: exclusions are
/// dropped, the bindings override the accumulator's, and the rest composes.
pub open spec fn loop_pass_v(prev: CondFactsV, fb: CondFactsV) -> CondFactsV {
    let cleared = CondFactsV { excludes: Map::empty(), ..fb };
    compose_v(
        override_vars_v(prev, cleared),
        CondFactsV { vars: Map::empty(), ..cleared },
    )
}

impl LoopAnalysis {
    pub open spec fn wf(self) -> bool {
        self.prev_facts.wf() && self.false_facts.wf() && self.facts_of_prev_body_eval.wf()
    }

    /// Open the analysis: take the surrounding facts; the first pass runs
    /// under the true side, with errors suppressed.
    pub fn begin(cur_facts: &mut Facts) -> (r: (LoopAnalysis, LoopStep))
        requires
            old(cur_facts).wf(),
        ensures
            final(cur_facts).wf(),
            final(cur_facts)@ == FactsV::empty(),
            r.0.wf(),
            r.0.prev_facts@ == old(cur_facts)@.true_facts,
            r.0.false_facts@ == old(cur_facts)@.false_facts,
            r.0.facts_of_prev_body_eval@ == CondFactsV::empty(),
            !r.0.last,
            r.1 matches LoopStep::Continue { seed, ignore_errors } && seed@ == old(
                cur_facts,
            )@.true_facts && ignore_errors,
    {
        let mut orig = cur_facts.take();
        let prev_facts = orig.true_facts.take();
        let false_facts = orig.false_facts.take();
        let seed = prev_facts.clone();
        let state = LoopAnalysis {
            prev_facts,
            false_facts,
            facts_of_prev_body_eval: CondFacts::new(),
            last: false,
        };
        (state, LoopStep::Continue { seed, ignore_errors: true })
    }

    /// Account one pass that produced `facts_from_body`.  On the final pass
    /// the body's facts compose into the accumulator and the analysis ends.
    /// Otherwise: when the pass reproduced the previous pass's facts the
    /// next pass is the final one (errors on); either way the body's facts,
    /// exclusions dropped, override the accumulated bindings and compose,
    /// and the next pass runs under the accumulated facts.
    pub fn step(&mut self, facts_from_body: CondFacts) -> (r: LoopStep)
        requires
            old(self).wf(),
            facts_from_body.wf(),
        ensures
            final(self).wf(),
            final(self).false_facts == old(self).false_facts,
            old(self).last ==> {
                &&& r is Finished
                &&& final(self).last
                &&& final(self).prev_facts@ == compose_v(
                    old(self).prev_facts@,
                    CondFactsV { excludes: Map::empty(), ..facts_from_body@ },
                )
            },
            !old(self).last ==> {
                &&& r matches LoopStep::Continue { seed, ignore_errors } && (seed@
                    == final(self).prev_facts@ && ignore_errors == !final(self).last)
                &&& final(self).last == cf_same(
                    old(self).facts_of_prev_body_eval@,
                    CondFactsV { excludes: Map::empty(), ..facts_from_body@ },
                )
                &&& final(self).prev_facts@ == loop_pass_v(
                    old(self).prev_facts@,
                    facts_from_body@,
                )
            },
    {
        let mut fb = facts_from_body;
        fb.clear_excludes();
        if self.last {
            self.prev_facts.compose(fb);
            return LoopStep::Finished;
        }
        if self.facts_of_prev_body_eval.same_as(&fb) {
            self.last = true;
        } else {
            self.facts_of_prev_body_eval = fb.clone();
        }
        self.prev_facts.override_vars_using(&mut fb);
        self.prev_facts.compose(fb);
        let seed = self.prev_facts.clone();
        proof {
            assert(self.prev_facts@ =~= loop_pass_v(old(self).prev_facts@, facts_from_body@));
        }
        LoopStep::Continue { seed, ignore_errors: !self.last }
    }

    /// Install the loop's results: the accumulated facts hold after the
    /// loop on the true side, the test's false side on the false side.
    pub fn finish(self, cur_facts: &mut Facts)
        requires
            old(cur_facts).wf(),
            self.wf(),
        ensures
            final(cur_facts).wf(),
            final(cur_facts)@.true_facts == compose_v(
                old(cur_facts)@.true_facts,
                self.prev_facts@,
            ),
            final(cur_facts)@.false_facts == compose_v(
                old(cur_facts)@.false_facts,
                self.false_facts@,
            ),
    {
        cur_facts.true_facts.compose(self.prev_facts);
        cur_facts.false_facts.compose(self.false_facts);
    }
}

/// Sequential composition only grows a store's predicate map, in the order
/// the termination bound is stated over.
pub proof fn lemma_compose_grows_facts(a: CondFactsV, b: CondFactsV)
    ensures
        fm_le(a.facts, compose_v(a, b).facts),
{
    let out = compose_v(a, b).facts;
    assert forall|k: Seq<Id>|
        #[trigger] a.facts.dom().contains(k) implies out.dom().contains(k) && (a.facts[k].bits
        | out[k].bits == out[k].bits) by {
        if b.facts.dom().contains(k) {
            let x = a.facts[k].bits;
            let y = b.facts[k].bits;
            assert(x | (x | y) == (x | y)) by (bit_vector);
        } else {
            let x = a.facts[k].bits;
            assert(x | x == x) by (bit_vector);
        }
    }
}

/// Each pass of the analysis only grows the accumulator's predicate map: a
/// run of the machine yields a monotone chain of the kind the termination
/// bound speaks about.
pub proof fn lemma_loop_pass_grows_facts(prev: CondFactsV, fb: CondFactsV)
    ensures
        fm_le(prev.facts, loop_pass_v(prev, fb).facts),
{
    let mid = override_vars_v(prev, CondFactsV { excludes: Map::empty(), ..fb });
    assert(mid.facts == prev.facts);
    lemma_compose_grows_facts(
        mid,
        CondFactsV {
            vars: Map::empty(),
            ..CondFactsV { excludes: Map::empty(), ..fb }
        },
    );
}

/// The number of predicate bits set in the low `w` bits.
pub open spec fn popcount(x: u64, w: nat) -> nat
    decreases w,
{
    if w == 0 {
        0
    } else {
        (if x & 1 == 1 {
            1nat
        } else {
            0nat
        }) + popcount(x >> 1u64, (w - 1) as nat)
    }
}

pub proof fn lemma_popcount_bound(x: u64, w: nat)
    ensures
        popcount(x, w) <= w,
    decreases w,
{
    if w > 0 {
        lemma_popcount_bound(x >> 1u64, (w - 1) as nat);
    }
}

/// More predicates set means a larger count.
pub proof fn lemma_popcount_le(a: u64, b: u64, w: nat)
    requires
        a | b == b,
    ensures
        popcount(a, w) <= popcount(b, w),
    decreases w,
{
    if w > 0 {
        assert((a >> 1u64) | (b >> 1u64) == (b >> 1u64)) by (bit_vector)
            requires
                a | b == b,
        ;
        assert(a & 1 == 1 ==> b & 1 == 1) by (bit_vector)
            requires
                a | b == b,
        ;
        lemma_popcount_le(a >> 1u64, b >> 1u64, (w - 1) as nat);
    }
}

/// Strictly more predicates set means a strictly larger count, within the
/// width that holds them.
pub proof fn lemma_popcount_strict(a: u64, b: u64, w: nat)
    requires
        a | b == b,
        a != b,
        w <= 64,
        a >> (w as u64) == 0,
        b >> (w as u64) == 0,
    ensures
        popcount(a, w) < popcount(b, w),
    decreases w,
{
    assert(w != 0) by {
        if w == 0 {
            assert(a >> 0u64 == a && b >> 0u64 == b) by (bit_vector);
        }
    }
    if a & 1 != b & 1 {
        assert(a & 1 == 0 && b & 1 == 1) by (bit_vector)
            requires
                a | b == b && a & 1 != b & 1,
        ;
        assert((a >> 1u64) | (b >> 1u64) == (b >> 1u64)) by (bit_vector)
            requires
                a | b == b,
        ;
        lemma_popcount_le(a >> 1u64, b >> 1u64, (w - 1) as nat);
    } else {
        let wm = (w - 1) as u64;
        assert((a >> 1u64) | (b >> 1u64) == (b >> 1u64) && a >> 1u64 != b >> 1u64 && (a >> 1u64)
            >> wm == 0 && (b >> 1u64) >> wm == 0) by (bit_vector)
            requires
                a | b == b && a != b && a & 1 == b & 1 && a >> (wm + 1) == 0 && b >> (wm + 1) == 0
                    && wm < 64,
        ;
        lemma_popcount_strict(a >> 1u64, b >> 1u64, (w - 1) as nat);
    }
}

/// The partial order on predicate maps: every recorded predicate set stays
/// and can only accumulate bits.
pub open spec fn fm_le(a: Map<Seq<Id>, TypeFacts>, b: Map<Seq<Id>, TypeFacts>) -> bool {
    forall|k: Seq<Id>|
        #[trigger] a.dom().contains(k) ==> b.dom().contains(k) && (a[k].bits | b[k].bits
            == b[k].bits)
}

/// The size of a predicate map over a fixed universe of names: one for each
/// name it binds, plus its predicate bits.
pub open spec fn fm_measure(m: Map<Seq<Id>, TypeFacts>, ks: Seq<Seq<Id>>) -> nat
    decreases ks,
{
    if ks.len() == 0 {
        0
    } else {
        fm_measure(m, ks.drop_last()) + (if m.dom().contains(ks.last()) {
            1 + popcount(m[ks.last()].bits, 64)
        } else {
            0nat
        })
    }
}

pub proof fn lemma_fm_measure_bound(m: Map<Seq<Id>, TypeFacts>, ks: Seq<Seq<Id>>)
    ensures
        fm_measure(m, ks) <= 65 * ks.len(),
    decreases ks,
{
    if ks.len() > 0 {
        lemma_fm_measure_bound(m, ks.drop_last());
        if m.dom().contains(ks.last()) {
            lemma_popcount_bound(m[ks.last()].bits, 64);
        }
    }
}

pub proof fn lemma_fm_measure_le(
    a: Map<Seq<Id>, TypeFacts>,
    b: Map<Seq<Id>, TypeFacts>,
    ks: Seq<Seq<Id>>,
)
    requires
        fm_le(a, b),
    ensures
        fm_measure(a, ks) <= fm_measure(b, ks),
    decreases ks,
{
    if ks.len() > 0 {
        lemma_fm_measure_le(a, b, ks.drop_last());
        if a.dom().contains(ks.last()) {
            lemma_popcount_le(a[ks.last()].bits, b[ks.last()].bits, 64);
        }
    }
}

/// A strict growth at a name of the universe strictly grows the measure.
pub proof fn lemma_fm_measure_strict(
    a: Map<Seq<Id>, TypeFacts>,
    b: Map<Seq<Id>, TypeFacts>,
    ks: Seq<Seq<Id>>,
    kw: Seq<Id>,
)
    requires
        fm_le(a, b),
        ks.contains(kw),
        b.dom().contains(kw),
        !a.dom().contains(kw) || a[kw] != b[kw],
    ensures
        fm_measure(a, ks) < fm_measure(b, ks),
    decreases ks,
{
    let last = ks.last();
    if last == kw {
        lemma_fm_measure_le(a, b, ks.drop_last());
        if a.dom().contains(kw) {
            assert(a[kw].bits != b[kw].bits);
            lemma_popcount_strict_wide(a[kw].bits, b[kw].bits);
        }
    } else {
        assert(ks.drop_last().contains(kw)) by {
            let j = choose|j: int| 0 <= j < ks.len() && ks[j] == kw;
            assert(ks.drop_last()[j] == kw);
        }
        lemma_fm_measure_strict(a, b, ks.drop_last(), kw);
        if a.dom().contains(last) {
            lemma_popcount_le(a[last].bits, b[last].bits, 64);
        }
    }
}

/// Strictness at the full width.
pub proof fn lemma_popcount_strict_wide(a: u64, b: u64)
    requires
        a | b == b,
        a != b,
    ensures
        popcount(a, 64) < popcount(b, 64),
{
    assert(a >> 64u64 == 0 && b >> 64u64 == 0) by (bit_vector);
    lemma_popcount_strict(a, b, 64);
}

/// The loop fixed-point terminates: a run of body evaluations whose
/// predicate maps live over a fixed universe of `n` names and grow
/// monotonically, and in which no two consecutive evaluations are equal —
/// that is, a run the analyzer has not yet ended — has at most `65 n + 1`
/// passes.  The analyzer flags the pass after the first repetition as the
/// last, so it halts within that bound.
pub proof fn lemma_loop_fixed_point_termination(
    chain: Seq<Map<Seq<Id>, TypeFacts>>,
    ks: Seq<Seq<Id>>,
)
    requires
        forall|i: int, k: Seq<Id>|
            0 <= i < chain.len() ==> ((#[trigger] chain[i].dom().contains(k)) ==> ks.contains(k)),
        forall|i: int| 0 <= i < chain.len() - 1 ==> fm_le(#[trigger] chain[i], chain[i + 1]),
        forall|i: int| 0 <= i < chain.len() - 1 ==> #[trigger] chain[i] != chain[i + 1],
    ensures
        chain.len() <= 65 * ks.len() + 1,
{
    if chain.len() > 65 * ks.len() + 1 {
        lemma_chain_measure(chain, ks, chain.len() - 1);
        lemma_fm_measure_bound(chain[chain.len() - 1], ks);
    }
}

proof fn lemma_chain_measure(chain: Seq<Map<Seq<Id>, TypeFacts>>, ks: Seq<Seq<Id>>, i: int)
    requires
        forall|j: int, k: Seq<Id>|
            0 <= j < chain.len() ==> ((#[trigger] chain[j].dom().contains(k)) ==> ks.contains(k)),
        forall|j: int| 0 <= j < chain.len() - 1 ==> fm_le(#[trigger] chain[j], chain[j + 1]),
        forall|j: int| 0 <= j < chain.len() - 1 ==> #[trigger] chain[j] != chain[j + 1],
        0 <= i < chain.len(),
    ensures
        i <= fm_measure(chain[i], ks),
    decreases i,
{
    if i > 0 {
        lemma_chain_measure(chain, ks, i - 1);
        let a = chain[i - 1];
        let b = chain[i];
        assert(fm_le(a, b));
        assert(a != b);
        let kw = choose|k: Seq<Id>|
            #![trigger b.dom().contains(k)]
            (b.dom().contains(k) && (!a.dom().contains(k) || a[k] != b[k])) || (a.dom().contains(
                k,
            ) && !b.dom().contains(k));
        assert(
            (b.dom().contains(kw) && (!a.dom().contains(kw) || a[kw] != b[kw])) || (
            a.dom().contains(kw) && !b.dom().contains(kw))) by {
            if forall|k: Seq<Id>|
                ((#[trigger] b.dom().contains(k)) == a.dom().contains(k)) && (b.dom().contains(k)
                    ==> a[k] == b[k]) {
                assert(a =~= b);
            }
        }
        assert(b.dom().contains(kw) && (!a.dom().contains(kw) || a[kw] != b[kw])) by {
            if a.dom().contains(kw) && !b.dom().contains(kw) {
                assert(b.dom().contains(kw));
            }
        }
        assert(ks.contains(kw));
        lemma_fm_measure_strict(a, b, ks, kw);
    }
}

} // verus!
