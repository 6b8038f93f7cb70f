use vstd::prelude::*;

verus! {

/// Predicate: the name is known to be truthy.
pub const FACT_TRUTHY: u64 = 0x1;
/// Predicate: the name is known to be falsy.
pub const FACT_FALSY: u64 = 0x2;
/// Predicate: the name is known not to be `undefined`.
pub const FACT_NE_UNDEFINED: u64 = 0x4;
/// Predicate: the name is known not to be `null`.
pub const FACT_NE_NULL: u64 = 0x8;
/// Predicate: the name is known to be neither `undefined` nor `null`.
pub const FACT_NE_UNDEFINED_OR_NULL: u64 = FACT_NE_UNDEFINED | FACT_NE_NULL;

/// A dense bitset of independent narrowing predicates asserted about one
/// named location.  Predicates accumulate by bitwise-or and are removed by
/// bitwise-and-not; the empty set is the identity of `or`.
#[derive(Clone, Copy, PartialEq, Eq, Structural, Debug)]
pub struct TypeFacts {
    pub bits: u64,
}

impl View for TypeFacts {
    type V = TypeFacts;

    open spec fn view(&self) -> TypeFacts {
        *self
    }
}

impl TypeFacts {
    /// The empty predicate set, the identity element of `or`.
    pub open spec fn spec_none() -> TypeFacts {
        TypeFacts { bits: 0 }
    }

    pub open spec fn spec_or(self, other: TypeFacts) -> TypeFacts {
        TypeFacts { bits: self.bits | other.bits }
    }

    pub open spec fn spec_and_not(self, other: TypeFacts) -> TypeFacts {
        TypeFacts { bits: self.bits & !other.bits }
    }

    pub open spec fn spec_contains(self, other: TypeFacts) -> bool {
        self.bits & other.bits == other.bits
    }

    pub fn none() -> (r: TypeFacts)
        ensures
            r == TypeFacts::spec_none(),
    {
        TypeFacts { bits: 0 }
    }

    pub fn of(bits: u64) -> (r: TypeFacts)
        ensures
            r.bits == bits,
    {
        TypeFacts { bits }
    }

    /// Accumulate: assert the predicates of `other` as well.
    pub fn or(self, other: TypeFacts) -> (r: TypeFacts)
        ensures
            r == self.spec_or(other),
    {
        TypeFacts { bits: self.bits | other.bits }
    }

    /// Exclude: retract the predicates of `other`.
    pub fn and_not(self, other: TypeFacts) -> (r: TypeFacts)
        ensures
            r == self.spec_and_not(other),
    {
        TypeFacts { bits: self.bits & !other.bits }
    }

    /// Does this set assert every predicate of `other`?
    pub fn contains(self, other: TypeFacts) -> (r: bool)
        ensures
            r == self.spec_contains(other),
    {
        self.bits & other.bits == other.bits
    }
}

/// `or` is commutative.
pub proof fn lemma_type_facts_or_commutes(a: TypeFacts, b: TypeFacts)
    ensures
        a.spec_or(b) == b.spec_or(a),
{
    let x = a.bits;
    let y = b.bits;
    assert(x | y == y | x) by (bit_vector);
}

/// `or` is idempotent.
pub proof fn lemma_type_facts_or_idempotent(a: TypeFacts)
    ensures
        a.spec_or(a) == a,
{
    let x = a.bits;
    assert(x | x == x) by (bit_vector);
}

/// The empty set is the identity of `or`.
pub proof fn lemma_type_facts_or_identity(a: TypeFacts)
    ensures
        a.spec_or(TypeFacts::spec_none()) == a,
        TypeFacts::spec_none().spec_or(a) == a,
{
    let x = a.bits;
    assert(x | 0u64 == x) by (bit_vector);
    assert(0u64 | x == x) by (bit_vector);
}

} // verus!
