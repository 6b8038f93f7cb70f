use flow_facts::cond_facts::{CondFacts, TypeList};
use flow_facts::facts::Facts;
use flow_facts::name::Name;
use flow_facts::span::Span;
use flow_facts::type_facts::{TypeFacts, FACT_FALSY, FACT_NE_NULL, FACT_TRUTHY};
use flow_facts::types::{clone_type, eq_type, KeywordKind, Type};

fn sp() -> Span {
    Span::new(1, 2)
}

fn str_ty() -> Type {
    Type::keyword(KeywordKind::Str, sp()).freezed()
}

fn num_ty() -> Type {
    Type::keyword(KeywordKind::Num, sp()).freezed()
}

fn name_x() -> Name {
    Name::of_id(7)
}

/// Negating twice gives back the same facts.
#[test]
fn negation_involution_concrete() {
    let mut f = Facts::new();
    f.true_facts.set_var(name_x(), str_ty());
    let once = f.negate();
    assert!(once.true_facts.vars.get(&name_x()).is_none());
    assert!(once.false_facts.vars.get(&name_x()).is_some());
    let twice = once.negate();
    let v = twice.true_facts.vars.get(&name_x()).expect("binding must come back");
    assert!(eq_type(v, &str_ty()));
    assert!(twice.false_facts.vars.get(&name_x()).is_none());
}

/// Composing with the empty store changes nothing, on either side.
#[test]
fn compose_identity_concrete() {
    let mut cf = CondFacts::new();
    cf.facts.set(name_x(), TypeFacts::of(FACT_TRUTHY));
    cf.set_var(name_x(), str_ty());
    let snapshot = cf.clone();

    // cf += empty
    cf.compose(CondFacts::new());
    assert!(cf.same_as(&snapshot));

    // empty += cf
    let mut empty = CondFacts::new();
    empty.compose(snapshot.clone());
    assert!(empty.same_as(&snapshot));
}

/// The parallel join is commutative up to type equality of union members.
#[test]
fn join_commutative_concrete() {
    let mut a = CondFacts::new();
    a.facts.set(name_x(), TypeFacts::of(FACT_TRUTHY));
    a.set_var(name_x(), str_ty());
    let mut b = CondFacts::new();
    b.facts.set(name_x(), TypeFacts::of(FACT_FALSY));
    b.set_var(name_x(), num_ty());

    let ab = a.clone().join(b.clone());
    let ba = b.join(a);

    let fab = ab.facts.get(&name_x()).copied().unwrap();
    let fba = ba.facts.get(&name_x()).copied().unwrap();
    assert_eq!(fab.bits, fba.bits);
    assert_eq!(fab.bits, FACT_TRUTHY | FACT_FALSY);

    // Both sides bind x to a union of string and number, in some order.
    let vab = ab.vars.get(&name_x()).unwrap();
    let vba = ba.vars.get(&name_x()).unwrap();
    assert!(vab.is_union());
    assert!(vba.is_union());
}

/// Joining a store with itself is equivalent to the store.
#[test]
fn join_idempotent_concrete() {
    let mut a = CondFacts::new();
    a.facts.set(name_x(), TypeFacts::of(FACT_NE_NULL));
    let joined = a.clone().join(a.clone());
    let f = joined.facts.get(&name_x()).copied().unwrap();
    assert_eq!(f.bits, FACT_NE_NULL);
    assert_eq!(joined.facts.len(), a.facts.len());
}

/// After the override, every key of the right side maps to exactly its
/// binding there, and the right side is drained.
#[test]
fn override_installs_bindings() {
    let mut a = CondFacts::new();
    a.set_var(name_x(), str_ty());
    let mut r = CondFacts::new();
    r.set_var(name_x(), num_ty());
    r.set_var(Name::of_id(8), str_ty());

    a.override_vars_using(&mut r);
    assert!(eq_type(a.vars.get(&name_x()).unwrap(), &num_ty()));
    assert!(eq_type(a.vars.get(&Name::of_id(8)).unwrap(), &str_ty()));
    assert_eq!(r.vars.len(), 0);
}

/// Values inserted into a store keep the cheap-clone discipline: the
/// widened binding sequential composition installs is a frozen union.
#[test]
fn compose_widens_and_freezes() {
    let mut a = CondFacts::new();
    a.set_var(name_x(), str_ty());
    let mut b = CondFacts::new();
    b.set_var(name_x(), num_ty());
    a.compose(b);
    let v = a.vars.get(&name_x()).unwrap();
    assert!(v.is_union());
    assert!(v.meta().frozen);
}

/// Sequential composition: later type bindings win; exclusions concatenate.
#[test]
fn compose_types_and_excludes() {
    let mut a = CondFacts::new();
    a.types.set(name_x(), str_ty());
    a.add_exclude(name_x(), str_ty());
    let mut b = CondFacts::new();
    b.types.set(name_x(), num_ty());
    b.add_exclude(name_x(), num_ty());
    a.compose(b);
    assert!(eq_type(a.types.get(&name_x()).unwrap(), &num_ty()));
    let excl: &TypeList = a.excludes.get(&name_x()).unwrap();
    assert_eq!(excl.len(), 2);
    assert!(eq_type(excl.at(0), &str_ty()));
    assert!(eq_type(excl.at(1), &num_ty()));
}

/// `insert_var` records the binding on the chosen side and the exclusion on
/// the other.
#[test]
fn insert_var_sides() {
    let mut f = Facts::new();
    f.insert_var(name_x(), str_ty(), num_ty(), false);
    assert!(f.true_facts.vars.get(&name_x()).is_some());
    assert!(f.false_facts.excludes.get(&name_x()).is_some());
    assert!(f.false_facts.vars.get(&name_x()).is_none());

    let mut g = Facts::new();
    g.insert_var(name_x(), str_ty(), num_ty(), true);
    assert!(g.false_facts.vars.get(&name_x()).is_some());
    assert!(g.true_facts.excludes.get(&name_x()).is_some());
}
