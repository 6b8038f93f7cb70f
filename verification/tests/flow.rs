use flow_facts::analyzer::Analyzer;
use flow_facts::ast::{
    AssignOp, Expr, ExprKind, Pat, PatKind, PatOrExpr, PropName, VarDecl, VarDeclarator,
    VarDeclKind, VarDeclOrPat,
};
use flow_facts::branch::SwitchAnalysis;
use flow_facts::cond_facts::CondFacts;
use flow_facts::error::ErrorKind;
use flow_facts::facts::Facts;
use flow_facts::forin::{convert_for_of_iterator_error, ForHeadKind};
use flow_facts::loops::{LoopAnalysis, LoopStep};
use flow_facts::name::Name;
use flow_facts::scope::VarInfo;
use flow_facts::span::Span;
use flow_facts::ternary::rewrite_ternary_candidates;
use flow_facts::type_facts::{TypeFacts, FACT_TRUTHY};
use flow_facts::types::{eq_type, KeywordKind, LitValue, Type, TypeElement, TypeKind, TypeMeta};
use flow_facts::typeops::sanitize;
use flow_facts::util::{is_prop_name_eq, opt_union, Comparator};

fn sp() -> Span {
    Span::new(5, 6)
}

fn str_ty() -> Type {
    Type::keyword(KeywordKind::Str, sp()).freezed()
}

fn num_ty() -> Type {
    Type::keyword(KeywordKind::Num, sp()).freezed()
}

fn name_x() -> Name {
    Name::of_id(11)
}

/// After `if (x === null) return;` the false side of the test holds from
/// the statement on: the merge installs it into the true facts.
#[test]
fn if_with_early_return_hoists_false_side() {
    let mut a = Analyzer::new();
    let prev = Facts::new();
    let mut false_facts = CondFacts::new();
    false_facts.set_var(name_x(), str_ty());

    a.finish_if(prev, false_facts, true, false, None);
    let v = a.cur_facts.true_facts.vars.get(&name_x()).expect("fact must be hoisted");
    assert!(eq_type(v, &str_ty()));
}

/// Both branches unreachable make the point after the `if` unreachable.
#[test]
fn if_both_branches_unreachable() {
    let mut a = Analyzer::new();
    let mut false_facts = CondFacts::new();
    false_facts.set_var(name_x(), str_ty());
    a.finish_if(Facts::new(), false_facts, false, true, Some(true));
    assert!(a.ctx.in_unreachable);
    assert!(a.cur_facts.true_facts.vars.get(&name_x()).is_none());
}

/// A switch whose last case returns keeps the accumulated false sides, and
/// exhaustive terminating cases mark the point after it unreachable.
#[test]
fn switch_exhaustive_cases() {
    let mut a = Analyzer::new();
    let mut st = SwitchAnalysis::begin(&mut a.cur_facts);

    // case "a": ... return;
    a.cur_facts.true_facts.facts.set(name_x(), TypeFacts::of(FACT_TRUTHY));
    a.cur_facts.false_facts.set_var(name_x(), str_ty());
    let body_facts = st.case_step(&mut a.cur_facts, true, false);
    assert!(body_facts.facts.get(&name_x()).is_some());

    // case "b": ... return; (last)
    a.cur_facts.false_facts.set_var(Name::of_id(12), num_ty());
    let _ = st.case_step(&mut a.cur_facts, true, true);

    st.finish(&mut a, true, false);
    assert!(a.ctx.in_unreachable);
    assert!(a.cur_facts.true_facts.vars.get(&name_x()).is_some());
    assert!(a.cur_facts.true_facts.vars.get(&Name::of_id(12)).is_some());
}

/// The loop analysis stabilizes: a pass that reproduces the previous pass's
/// facts flags the next pass as the last, and the pass after that finishes.
#[test]
fn loop_fixed_point_stabilizes() {
    let mut a = Analyzer::new();
    a.cur_facts.true_facts.facts.set(name_x(), TypeFacts::of(FACT_TRUTHY));
    let (mut st, first) = LoopAnalysis::begin(&mut a.cur_facts);
    match first {
        LoopStep::Continue { seed, ignore_errors } => {
            assert!(ignore_errors);
            assert!(seed.facts.get(&name_x()).is_some());
        }
        LoopStep::Finished => panic!("the first pass must run"),
    }

    let mut body = CondFacts::new();
    body.set_var(name_x(), str_ty());

    // First pass: new facts, keep iterating with errors off.
    match st.step(body.clone()) {
        LoopStep::Continue { seed: _, ignore_errors } => assert!(ignore_errors),
        LoopStep::Finished => panic!("not stable yet"),
    }
    // Second pass: same facts; the next pass is the final one, errors on.
    match st.step(body.clone()) {
        LoopStep::Continue { seed: _, ignore_errors } => assert!(!ignore_errors),
        LoopStep::Finished => panic!("one more pass runs with errors on"),
    }
    // Final pass.
    match st.step(body) {
        LoopStep::Finished => {}
        LoopStep::Continue { .. } => panic!("the final pass ends the analysis"),
    }
    st.finish(&mut a.cur_facts);
    assert!(a.cur_facts.true_facts.vars.get(&name_x()).is_some());
    assert!(a.cur_facts.true_facts.facts.get(&name_x()).is_some());
}

/// Property narrowing keeps exactly the union members that carry the
/// property.
#[test]
fn narrowing_by_property_presence() {
    let a = Analyzer::new();
    let with_prop = Type {
        kind: TypeKind::TypeLit(vec![TypeElement::Property { key: 21, ty: str_ty() }]),
        meta: TypeMeta::at(sp()),
    };
    let without = Type {
        kind: TypeKind::TypeLit(vec![TypeElement::Property { key: 22, ty: num_ty() }]),
        meta: TypeMeta::at(sp()),
    };
    let src = sanitize(&Type {
        kind: TypeKind::Union(vec![with_prop.clone(), without]),
        meta: TypeMeta::at(sp()),
    });
    let narrowed = a.narrow_types_with_property(sp(), &src, 21, None);
    assert!(eq_type(&narrowed, &with_prop));
}

/// The two-level fact: a union base narrows to the members whose field has
/// the observed type.
#[test]
fn deep_fact_refines_base() {
    let mut a = Analyzer::new();
    let variant_a = Type {
        kind: TypeKind::TypeLit(vec![TypeElement::Property { key: 30, ty: str_ty() }]),
        meta: TypeMeta::at(sp()),
    };
    let variant_b = Type {
        kind: TypeKind::TypeLit(vec![TypeElement::Property { key: 30, ty: num_ty() }]),
        meta: TypeMeta::at(sp()),
    };
    let obj_ty = sanitize(&Type {
        kind: TypeKind::Union(vec![variant_a.clone(), variant_b]),
        meta: TypeMeta::at(sp()),
    });
    a.scope.insert_var(
        40,
        VarInfo {
            ty: Some(obj_ty),
            actual_ty: None,
            copied: false,
            initialized: true,
            is_actual_type_modified_in_loop: false,
        },
    );
    let deep = Name::of_member(40, 30);
    let got = a.determine_type_fact_by_field_fact(sp(), &deep, &str_ty()).unwrap();
    let (base, refined) = got.expect("one member matches");
    assert_eq!(base.len(), 1);
    assert_eq!(base.part(0), 40);
    assert!(eq_type(&refined, &variant_a));
}

/// Ternary candidates: a tuple lifts to an array of the union of its
/// de-duplicated element types.
#[test]
fn ternary_tuple_lifts_to_array() {
    let lit1 = Type { kind: TypeKind::Lit(LitValue::Num(1)), meta: TypeMeta::at(sp()) };
    let lit2 = Type { kind: TypeKind::Lit(LitValue::Num(2)), meta: TypeMeta::at(sp()) };
    let tup = Type { kind: TypeKind::Tuple(vec![lit1, lit2]), meta: TypeMeta::at(sp()) };
    let out = rewrite_ternary_candidates(vec![tup, str_ty()]);
    assert_eq!(out.len(), 2);
    match &out[0].kind {
        TypeKind::Array(elem) => match &elem.kind {
            TypeKind::Union(ms) => assert_eq!(ms.len(), 2),
            _ => panic!("expected the union of the elements"),
        },
        _ => panic!("expected an array"),
    }
    assert!(eq_type(&out[1], &str_ty()));
}

/// Duplicated tuple elements collapse before the union forms.
#[test]
fn ternary_tuple_dedups_elements() {
    let lit1 = Type { kind: TypeKind::Lit(LitValue::Num(1)), meta: TypeMeta::at(sp()) };
    let lit1b = Type { kind: TypeKind::Lit(LitValue::Num(1)), meta: TypeMeta::at(sp()) };
    let tup = Type { kind: TypeKind::Tuple(vec![lit1, lit1b]), meta: TypeMeta::at(sp()) };
    let out = rewrite_ternary_candidates(vec![tup]);
    match &out[0].kind {
        TypeKind::Array(elem) => assert!(matches!(elem.kind, TypeKind::Lit(..))),
        _ => panic!("expected an array"),
    }
}

/// For-in element types: strings over aggregates, `string | number`
/// elsewhere.
#[test]
fn for_in_element_types() {
    let a = Analyzer::new();
    let arr = Type {
        kind: TypeKind::Array(Box::new(num_ty())),
        meta: TypeMeta::at(sp()),
    };
    let e1 = a.get_element_type_of_for_in(&arr, 99);
    assert!(eq_type(&e1, &Type::keyword(KeywordKind::Str, sp())));

    let e2 = a.get_element_type_of_for_in(&num_ty(), 99);
    match &e2.kind {
        TypeKind::Union(ms) => assert_eq!(ms.len(), 2),
        _ => panic!("expected string | number"),
    }
}

/// The head of a `for`-in rejects destructuring; `for`-of allows it.
#[test]
fn for_head_legality() {
    let a = Analyzer::new();
    let obj_pat = Pat { kind: PatKind::Object { props: vec![] }, span: sp() };
    assert!(matches!(
        a.validate_lhs_of_for_in_of_loop_pat(&obj_pat, ForHeadKind::In),
        Err(ErrorKind::DestructuringBindingNotAllowedInLhsOfForIn { .. })
    ));
    assert!(a
        .validate_lhs_of_for_in_of_loop_pat(&obj_pat, ForHeadKind::Of { is_awaited: false })
        .is_ok());

    let call_expr = Expr { kind: ExprKind::Other, span: sp() };
    assert!(matches!(
        a.validate_lhs_of_for_in_of_loop_expr(&call_expr, ForHeadKind::In),
        Err(ErrorKind::InvalidExprOfLhsOfForIn { .. })
    ));
    assert!(matches!(
        a.validate_lhs_of_for_in_of_loop_expr(&call_expr, ForHeadKind::Of { is_awaited: false }),
        Err(ErrorKind::InvalidExprOfLhsOfForOf { .. })
    ));

    let chained = Expr {
        kind: ExprKind::OptChain(Box::new(Expr { kind: ExprKind::Ident(1), span: sp() })),
        span: sp(),
    };
    assert!(matches!(
        a.validate_lhs_of_for_in_of_loop_expr(&chained, ForHeadKind::In),
        Err(ErrorKind::InvalidRestPatternInForIn { .. })
    ));
    assert!(matches!(
        a.validate_lhs_of_for_in_of_loop_expr(&chained, ForHeadKind::Of { is_awaited: true }),
        Err(ErrorKind::InvalidRestPatternInForOf { .. })
    ));
}

/// A `for`-in assignability failure carries its dedicated error kind; a type
/// annotation on the head is reported.
#[test]
fn for_in_specific_errors() {
    let mut a = Analyzer::new();
    a.scope.insert_var(
        1,
        VarInfo {
            ty: Some(num_ty()),
            actual_ty: None,
            copied: false,
            initialized: true,
            is_actual_type_modified_in_loop: false,
        },
    );
    let pat = Pat { kind: PatKind::Ident { id: 1, has_type_ann: false }, span: sp() };
    a.validate_lhs_of_for_loop(&VarDeclOrPat::Pat(pat), &str_ty(), ForHeadKind::In);
    assert_eq!(a.storage.error_count(), 1);
    assert!(matches!(a.storage.error_at(0), ErrorKind::WrongTypeForLhsOfForInLoop { .. }));

    let decl = VarDeclOrPat::VarDecl(VarDecl {
        kind: VarDeclKind::Let,
        decls: vec![VarDeclarator {
            name: Pat { kind: PatKind::Ident { id: 2, has_type_ann: true }, span: sp() },
            span: sp(),
        }],
    });
    a.check_type_ann_on_for_lhs(&decl, ForHeadKind::In);
    assert!(matches!(a.storage.error_at(1), ErrorKind::TypeAnnOnLhsOfForInLoops { .. }));
    a.check_type_ann_on_for_lhs(&decl, ForHeadKind::Of { is_awaited: false });
    assert!(matches!(a.storage.error_at(2), ErrorKind::TypeAnnOnLhsOfForOfLoops { .. }));
}

/// Strings iterated by a plain `for`-of on an old target are reported, and
/// a literal head converts the iterator error.
#[test]
fn for_of_string_and_literal_errors() {
    let mut a = Analyzer::new();
    a.check_es3_for_of_string(sp(), &str_ty(), ForHeadKind::Of { is_awaited: false }, false);
    assert_eq!(a.storage.error_count(), 1);
    assert!(matches!(a.storage.error_at(0), ErrorKind::ForOfStringUsedInEs3 { .. }));

    let mut b = Analyzer::new();
    b.check_es3_for_of_string(sp(), &str_ty(), ForHeadKind::Of { is_awaited: false }, true);
    assert_eq!(b.storage.error_count(), 0);

    let converted = convert_for_of_iterator_error(ErrorKind::NotArrayType { span: sp() }, true);
    assert!(matches!(converted, ErrorKind::NotArrayTypeNorStringType { .. }));
    let kept = convert_for_of_iterator_error(ErrorKind::NotArrayType { span: sp() }, false);
    assert!(matches!(kept, ErrorKind::NotArrayType { .. }));
}

/// The comparator runs its check over both orders.
#[test]
fn comparator_checks_both_orders() {
    let c = Comparator { left: 3u64, right: 8u64 };
    assert!(c.both(|v: u64| v > 2));
    assert!(!c.both(|v: u64| v > 5));
    assert!(c.any(|v: u64| v > 5));
    assert!(!c.any(|v: u64| v > 9));
    let got = c.take_if_any_matches(|l: u64, r: u64| if l < r { Some(l) } else { None });
    assert_eq!(got, Some(3));
    let none = c.take_if_any_matches(|l: u64, r: u64| if l == r { Some(l) } else { None });
    assert_eq!(none, None);
}

/// Property names compare across their spellable forms by interned symbol.
#[test]
fn prop_name_equality() {
    assert!(is_prop_name_eq(&PropName::Ident(5), &PropName::Str(5)));
    assert!(is_prop_name_eq(&PropName::Str(5), &PropName::Num { value: 0, sym: 5 }));
    assert!(!is_prop_name_eq(&PropName::Ident(5), &PropName::Ident(6)));
    assert!(!is_prop_name_eq(&PropName::Computed, &PropName::Computed));
    assert!(!is_prop_name_eq(
        &PropName::Num { value: 0, sym: 5 },
        &PropName::Num { value: 0, sym: 5 },
    ));
}

/// `opt_union` passes a single side through and joins two.
#[test]
fn opt_union_behaviour() {
    assert!(opt_union(sp(), None, None).is_none());
    let only = opt_union(sp(), Some(str_ty()), None).unwrap();
    assert!(eq_type(&only, &str_ty()));
    let both = opt_union(sp(), Some(str_ty()), Some(num_ty())).unwrap();
    match &both.kind {
        TypeKind::Union(ms) => assert_eq!(ms.len(), 2),
        _ => panic!("expected a union"),
    }
}

/// Instantiation picks the first constructor's return type, interfaces fall
/// back to parents, and the static-to-instance rewrite maps a query to a
/// reference.
#[test]
fn instantiation_rules() {
    let a = Analyzer::new();
    let ctor = Type {
        kind: TypeKind::TypeLit(vec![
            TypeElement::Other,
            TypeElement::Constructor { ret: Some(Box::new(num_ty())) },
        ]),
        meta: TypeMeta::at(sp()),
    };
    let inst = a.make_instance(sp(), &ctor).unwrap();
    assert!(eq_type(&inst, &num_ty()));

    let bare = Type { kind: TypeKind::TypeLit(vec![]), meta: TypeMeta::at(sp()) };
    assert!(matches!(
        a.make_instance(sp(), &bare),
        Err(ErrorKind::NoNewSignature { .. })
    ));

    let q = Type { kind: TypeKind::Query(77), meta: TypeMeta::at(sp()) };
    let inst_ty = flow_facts::instance::make_instance_type(&q);
    assert!(matches!(inst_ty.kind, TypeKind::Ref { .. }));
}

/// The downcast pass keeps the narrowest: a duplicated wide candidate does
/// not shield itself — both copies fall to the member they extend from.
#[test]
fn downcast_drops_duplicated_supertypes() {
    let a = Analyzer::new();
    let wide1 = Type { kind: TypeKind::Class { def: 1 }, meta: TypeMeta::at(sp()) };
    let wide2 = Type { kind: TypeKind::Class { def: 1 }, meta: TypeMeta::at(sp()) };
    let narrow = Type { kind: TypeKind::Class { def: 2 }, meta: TypeMeta::at(sp()) };
    // extends(narrow, wideN) = true: the narrow member extends both copies.
    let ext = vec![
        vec![None, None, None],
        vec![None, None, None],
        vec![Some(true), Some(true), None],
    ];
    let kept = a.downcast_types(sp(), vec![wide1, wide2, narrow.clone()], &ext).unwrap();
    assert_eq!(kept.len(), 1);
    assert!(eq_type(&kept[0], &narrow));
}

/// Plain assignment through `try_assign` dispatches to the pattern engine
/// with left-side errors ignored; compound assignment checks the prior type.
#[test]
fn try_assign_dispatch_effects() {
    let mut a = Analyzer::new();
    a.scope.insert_var(
        1,
        VarInfo {
            ty: None,
            actual_ty: None,
            copied: false,
            initialized: true,
            is_actual_type_modified_in_loop: false,
        },
    );
    let pat = Pat { kind: PatKind::Ident { id: 1, has_type_ann: false }, span: sp() };
    a.try_assign(sp(), AssignOp::Assign, &PatOrExpr::Pat(Box::new(pat)), &str_ty());
    let vi = a.scope.get_var(1).unwrap();
    assert!(eq_type(vi.actual_ty.as_ref().unwrap(), &str_ty()));
    assert_eq!(a.storage.error_count(), 0);

    // An unknown plain-assignment target is tolerated (left errors ignored).
    let unknown = Pat { kind: PatKind::Ident { id: 99, has_type_ann: false }, span: sp() };
    a.try_assign(sp(), AssignOp::Assign, &PatOrExpr::Pat(Box::new(unknown)), &str_ty());
    assert_eq!(a.storage.error_count(), 0);

    // A compound operator against an incompatible prior type is reported.
    let target = Pat { kind: PatKind::Ident { id: 1, has_type_ann: false }, span: sp() };
    a.try_assign(sp(), AssignOp::OtherCompound, &PatOrExpr::Pat(Box::new(target)), &num_ty());
    assert_eq!(a.storage.error_count(), 1);
    assert!(matches!(a.storage.error_at(0), ErrorKind::AssignFailed { .. }));
}

/// Nullish assignment refines the prior type of its identifier target.
#[test]
fn nullish_assignment_refines_prior() {
    let mut a = Analyzer::new();
    let nullable = sanitize(&Type {
        kind: TypeKind::Union(vec![
            Type::keyword(KeywordKind::Str, sp()),
            Type::keyword(KeywordKind::Null, sp()),
        ]),
        meta: TypeMeta::at(sp()),
    });
    a.scope.insert_var(
        5,
        VarInfo {
            ty: Some(nullable),
            actual_ty: None,
            copied: false,
            initialized: true,
            is_actual_type_modified_in_loop: false,
        },
    );
    let lhs = PatOrExpr::Expr {
        expr: Expr { kind: ExprKind::Ident(5), span: sp() },
        lvalue_ty: None,
    };
    a.try_assign(sp(), AssignOp::NullishAssign, &lhs, &str_ty());
    let vi = a.scope.get_var(5).unwrap();
    assert!(eq_type(vi.actual_ty.as_ref().unwrap(), &str_ty()));
}

/// A failed base lookup of a deep fact is reported and the projected name
/// itself is recorded.
#[test]
fn deep_fact_reports_missing_base() {
    let mut a = Analyzer::new();
    let deep = Name::of_member(70, 71);
    a.add_deep_type_fact(sp(), deep, str_ty(), true);
    assert_eq!(a.storage.error_count(), 1);
    assert!(matches!(a.storage.error_at(0), ErrorKind::NoSuchVar { .. }));
    let key = Name::of_member(70, 71);
    assert!(a.cur_facts.true_facts.vars.get(&key).is_some());
}

/// The conditional-expression combinator: equal branches pass through, and
/// unequal branches join in a canonicalized union.
#[test]
fn conditional_branch_types_combine() {
    let a = Analyzer::new();
    let same = a.cond_type(sp(), str_ty(), str_ty(), false, &vec![], &vec![]);
    assert!(eq_type(&same, &str_ty()));

    let ext2 = vec![vec![None, None], vec![None, None]];
    let joined = a.cond_type(sp(), str_ty(), num_ty(), false, &ext2, &ext2);
    match &joined.kind {
        TypeKind::Union(ms) => assert_eq!(ms.len(), 2),
        _ => panic!("expected the union of the branches"),
    }
}

/// The head-element dispatch: for-in keys, for-of elements, and the `any`
/// fallback with its reported error.
#[test]
fn head_element_dispatch() {
    let mut a = Analyzer::new();
    let arr = Type { kind: TypeKind::Array(Box::new(num_ty())), meta: TypeMeta::at(sp()) };
    let e_in = a.element_type_for_head(sp(), &arr, ForHeadKind::In, 99, false);
    assert!(eq_type(&e_in, &Type::keyword(KeywordKind::Str, sp())));
    let e_of = a.element_type_for_head(sp(), &arr, ForHeadKind::Of { is_awaited: false }, 99, false);
    assert!(eq_type(&e_of, &num_ty()));
    assert_eq!(a.storage.error_count(), 0);

    let e_bad = a.element_type_for_head(
        sp(),
        &num_ty(),
        ForHeadKind::Of { is_awaited: false },
        99,
        true,
    );
    assert!(e_bad.is_any());
    assert_eq!(a.storage.error_count(), 1);
    assert!(matches!(a.storage.error_at(0), ErrorKind::NotArrayTypeNorStringType { .. }));
}

/// Variables are snapshotted before a loop analysis and restored after its
/// final pass.
#[test]
fn scope_snapshot_restores() {
    let mut a = Analyzer::new();
    a.scope.insert_var(
        8,
        VarInfo {
            ty: None,
            actual_ty: Some(str_ty()),
            copied: false,
            initialized: true,
            is_actual_type_modified_in_loop: false,
        },
    );
    let saved = a.scope.snapshot_vars();
    let pat = Pat { kind: PatKind::Ident { id: 8, has_type_ann: false }, span: sp() };
    let _ = a.try_assign_pat(sp(), &pat, &num_ty());
    assert!(eq_type(a.scope.get_var(8).unwrap().actual_ty.as_ref().unwrap(), &num_ty()));
    a.scope.restore_vars(saved);
    assert!(eq_type(a.scope.get_var(8).unwrap().actual_ty.as_ref().unwrap(), &str_ty()));
}

/// A default pattern assigns both the assigned type and the default's type,
/// reporting each failure without suppressing the other.
#[test]
fn default_pattern_assigns_both_paths() {
    let mut a = Analyzer::new();
    a.scope.insert_var(
        3,
        VarInfo {
            ty: Some(str_ty()),
            actual_ty: None,
            copied: false,
            initialized: true,
            is_actual_type_modified_in_loop: false,
        },
    );
    let pat = Pat {
        kind: PatKind::Assign {
            left: Box::new(Pat { kind: PatKind::Ident { id: 3, has_type_ann: false }, span: sp() }),
            default_ty: Some(num_ty()),
        },
        span: sp(),
    };
    // The assigned type fits; the default's type does not: one report, Ok.
    let r = a.try_assign_pat(sp(), &pat, &str_ty());
    assert!(r.is_ok());
    assert_eq!(a.storage.error_count(), 1);
    assert!(matches!(a.storage.error_at(0), ErrorKind::AssignFailed { .. }));
    assert!(eq_type(a.scope.get_var(3).unwrap().actual_ty.as_ref().unwrap(), &str_ty()));
}

/// A destructuring head of a `for`-of installs the element type across its
/// bindings; the head-legality report comes first.
#[test]
fn for_head_destructuring_installs() {
    let mut a = Analyzer::new();
    a.scope.insert_var(
        1,
        VarInfo {
            ty: None,
            actual_ty: None,
            copied: false,
            initialized: true,
            is_actual_type_modified_in_loop: false,
        },
    );
    let pat = Pat {
        kind: PatKind::Array {
            elems: vec![Some(Pat {
                kind: PatKind::Ident { id: 1, has_type_ann: false },
                span: sp(),
            })],
        },
        span: sp(),
    };
    let elem = sanitize(&Type {
        kind: TypeKind::Tuple(vec![Type::keyword(KeywordKind::Str, sp())]),
        meta: TypeMeta::at(sp()),
    });
    a.validate_lhs_of_for_loop(
        &VarDeclOrPat::Pat(pat),
        &elem,
        ForHeadKind::Of { is_awaited: false },
    );
    assert_eq!(a.storage.error_count(), 0);
    assert!(eq_type(
        a.scope.get_var(1).unwrap().actual_ty.as_ref().unwrap(),
        &Type::keyword(KeywordKind::Str, sp()),
    ));
}
