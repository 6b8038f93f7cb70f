use flow_facts::analyzer::Analyzer;
use flow_facts::assign::PatAssignOpts;
use flow_facts::ast::{AssignOp, Expr, ExprKind, ObjectPatProp, Pat, PatKind, PatOrExpr, PropName};
use flow_facts::error::ErrorKind;
use flow_facts::scope::VarInfo;
use flow_facts::span::Span;
use flow_facts::type_facts::{TypeFacts, FACT_NE_NULL, FACT_NE_UNDEFINED_OR_NULL};
use flow_facts::typeops::{
    access_property, apply_type_facts_to_type, assign, get_element_from_iterator, get_iterator,
    get_rest_elements, is_assignable, sanitize,
};
use flow_facts::types::{
    clone_type, eq_type, KeywordKind, LitValue, Type, TypeElement, TypeKind, TypeMeta,
};

fn sp() -> Span {
    Span::new(3, 4)
}

fn str_ty() -> Type {
    Type::keyword(KeywordKind::Str, sp()).freezed()
}

fn num_ty() -> Type {
    Type::keyword(KeywordKind::Num, sp()).freezed()
}

fn null_ty() -> Type {
    Type::keyword(KeywordKind::Null, sp()).freezed()
}

fn union2(a: Type, b: Type) -> Type {
    let t = Type { kind: TypeKind::Union(vec![a, b]), meta: TypeMeta::at(sp()) };
    sanitize(&t)
}

fn tuple2(a: Type, b: Type) -> Type {
    Type { kind: TypeKind::Tuple(vec![a, b]), meta: TypeMeta::at(sp()) }.freezed()
}

fn plain_var(declared: Option<Type>) -> VarInfo {
    VarInfo {
        ty: declared,
        actual_ty: None,
        copied: false,
        initialized: true,
        is_actual_type_modified_in_loop: false,
    }
}

fn ident_pat(id: u64) -> Pat {
    Pat { kind: PatKind::Ident { id, has_type_ann: false }, span: sp() }
}

/// Stripping `null` and `undefined` from a union keeps the rest.
#[test]
fn apply_facts_strips_null() {
    let u = union2(str_ty(), null_ty());
    let narrowed = apply_type_facts_to_type(TypeFacts::of(FACT_NE_NULL), u);
    assert!(eq_type(&narrowed, &Type::keyword(KeywordKind::Str, sp())));
}

/// A type every member of which is removed collapses to `never`.
#[test]
fn apply_facts_to_never() {
    let narrowed = apply_type_facts_to_type(
        TypeFacts::of(FACT_NE_UNDEFINED_OR_NULL),
        null_ty(),
    );
    assert!(narrowed.is_never());
}

/// Assigning `string | null` to a variable declared `string | null`
/// narrows its actual type to `string`: the guard strips `null`.
#[test]
fn ident_assignment_narrows_nullable() {
    let mut a = Analyzer::new();
    let declared = union2(str_ty(), null_ty());
    a.scope.insert_var(1, plain_var(Some(declared)));

    let rhs = union2(str_ty(), null_ty());
    let r = a.try_assign_pat(sp(), &ident_pat(1), &rhs);
    assert!(r.is_ok());
    let vi = a.scope.get_var(1).unwrap();
    let actual = vi.actual_ty.as_ref().expect("actual type must be installed");
    assert!(eq_type(actual, &str_ty()));
}

/// Destructuring a tuple installs each element on its binding.
#[test]
fn tuple_destructuring_installs_elements() {
    let mut a = Analyzer::new();
    a.scope.insert_var(1, plain_var(None));
    a.scope.insert_var(2, plain_var(None));

    let pat = Pat {
        kind: PatKind::Array {
            elems: vec![Some(ident_pat(1)), Some(ident_pat(2))],
        },
        span: sp(),
    };
    let t = tuple2(str_ty(), num_ty());
    let r = a.try_assign_pat(sp(), &pat, &t);
    assert!(r.is_ok());
    let s_actual = a.scope.get_var(1).unwrap().actual_ty.as_ref().unwrap().clone();
    let n_actual = a.scope.get_var(2).unwrap().actual_ty.as_ref().unwrap().clone();
    assert!(eq_type(&s_actual, &str_ty()));
    assert!(eq_type(&n_actual, &num_ty()));
}

/// An unknown assignment target is an error, unless errors on the left are
/// ignored.
#[test]
fn unknown_target_is_undefined_symbol() {
    let mut a = Analyzer::new();
    let r = a.try_assign_pat(sp(), &ident_pat(9), &str_ty());
    assert!(matches!(r, Err(ErrorKind::UndefinedSymbol { .. })));

    let opts = PatAssignOpts { ignore_lhs_errors: true, allow_iterable_on_rhs: false };
    let r2 = a.try_assign_pat_with_opts(sp(), &ident_pat(9), &str_ty(), opts);
    assert!(r2.is_ok());
}

/// A declared type that rejects the assigned type stops the recursion.
#[test]
fn incompatible_declared_type_fails() {
    let mut a = Analyzer::new();
    a.scope.insert_var(1, plain_var(Some(str_ty())));
    let r = a.try_assign_pat(sp(), &ident_pat(1), &num_ty());
    assert!(matches!(r, Err(ErrorKind::AssignFailed { .. })));
}

/// An assignment to a parent-scope variable installs a shadowing copy.
#[test]
fn parent_variable_is_copied() {
    let mut a = Analyzer::new();
    a.scope.insert_var(1, plain_var(None));
    let root = std::mem::replace(&mut a.scope, flow_facts::scope::Scope::root());
    a.scope = root.child_of(false);

    let r = a.try_assign_pat(sp(), &ident_pat(1), &str_ty());
    assert!(r.is_ok());
    let vi = a.scope.get_var(1).expect("copy must land in the child scope");
    assert!(vi.copied);
    assert!(eq_type(vi.actual_ty.as_ref().unwrap(), &str_ty()));
}

/// A literal as assignment target is reported, not fatal.
#[test]
fn literal_target_reports() {
    let mut a = Analyzer::new();
    let pat = Pat {
        kind: PatKind::Expr {
            expr: Expr { kind: ExprKind::Lit(LitValue::Num(3)), span: sp() },
            lvalue_ty: None,
        },
        span: sp(),
    };
    let r = a.try_assign_pat(sp(), &pat, &str_ty());
    assert!(r.is_ok());
    assert_eq!(a.storage.error_count(), 1);
    assert!(matches!(a.storage.error_at(0), ErrorKind::InvalidLhsOfAssign { .. }));
}

/// A compound operator needs an identifier or expression target.
#[test]
fn compound_on_pattern_reports_invalid_operator() {
    let mut a = Analyzer::new();
    let pat = Pat { kind: PatKind::Array { elems: vec![] }, span: sp() };
    a.try_assign(
        sp(),
        AssignOp::OtherCompound,
        &PatOrExpr::Pat(Box::new(pat)),
        &str_ty(),
    );
    assert_eq!(a.storage.error_count(), 1);
    assert!(matches!(a.storage.error_at(0), ErrorKind::InvalidOperatorForLhs { .. }));
}

/// The model's assignability: literals fit their keyword, unions memberwise.
#[test]
fn assignability_rules() {
    let str_lit = Type { kind: TypeKind::Lit(LitValue::Str(5)), meta: TypeMeta::at(sp()) };
    assert!(is_assignable(&str_ty(), &str_lit));
    assert!(!is_assignable(&str_ty(), &num_ty()));
    assert!(is_assignable(&union2(str_ty(), num_ty()), &num_ty()));
    assert!(matches!(
        assign(sp(), &str_ty(), &num_ty()),
        Err(ErrorKind::AssignFailed { .. })
    ));
}

/// The iterator protocol of the model: tuples index exactly, arrays repeat
/// their element, and a tuple read past its end is an error.
#[test]
fn iterator_projections() {
    let t = tuple2(str_ty(), num_ty());
    let it = get_iterator(sp(), &t).unwrap();
    let e0 = get_element_from_iterator(sp(), &it, 0).unwrap();
    let e1 = get_element_from_iterator(sp(), &it, 1).unwrap();
    assert!(eq_type(&e0, &str_ty()));
    assert!(eq_type(&e1, &num_ty()));
    assert!(matches!(
        get_element_from_iterator(sp(), &it, 2),
        Err(ErrorKind::TupleIndexOutOfBounds { .. })
    ));
    let rest = get_rest_elements(sp(), &it, 1).unwrap();
    match &rest.kind {
        TypeKind::Tuple(elems) => assert_eq!(elems.len(), 1),
        _ => panic!("rest of a tuple is a tuple"),
    }
    assert!(matches!(
        get_iterator(sp(), &str_ty()),
        Err(ErrorKind::NotArrayType { .. })
    ));
}

/// Member lookup on the model's object types.
#[test]
fn property_access() {
    let obj = Type {
        kind: TypeKind::TypeLit(vec![TypeElement::Property { key: 4, ty: num_ty() }]),
        meta: TypeMeta::at(sp()),
    };
    let got = access_property(sp(), &obj, 4).unwrap();
    assert!(eq_type(&got, &num_ty()));
    assert!(matches!(
        access_property(sp(), &obj, 5),
        Err(ErrorKind::NoSuchProperty { .. })
    ));

    let iface = Type {
        kind: TypeKind::Interface { name: 9, body: vec![], parents: vec![clone_type(&obj)] },
        meta: TypeMeta::at(sp()),
    };
    let via_parent = access_property(sp(), &iface, 4).unwrap();
    assert!(eq_type(&via_parent, &num_ty()));
}

/// Sanitizing flattens nested unions and freezes every member.
#[test]
fn sanitize_flattens() {
    let inner = Type {
        kind: TypeKind::Union(vec![
            Type::keyword(KeywordKind::Str, sp()),
            Type::keyword(KeywordKind::Num, sp()),
        ]),
        meta: TypeMeta::at(sp()),
    };
    let outer = Type {
        kind: TypeKind::Union(vec![inner, Type::keyword(KeywordKind::Bool, sp())]),
        meta: TypeMeta::at(sp()),
    };
    let s = sanitize(&outer);
    match &s.kind {
        TypeKind::Union(ms) => {
            assert_eq!(ms.len(), 3);
            for m in ms {
                assert!(m.meta().frozen);
                assert!(!m.is_union());
            }
        }
        _ => panic!("expected a union"),
    }
}

/// Object destructuring installs each property's member type on its
/// binding: shorthand and keyed identifier patterns alike, with `any` for a
/// missing member.
#[test]
fn object_destructuring_installs_members() {
    let mut a = Analyzer::new();
    a.scope.insert_var(1, plain_var(None));
    a.scope.insert_var(2, plain_var(None));
    a.scope.insert_var(3, plain_var(None));

    let obj_ty = Type {
        kind: TypeKind::TypeLit(vec![
            TypeElement::Property { key: 10, ty: str_ty() },
            TypeElement::Property { key: 11, ty: num_ty() },
        ]),
        meta: TypeMeta::at(sp()),
    };
    let pat = Pat {
        kind: PatKind::Object {
            props: vec![
                ObjectPatProp::KeyValue {
                    key: PropName::Ident(10),
                    value: Box::new(ident_pat(1)),
                },
                ObjectPatProp::Assign { key_id: 11, key_span: sp() },
                ObjectPatProp::Assign { key_id: 3, key_span: sp() },
            ],
        },
        span: sp(),
    };
    // The shorthand `11` finds no variable named 11; left errors ignored.
    let opts = PatAssignOpts { ignore_lhs_errors: true, allow_iterable_on_rhs: false };
    let r = a.try_assign_pat_with_opts(sp(), &pat, &obj_ty, opts);
    assert!(r.is_ok());
    assert!(eq_type(a.scope.get_var(1).unwrap().actual_ty.as_ref().unwrap(), &str_ty()));
    // `3` is bound but the object has no member `3`: it receives `any`.
    assert!(a.scope.get_var(3).unwrap().actual_ty.as_ref().unwrap().is_any());
}

/// Rest properties of an object pattern report per their argument's shape
/// and the other properties still process.
#[test]
fn object_rest_property_reports() {
    let mut a = Analyzer::new();
    a.scope.insert_var(1, plain_var(None));
    let obj_ty = Type {
        kind: TypeKind::TypeLit(vec![TypeElement::Property { key: 10, ty: str_ty() }]),
        meta: TypeMeta::at(sp()),
    };
    let pat = Pat {
        kind: PatKind::Object {
            props: vec![
                ObjectPatProp::Rest {
                    arg: Box::new(Pat { kind: PatKind::Object { props: vec![] }, span: sp() }),
                    has_type_ann: false,
                    span: sp(),
                },
                ObjectPatProp::KeyValue {
                    key: PropName::Ident(10),
                    value: Box::new(ident_pat(1)),
                },
            ],
        },
        span: sp(),
    };
    let r = a.try_assign_pat(sp(), &pat, &obj_ty);
    assert!(r.is_ok());
    assert_eq!(a.storage.error_count(), 1);
    assert!(matches!(
        a.storage.error_at(0),
        ErrorKind::BindingPatNotAllowedInRestPatArg { .. }
    ));
    assert!(eq_type(a.scope.get_var(1).unwrap().actual_ty.as_ref().unwrap(), &str_ty()));

    // An array argument earns the extra not-an-array report first.
    let mut b = Analyzer::new();
    let pat2 = Pat {
        kind: PatKind::Object {
            props: vec![ObjectPatProp::Rest {
                arg: Box::new(Pat { kind: PatKind::Array { elems: vec![] }, span: sp() }),
                has_type_ann: false,
                span: sp(),
            }],
        },
        span: sp(),
    };
    let obj_ty2 = Type { kind: TypeKind::TypeLit(vec![]), meta: TypeMeta::at(sp()) };
    let r2 = b.try_assign_pat(sp(), &pat2, &obj_ty2);
    assert!(r2.is_ok());
    assert_eq!(b.storage.error_count(), 2);
    assert!(matches!(b.storage.error_at(0), ErrorKind::NotArrayType { .. }));
    assert!(matches!(
        b.storage.error_at(1),
        ErrorKind::BindingPatNotAllowedInRestPatArg { .. }
    ));
}

/// A trailing rest element receives the iterator's remaining tail.
#[test]
fn array_rest_element_receives_tail() {
    let mut a = Analyzer::new();
    a.scope.insert_var(1, plain_var(None));
    a.scope.insert_var(2, plain_var(None));
    let t = Type {
        kind: TypeKind::Tuple(vec![
            Type::keyword(KeywordKind::Str, sp()),
            Type::keyword(KeywordKind::Num, sp()),
            Type::keyword(KeywordKind::Bool, sp()),
        ]),
        meta: TypeMeta::at(sp()),
    }
    .freezed();
    let rest = Pat {
        kind: PatKind::Rest { arg: Box::new(ident_pat(2)), has_type_ann: false },
        span: sp(),
    };
    let pat = Pat {
        kind: PatKind::Array { elems: vec![Some(ident_pat(1)), Some(rest)] },
        span: sp(),
    };
    let r = a.try_assign_pat(sp(), &pat, &t);
    assert!(r.is_ok());
    assert!(eq_type(
        a.scope.get_var(1).unwrap().actual_ty.as_ref().unwrap(),
        &str_ty(),
    ));
    let tail = a.scope.get_var(2).unwrap().actual_ty.as_ref().unwrap().clone();
    match &tail.kind {
        TypeKind::Tuple(elems) => assert_eq!(elems.len(), 2),
        _ => panic!("the rest binding receives the remaining tuple"),
    }
}
