use vstd::prelude::*;
use crate::error::ErrorKind;
use crate::name::Id;
use crate::span::Span;
use crate::type_facts::{TypeFacts, FACT_NE_NULL, FACT_NE_UNDEFINED, FACT_TRUTHY};
use crate::types::{
    clone_type, eq_type, lemma_view_ty_list, type_eq, view_ty_list, KeywordKind, LitValue,
    TyKindV, TyV, Type, TypeElement, TypeKind, TypeMeta,
};
use crate::union::{flatten_members, umembers};

verus! {

/// Does the predicate set rule this union member out?  *Not-undefined* rules
/// out `undefined`, *not-null* rules out `null`, and *truthy* rules out
/// `null`, `undefined` and the `false` literal.
pub open spec fn fact_removes(facts: TypeFacts, m: TyV) -> bool {
    ||| (facts.spec_contains(TypeFacts { bits: FACT_NE_UNDEFINED }) && m.is_kwd(
        KeywordKind::Undefined,
    ))
    ||| (facts.spec_contains(TypeFacts { bits: FACT_NE_NULL }) && m.is_kwd(KeywordKind::Null))
    ||| (facts.spec_contains(TypeFacts { bits: FACT_TRUTHY }) && (m.is_kwd(KeywordKind::Null)
        || m.is_kwd(KeywordKind::Undefined) || m.kind matches TyKindV::Lit(LitValue::Bool(false))))
}

/// The members that survive the predicate set, in order.
pub open spec fn facts_kept(facts: TypeFacts, s: Seq<TyV>) -> Seq<TyV>
    decreases s,
{
    if s.len() == 0 {
        Seq::empty()
    } else {
        facts_kept(facts, s.drop_last()) + (if fact_removes(facts, s.last()) {
            Seq::empty()
        } else {
            seq![s.last()]
        })
    }
}

/// The value [`apply_type_facts_to_type`] yields: the union members ruled
/// out by the predicates are dropped; a type that is itself ruled out
/// becomes `never`; everything else is untouched.
pub open spec fn apply_facts_v(facts: TypeFacts, t: TyV) -> TyV {
    let kept = facts_kept(facts, umembers(t));
    if kept.len() == 0 {
        TyV { kind: TyKindV::Keyword(KeywordKind::Never), meta: t.meta }
    } else if kept.len() == 1 {
        kept[0]
    } else {
        TyV { kind: TyKindV::Union(kept), meta: t.meta }
    }
}

fn removes(facts: TypeFacts, m: &Type) -> (r: bool)
    ensures
        r == fact_removes(facts, m@),
{
    let ne_undefined = facts.contains(TypeFacts::of(FACT_NE_UNDEFINED));
    let ne_null = facts.contains(TypeFacts::of(FACT_NE_NULL));
    let truthy = facts.contains(TypeFacts::of(FACT_TRUTHY));
    let is_undef = m.is_kwd(KeywordKind::Undefined);
    let is_null = m.is_kwd(KeywordKind::Null);
    let is_false_lit = matches!(m.kind, TypeKind::Lit(LitValue::Bool(false)));
    (ne_undefined && is_undef) || (ne_null && is_null) || (truthy && (is_null || is_undef
        || is_false_lit))
}

/// Project a predicate set onto a type: drop the union members the
/// predicates rule out, collapsing to the single survivor or to `never`.
pub fn apply_type_facts_to_type(facts: TypeFacts, ty: Type) -> (r: Type)
    ensures
        r@ == apply_facts_v(facts, ty@),
{
    let ghost ms = umembers(ty@);
    let members = flatten_members(&ty);
    proof {
        lemma_view_ty_list(members@);
    }
    let mut kept: Vec<Type> = Vec::new();
    let n = members.len();
    proof {
        assert(kept@ =~= Seq::<Type>::empty());
        assert(view_ty_list(kept@) =~= facts_kept(facts, ms.take(0)));
    }
    for i in 0..n
        invariant
            n == members@.len(),
            view_ty_list(members@) == ms,
            ms.len() == n,
            forall|k: int| 0 <= k < members@.len() ==> #[trigger] members@[k]@ == ms[k],
            view_ty_list(kept@) == facts_kept(facts, ms.take(i as int)),
    {
        proof {
            assert(ms.take(i + 1).drop_last() =~= ms.take(i as int));
            assert(ms.take(i + 1).last() == ms[i as int]);
        }
        if !removes(facts, &members[i]) {
            let ghost pre = kept@;
            kept.push(clone_type(&members[i]));
            proof {
                assert(kept@.drop_last() =~= pre);
                assert(view_ty_list(kept@) =~= view_ty_list(pre).push(ms[i as int]));
                assert(facts_kept(facts, ms.take(i + 1)) =~= facts_kept(
                    facts,
                    ms.take(i as int),
                ).push(ms[i as int]));
            }
        } else {
            proof {
                assert(facts_kept(facts, ms.take(i + 1)) =~= facts_kept(facts, ms.take(i as int)));
            }
        }
    }
    proof {
        assert(ms.take(n as int) =~= ms);
        lemma_view_ty_list(kept@);
    }
    if kept.len() == 0 {
        let r = Type { kind: TypeKind::Keyword(KeywordKind::Never), meta: ty.meta() };
        r
    } else if kept.len() == 1 {
        let ghost ks = kept@;
        let mut kept = kept;
        let single = kept.pop().unwrap();
        proof {
            lemma_view_ty_list(ks);
            assert(single@ == view_ty_list(ks)[0]);
        }
        single
    } else {
        let r = Type { kind: TypeKind::Union(kept), meta: ty.meta() };
        r
    }
}

/// Turn a type into the iterator the destructuring engine walks.  The model
/// iterates tuples, arrays and `any`; everything else is not iterable.
pub fn get_iterator(span: Span, ty: &Type) -> (r: Result<Type, ErrorKind>)
    ensures
        match r {
            Ok(t) => (ty@.kind is Tuple || ty@.kind is Array || ty@.is_any()) && t@ == ty@,
            Err(e) => !(ty@.kind is Tuple || ty@.kind is Array || ty@.is_any()) && e == (
            ErrorKind::NotArrayType { span }),
        },
{
    match &ty.kind {
        TypeKind::Tuple(..) => Ok(clone_type(ty)),
        TypeKind::Array(..) => Ok(clone_type(ty)),
        TypeKind::Keyword(KeywordKind::Any) => Ok(clone_type(ty)),
        _ => Err(ErrorKind::NotArrayType { span }),
    }
}

/// The element an iterator yields at position `i`: a tuple's element there,
/// an array's element type, `any` for `any`.  Reading a tuple past its end
/// is an error.
pub fn get_element_from_iterator(span: Span, iter_ty: &Type, i: usize) -> (r: Result<
    Type,
    ErrorKind,
>)
    ensures
        match r {
            Ok(t) => match iter_ty@.kind {
                TyKindV::Tuple(elems) => i < elems.len() && t@ == elems[i as int],
                TyKindV::Array(elem) => t@ == *elem,
                TyKindV::Keyword(KeywordKind::Any) => t@ == iter_ty@,
                _ => false,
            },
            Err(e) => match iter_ty@.kind {
                TyKindV::Tuple(elems) => i >= elems.len() && e == (
                ErrorKind::TupleIndexOutOfBounds { span, index: i, len: elems.len() as usize }),
                TyKindV::Array(..) => false,
                TyKindV::Keyword(KeywordKind::Any) => false,
                _ => e == (ErrorKind::NotArrayType { span }),
            },
        },
{
    match &iter_ty.kind {
        TypeKind::Tuple(elems) => {
            proof {
                lemma_view_ty_list(elems@);
            }
            if i < elems.len() {
                Ok(clone_type(&elems[i]))
            } else {
                Err(ErrorKind::TupleIndexOutOfBounds { span, index: i, len: elems.len() })
            }
        }
        TypeKind::Array(elem) => Ok(clone_type(elem)),
        TypeKind::Keyword(KeywordKind::Any) => Ok(clone_type(iter_ty)),
        _ => Err(ErrorKind::NotArrayType { span }),
    }
}

/// The elements an iterator still yields from position `from` on: the tail
/// of a tuple, the array itself, `any` for `any`.
pub fn get_rest_elements(span: Span, iter_ty: &Type, from: usize) -> (r: Result<Type, ErrorKind>)
    ensures
        match r {
            Ok(t) => match iter_ty@.kind {
                TyKindV::Tuple(elems) => from <= elems.len() && t@ == (TyV {
                    kind: TyKindV::Tuple(elems.skip(from as int)),
                    meta: iter_ty@.meta,
                }),
                TyKindV::Array(..) => t@ == iter_ty@,
                TyKindV::Keyword(KeywordKind::Any) => t@ == iter_ty@,
                _ => false,
            },
            Err(e) => match iter_ty@.kind {
                TyKindV::Tuple(elems) => from > elems.len() && e == (
                ErrorKind::TupleIndexOutOfBounds {
                    span,
                    index: from,
                    len: elems.len() as usize,
                }),
                TyKindV::Array(..) => false,
                TyKindV::Keyword(KeywordKind::Any) => false,
                _ => e == (ErrorKind::NotArrayType { span }),
            },
        },
{
    match &iter_ty.kind {
        TypeKind::Tuple(elems) => {
            proof {
                lemma_view_ty_list(elems@);
            }
            if from <= elems.len() {
                let mut rest: Vec<Type> = Vec::new();
                let n = elems.len();
                let ghost es = view_ty_list(elems@);
                for j in from..n
                    invariant
                        n == elems@.len(),
                        from <= j <= n,
                        es == view_ty_list(elems@),
                        es.len() == n,
                        forall|k: int| 0 <= k < elems@.len() ==> #[trigger] es[k] == elems@[k]@,
                        view_ty_list(rest@) == es.subrange(from as int, j as int),
                {
                    let ghost pre = rest@;
                    rest.push(clone_type(&elems[j]));
                    proof {
                        assert(rest@.drop_last() =~= pre);
                        assert(view_ty_list(rest@) =~= es.subrange(from as int, j + 1));
                    }
                }
                proof {
                    assert(es.subrange(from as int, n as int) =~= es.skip(from as int));
                }
                Ok(Type { kind: TypeKind::Tuple(rest), meta: iter_ty.meta() })
            } else {
                Err(ErrorKind::TupleIndexOutOfBounds { span, index: from, len: elems.len() })
            }
        }
        TypeKind::Array(..) => Ok(clone_type(iter_ty)),
        TypeKind::Keyword(KeywordKind::Any) => Ok(clone_type(iter_ty)),
        _ => Err(ErrorKind::NotArrayType { span }),
    }
}

/// The property type `key` names on `t`: the first matching member of a type
/// literal, or of an interface's body and then its parents, in order; `any`
/// on `any`.
pub open spec fn access_property_v(t: TyV, key: Id) -> Option<TyV>
    decreases t,
{
    match t.kind {
        TyKindV::Keyword(KeywordKind::Any) => Some(t),
        TyKindV::TypeLit(members) => first_property(members, key),
        TyKindV::Interface { name, body, parents } => match first_property(body, key) {
            Some(p) => Some(p),
            None => first_parent_property(parents, key),
        },
        _ => None,
    }
}

pub open spec fn first_property(members: Seq<crate::types::ElemV>, key: Id) -> Option<TyV>
    decreases members,
{
    if members.len() == 0 {
        None
    } else {
        match members[0] {
            crate::types::ElemV::Property { key: k, ty } => if k == key {
                Some(ty)
            } else {
                first_property(members.drop_first(), key)
            },
            _ => first_property(members.drop_first(), key),
        }
    }
}

pub open spec fn first_parent_property(parents: Seq<TyV>, key: Id) -> Option<TyV>
    decreases parents,
{
    if parents.len() == 0 {
        None
    } else {
        match access_property_v(parents[0], key) {
            Some(p) => Some(p),
            None => first_parent_property(parents.drop_first(), key),
        }
    }
}

/// Look a member up on a concrete object type.  The model resolves members
/// on type literals, interfaces (body, then parents in order) and `any`;
/// anything else has no such property.
pub fn access_property(span: Span, ty: &Type, key: Id) -> (r: Result<Type, ErrorKind>)
    ensures
        match r {
            Ok(t) => access_property_v(ty@, key) == Some(t@),
            Err(e) => access_property_v(ty@, key) is None && e == (ErrorKind::NoSuchProperty {
                span,
                prop: key,
            }),
        },
    decreases *ty,
{
    match &ty.kind {
        TypeKind::Keyword(KeywordKind::Any) => Ok(clone_type(ty)),
        TypeKind::TypeLit(members) => {
            proof {
                assert(ty@.kind == TyKindV::TypeLit(crate::types::view_elem_list(members@)));
            }
            match find_property(ty, members, key) {
                Some(t) => Ok(t),
                None => Err(ErrorKind::NoSuchProperty { span, prop: key }),
            }
        }
        TypeKind::Interface { name, body, parents } => {
            proof {
                assert(ty@.kind == TyKindV::Interface {
                    name: *name,
                    body: crate::types::view_elem_list(body@),
                    parents: view_ty_list(parents@),
                });
            }
            match find_property(ty, body, key) {
                Some(t) => {
                    proof {
                        assert(access_property_v(ty@, key) == Some(t@));
                    }
                    return Ok(t);
                }
                None => {}
            }
            let n = parents.len();
            proof {
                crate::types::lemma_view_ty_list(parents@);
                assert(view_ty_list(parents@).skip(0) =~= view_ty_list(parents@));
            }
            let ghost ps = view_ty_list(parents@);
            for j in 0..n
                invariant
                    n == parents@.len(),
                    ps == view_ty_list(parents@),
                    ps.len() == n,
                    forall|k: int| 0 <= k < parents@.len() ==> #[trigger] ps[k] == parents@[k]@,
                    forall|k: int| 0 <= k < parents@.len() ==> decreases_to!(*ty => parents@[k]),
                    ty@.kind == (TyKindV::Interface {
                        name: *name,
                        body: crate::types::view_elem_list(body@),
                        parents: view_ty_list(parents@),
                    }),
                    first_property(crate::types::view_elem_list(body@), key) is None,
                    first_parent_property(ps, key) == first_parent_property(
                        ps.skip(j as int),
                        key,
                    ),
            {
                proof {
                    assert(ps.skip(j as int)[0] == ps[j as int]);
                    assert(ps.skip(j as int).drop_first() =~= ps.skip(j + 1));
                }
                match access_property(span, &parents[j], key) {
                    Ok(t) => {
                        proof {
                            assert(ps.skip(j as int)[0] == parents@[j as int]@);
                            assert(first_parent_property(ps.skip(j as int), key) == Some(t@));
                            assert(access_property_v(ty@, key) == Some(t@));
                        }
                        return Ok(t);
                    }
                    Err(_) => {}
                }
            }
            proof {
                assert(ps.skip(n as int) =~= Seq::<TyV>::empty());
            }
            Err(ErrorKind::NoSuchProperty { span, prop: key })
        }
        _ => Err(ErrorKind::NoSuchProperty { span, prop: key }),
    }
}

fn find_property(owner: &Type, members: &Vec<TypeElement>, key: Id) -> (r: Option<Type>)
    requires
        forall|i: int| 0 <= i < members@.len() ==> decreases_to!(*owner => members@[i]),
    ensures
        match r {
            Some(t) => first_property(crate::types::view_elem_list(members@), key) == Some(t@),
            None => first_property(crate::types::view_elem_list(members@), key) is None,
        },
    decreases *owner,
{
    let n = members.len();
    let ghost ms = crate::types::view_elem_list(members@);
    proof {
        crate::types::lemma_view_elem_list(members@);
        assert(ms.skip(0) =~= ms);
    }
    for i in 0..n
        invariant
            n == members@.len(),
            ms == crate::types::view_elem_list(members@),
            ms.len() == n,
            forall|k: int| 0 <= k < members@.len() ==> #[trigger] ms[k] == members@[k]@,
            forall|k: int| 0 <= k < members@.len() ==> decreases_to!(*owner => members@[k]),
            first_property(ms, key) == first_property(ms.skip(i as int), key),
    {
        proof {
            assert(ms.skip(i as int)[0] == ms[i as int]);
            assert(ms.skip(i as int).drop_first() =~= ms.skip(i + 1));
        }
        match &members[i] {
            TypeElement::Property { key: k, ty } => {
                if *k == key {
                    return Some(clone_type(ty));
                }
            }
            _ => {}
        }
    }
    proof {
        assert(ms.skip(n as int) =~= Seq::<crate::types::ElemV>::empty());
    }
    None
}

/// A single member fits a single expected member: equal structure, `any` on
/// either side, `never`, `null` or `undefined` on the right (the model
/// treats the two bottom-ish values as assignable everywhere, so the
/// narrowing guard, not the assignability gate, decides what they do), or a
/// literal against its keyword.
pub open spec fn base_fit(l: TyV, r: TyV) -> bool {
    ||| type_eq(l, r)
    ||| l.is_any()
    ||| r.is_any()
    ||| r.is_never()
    ||| r.is_kwd(KeywordKind::Null)
    ||| r.is_kwd(KeywordKind::Undefined)
    ||| (l.is_kwd(KeywordKind::Str) && r.kind matches TyKindV::Lit(LitValue::Str(..)))
    ||| (l.is_kwd(KeywordKind::Num) && r.kind matches TyKindV::Lit(LitValue::Num(..)))
    ||| (l.is_kwd(KeywordKind::Bool) && r.kind matches TyKindV::Lit(LitValue::Bool(..)))
}

/// Some member of the left side accepts `m`.
pub open spec fn member_fits(l: TyV, m: TyV) -> bool {
    exists|j: int| 0 <= j < umembers(l).len() && base_fit(#[trigger] umembers(l)[j], m)
}

/// The model's assignability: every member of the right side fits some
/// member of the left side.
pub open spec fn assignable(l: TyV, r: TyV) -> bool {
    forall|i: int| 0 <= i < umembers(r).len() ==> member_fits(l, #[trigger] umembers(r)[i])
}

fn exec_base_fit(l: &Type, r: &Type) -> (res: bool)
    ensures
        res == base_fit(l@, r@),
{
    if eq_type(l, r) {
        return true;
    }
    if l.is_any() || r.is_any() || r.is_never() || r.is_kwd(KeywordKind::Null) || r.is_kwd(
        KeywordKind::Undefined,
    ) {
        return true;
    }
    let lit_fit = match (&l.kind, &r.kind) {
        (TypeKind::Keyword(KeywordKind::Str), TypeKind::Lit(LitValue::Str(..))) => true,
        (TypeKind::Keyword(KeywordKind::Num), TypeKind::Lit(LitValue::Num(..))) => true,
        (TypeKind::Keyword(KeywordKind::Bool), TypeKind::Lit(LitValue::Bool(..))) => true,
        _ => false,
    };
    lit_fit
}

/// Decide [`assignable`].
pub fn is_assignable(l: &Type, r: &Type) -> (res: bool)
    ensures
        res == assignable(l@, r@),
{
    let lms = flatten_members(l);
    let rms = flatten_members(r);
    proof {
        lemma_view_ty_list(lms@);
        lemma_view_ty_list(rms@);
    }
    let nr = rms.len();
    let nl = lms.len();
    for i in 0..nr
        invariant
            nr == rms@.len(),
            nl == lms@.len(),
            view_ty_list(rms@) == umembers(r@),
            view_ty_list(lms@) == umembers(l@),
            view_ty_list(rms@).len() == nr,
            view_ty_list(lms@).len() == nl,
            forall|k: int| 0 <= k < rms@.len() ==> #[trigger] view_ty_list(rms@)[k] == rms@[k]@,
            forall|k: int| 0 <= k < lms@.len() ==> #[trigger] view_ty_list(lms@)[k] == lms@[k]@,
            forall|k: int| 0 <= k < i ==> member_fits(l@, #[trigger] umembers(r@)[k]),
    {
        let mut found = false;
        for j in 0..nl
            invariant
                nr == rms@.len(),
                nl == lms@.len(),
                i < nr,
                view_ty_list(rms@) == umembers(r@),
                view_ty_list(lms@) == umembers(l@),
                view_ty_list(rms@).len() == nr,
                view_ty_list(lms@).len() == nl,
                forall|k: int| 0 <= k < rms@.len() ==> #[trigger] view_ty_list(rms@)[k] == rms@[k]@,
                forall|k: int| 0 <= k < lms@.len() ==> #[trigger] view_ty_list(lms@)[k] == lms@[k]@,
                found ==> member_fits(l@, umembers(r@)[i as int]),
                !found ==> forall|q: int|
                    0 <= q < j ==> !base_fit(#[trigger] umembers(l@)[q], umembers(r@)[i as int]),
        {
            if !found && exec_base_fit(&lms[j], &rms[i]) {
                found = true;
                proof {
                    assert(base_fit(umembers(l@)[j as int], umembers(r@)[i as int]));
                    assert(member_fits(l@, umembers(r@)[i as int]));
                }
            }
        }
        if !found {
            proof {
                assert(!member_fits(l@, umembers(r@)[i as int]));
                assert(!assignable(l@, r@));
            }
            return false;
        }
        proof {
            assert forall|k: int|
                0 <= k < i + 1 implies member_fits(l@, #[trigger] umembers(r@)[k]) by {}
        }
    }
    proof {
        assert(assignable(l@, r@));
    }
    true
}

/// The plain assignability check: `Ok` exactly when the right type is
/// assignable to the left.
pub fn assign(span: Span, l: &Type, r: &Type) -> (res: Result<(), ErrorKind>)
    ensures
        match res {
            Ok(()) => assignable(l@, r@),
            Err(e) => !assignable(l@, r@) && e == (ErrorKind::AssignFailed { span }),
        },
{
    if is_assignable(l, r) {
        Ok(())
    } else {
        Err(ErrorKind::AssignFailed { span })
    }
}

/// The compound-assignment check.  The model applies the plain rule for
/// every compound operator.
pub fn assign_with_op(span: Span, op: crate::ast::AssignOp, l: &Type, r: &Type) -> (res: Result<
    (),
    ErrorKind,
>)
    ensures
        match res {
            Ok(()) => assignable(l@, r@),
            Err(e) => !assignable(l@, r@) && e == (ErrorKind::AssignFailed { span }),
        },
{
    assign(span, l, r)
}

/// The narrowed actual type an assignment installs.  In the model the
/// assigned type itself is the narrowing; the declared type only gates
/// assignability.
pub fn narrowed_type_of_assignment(span: Span, declared: &Type, ty: &Type) -> (r: Type)
    ensures
        r@ == ty@,
{
    clone_type(ty)
}

/// The same type value with the top node marked cheap to clone.
pub open spec fn frozen_top(t: TyV) -> TyV {
    TyV {
        kind: t.kind,
        meta: TypeMeta {
            span: t.meta.span,
            frozen: true,
            prevent_converting_to_children: t.meta.prevent_converting_to_children,
        },
    }
}

/// Each member frozen, in order.
pub open spec fn frozen_list(s: Seq<TyV>) -> Seq<TyV>
    decreases s,
{
    if s.len() == 0 {
        Seq::empty()
    } else {
        frozen_list(s.drop_last()).push(frozen_top(s.last()))
    }
}

pub proof fn lemma_frozen_list(s: Seq<TyV>)
    ensures
        frozen_list(s).len() == s.len(),
        forall|i: int| 0 <= i < s.len() ==> #[trigger] frozen_list(s)[i] == frozen_top(s[i]),
    decreases s,
{
    if s.len() > 0 {
        lemma_frozen_list(s.drop_last());
        assert(forall|i: int| 0 <= i < s.len() - 1 ==> s.drop_last()[i] == #[trigger] s[i]);
    }
}

/// The value [`sanitize`] yields: the union spine flattened and every member
/// frozen, an empty spine collapsing to `never` and a singleton to its only
/// member.
pub open spec fn sanitized_v(t: TyV) -> TyV {
    let ms = frozen_list(umembers(t));
    if ms.len() == 0 {
        TyV {
            kind: TyKindV::Keyword(KeywordKind::Never),
            meta: TypeMeta {
                span: t.meta.span,
                frozen: true,
                prevent_converting_to_children: t.meta.prevent_converting_to_children,
            },
        }
    } else if ms.len() == 1 {
        ms[0]
    } else {
        TyV {
            kind: TyKindV::Union(ms),
            meta: TypeMeta {
                span: t.meta.span,
                frozen: true,
                prevent_converting_to_children: t.meta.prevent_converting_to_children,
            },
        }
    }
}

/// A sanitized value is always fit to store.
pub proof fn lemma_sanitized_stored(t: TyV)
    ensures
        crate::cond_facts::stored_ok(sanitized_v(t)),
{
    crate::union::lemma_umembers_not_union(t);
    lemma_frozen_list(umembers(t));
    let ms = frozen_list(umembers(t));
    let r = sanitized_v(t);
    assert forall|i: int| 0 <= i < ms.len() implies !(#[trigger] ms[i]).is_union()
        && ms[i].is_clone_cheap() by {
        assert(ms[i] == frozen_top(umembers(t)[i]));
    }
    if ms.len() >= 2 {
        assert(crate::types::valid(r)) by {
            assert(forall|i: int| 0 <= i < ms.len() ==> crate::types::valid(#[trigger] ms[i]));
        }
        crate::union::lemma_umembers_list_flat(ms);
        assert(umembers(r) == ms);
    }
}

/// Canonicalize a projected type before it flows on: flatten its union
/// spine and mark every member cheap to clone.
pub fn sanitize(t: &Type) -> (r: Type)
    ensures
        r@ == sanitized_v(t@),
        crate::cond_facts::stored_ok(r@),
{
    proof {
        lemma_sanitized_stored(t@);
    }
    let members = flatten_members(t);
    proof {
        lemma_view_ty_list(members@);
        lemma_frozen_list(umembers(t@));
    }
    let ghost ms = frozen_list(umembers(t@));
    let mut frozen: Vec<Type> = Vec::new();
    let n = members.len();
    for i in 0..n
        invariant
            n == members@.len(),
            view_ty_list(members@) == umembers(t@),
            view_ty_list(members@).len() == n,
            ms == frozen_list(umembers(t@)),
            ms.len() == n,
            forall|k: int| 0 <= k < n ==> #[trigger] ms[k] == frozen_top(umembers(t@)[k]),
            forall|k: int| 0 <= k < members@.len() ==> #[trigger] members@[k]@ == umembers(t@)[k],
            frozen@.len() == i,
            forall|k: int| 0 <= k < i ==> (#[trigger] frozen@[k])@ == ms[k],
    {
        let m = clone_type(&members[i]).freezed();
        proof {
            assert(m@ == frozen_top(umembers(t@)[i as int]));
        }
        frozen.push(m);
    }
    proof {
        lemma_view_ty_list(frozen@);
        assert(view_ty_list(frozen@) =~= ms);
    }
    if frozen.len() == 0 {
        let meta = TypeMeta {
            span: t.meta.span,
            frozen: true,
            prevent_converting_to_children: t.meta.prevent_converting_to_children,
        };
        Type { kind: TypeKind::Keyword(KeywordKind::Never), meta }
    } else if frozen.len() == 1 {
        let mut frozen = frozen;
        let single = frozen.pop().unwrap();
        proof {
            assert(single@ == ms[0]);
        }
        single
    } else {
        let meta = TypeMeta {
            span: t.meta.span,
            frozen: true,
            prevent_converting_to_children: t.meta.prevent_converting_to_children,
        };
        Type { kind: TypeKind::Union(frozen), meta }
    }
}

/// Applying facts to a stored value and freezing the result keeps it fit to
/// store.
pub proof fn lemma_apply_facts_stored(facts: TypeFacts, t: TyV)
    requires
        crate::cond_facts::stored_ok(t),
    ensures
        crate::cond_facts::stored_ok(frozen_top(apply_facts_v(facts, t))),
{
    crate::union::lemma_umembers_not_union(t);
    crate::union::lemma_cheap_stored_members(t);
    lemma_facts_kept_elements(facts, umembers(t));
    let kept = facts_kept(facts, umembers(t));
    let r = frozen_top(apply_facts_v(facts, t));
    assert forall|i: int| 0 <= i < kept.len() implies !(#[trigger] kept[i]).is_union()
        && kept[i].is_clone_cheap() by {
        let j = choose|j: int| 0 <= j < umembers(t).len() && kept[i] == umembers(t)[j];
        assert(!umembers(t)[j].is_union() && umembers(t)[j].is_clone_cheap());
    }
    if kept.len() >= 2 {
        assert(crate::types::valid(r)) by {
            assert(forall|i: int| 0 <= i < kept.len() ==> crate::types::valid(#[trigger] kept[i]));
        }
        crate::union::lemma_umembers_list_flat(kept);
        assert(umembers(r) == kept);
    }
}

/// Every kept member is one of the original members.
pub proof fn lemma_facts_kept_elements(facts: TypeFacts, s: Seq<TyV>)
    ensures
        forall|i: int|
            0 <= i < facts_kept(facts, s).len() ==> exists|j: int|
                0 <= j < s.len() && #[trigger] facts_kept(facts, s)[i] == s[j],
    decreases s,
{
    if s.len() > 0 {
        lemma_facts_kept_elements(facts, s.drop_last());
        let k = facts_kept(facts, s);
        let kd = facts_kept(facts, s.drop_last());
        assert forall|i: int|
            0 <= i < k.len() implies exists|j: int| 0 <= j < s.len() && #[trigger] k[i] == s[j] by {
            if i < kd.len() {
                assert(k[i] == kd[i]);
                let j = choose|j: int| 0 <= j < s.drop_last().len() && kd[i] == s.drop_last()[j];
                assert(k[i] == s[j]);
            } else {
                assert(k[i] == s.last());
                assert(k[i] == s[s.len() - 1]);
            }
        }
    }
}


} // verus!
