use vstd::prelude::*;
use crate::analyzer::Analyzer;
use crate::error::ErrorKind;
use crate::span::Span;
use crate::types::{
    clone_type, lemma_view_elem_list, lemma_view_ty_list, view_elem_list, view_ty_list, ElemV,
    KeywordKind, TyKindV, TyV, Type, TypeElement, TypeKind,
};

verus! {

/// The return type of the first constructor member, if any.
pub open spec fn first_constructor_ret(members: Seq<ElemV>) -> Option<TyV>
    decreases members,
{
    if members.len() == 0 {
        None
    } else {
        match members[0] {
            ElemV::Constructor { ret } => match ret {
                Some(t) => Some(*t),
                None => first_constructor_ret(members.drop_first()),
            },
            _ => first_constructor_ret(members.drop_first()),
        }
    }
}

/// The instance a `new` produces, if any: `any`, `null`, `undefined` and
/// unresolved references instantiate to themselves; a type literal through
/// its first constructor; an interface through its body's first constructor,
/// else the first of its parents that instantiates; a class definition to
/// the class instance type.
pub open spec fn make_instance_v(t: TyV, span: Span) -> Option<TyV>
    decreases t,
{
    if t.is_any() || t.is_kwd(KeywordKind::Null) || t.is_kwd(KeywordKind::Undefined) {
        Some(t)
    } else {
        match t.kind {
            TyKindV::Ref { name, args } => Some(t),
            TyKindV::TypeLit(members) => first_constructor_ret(members),
            TyKindV::ClassDef { def } => Some(
                TyV { kind: TyKindV::Class { def }, meta: t.meta },
            ),
            TyKindV::Interface { name, body, parents } => match first_constructor_ret(body) {
                Some(t0) => Some(t0),
                None => instance_from_parents(parents, span),
            },
            _ => None,
        }
    }
}

pub open spec fn instance_from_parents(ps: Seq<TyV>, span: Span) -> Option<TyV>
    decreases ps,
{
    if ps.len() == 0 {
        None
    } else {
        match make_instance_v(ps[0], span) {
            Some(t) => Some(t),
            None => instance_from_parents(ps.drop_first(), span),
        }
    }
}

impl Analyzer {
    /// The instance a `new` of a member list produces: the return type of
    /// its first constructor that declares one.
    pub fn make_instance_from_type_elements(
        &self,
        span: Span,
        callee: &Type,
        elements: &Vec<TypeElement>,
    ) -> (r: Result<Type, ErrorKind>)
        requires
            forall|i: int| 0 <= i < elements@.len() ==> decreases_to!(*callee => elements@[i]),
        ensures
            match r {
                Ok(t) => first_constructor_ret(view_elem_list(elements@)) == Some(t@),
                Err(e) => first_constructor_ret(view_elem_list(elements@)) is None && e == (
                ErrorKind::NoNewSignature { span }),
            },
        decreases *callee, 0int,
    {
        proof {
            lemma_view_elem_list(elements@);
        }
        let ghost ms = view_elem_list(elements@);
        let n = elements.len();
        proof {
            assert(ms.skip(0) =~= ms);
        }
        for i in 0..n
            invariant
                n == elements@.len(),
                ms == view_elem_list(elements@),
                ms.len() == n,
                forall|k: int| 0 <= k < elements@.len() ==> #[trigger] ms[k] == elements@[k]@,
                first_constructor_ret(ms) == first_constructor_ret(ms.skip(i as int)),
        {
            proof {
                assert(ms.skip(i as int)[0] == ms[i as int]);
                assert(ms.skip(i as int).drop_first() =~= ms.skip(i + 1));
            }
            match &elements[i] {
                TypeElement::Constructor { ret } => match ret {
                    Some(t) => {
                        return Ok(clone_type(t));
                    }
                    None => {}
                },
                _ => {}
            }
        }
        proof {
            assert(ms.skip(n as int) =~= Seq::<ElemV>::empty());
        }
        Err(ErrorKind::NoNewSignature { span })
    }

    /// Instantiate a type for a `new` expression.  `any`, `null` and
    /// `undefined` instantiate to themselves, as does an unresolved
    /// reference (the external normalizer expands those); a type literal or
    /// an interface instantiates through its first constructor, an interface
    /// falling back to its parents in order; a class definition instantiates
    /// to the class instance type.  Everything else has no construct
    /// signature.
    pub fn make_instance(&self, span: Span, ty: &Type) -> (r: Result<Type, ErrorKind>)
        ensures
            match r {
                Ok(t) => make_instance_v(ty@, span) == Some(t@),
                Err(e) => make_instance_v(ty@, span) is None && e == (ErrorKind::NoNewSignature {
                    span,
                }),
            },
        decreases *ty,
    {
        if ty.is_any() || ty.is_kwd(KeywordKind::Null) || ty.is_kwd(KeywordKind::Undefined) {
            return Ok(clone_type(ty));
        }
        match &ty.kind {
            TypeKind::Ref { name, args } => Ok(clone_type(ty)),
            TypeKind::TypeLit(members) => self.make_instance_from_type_elements(
                span,
                ty,
                members,
            ),
            TypeKind::Interface { name, body, parents } => {
                match self.make_instance_from_type_elements(span, ty, body) {
                    Ok(t) => {
                        return Ok(t);
                    }
                    Err(first_err) => {
                        let n = parents.len();
                        let ghost ps = view_ty_list(parents@);
                        proof {
                            lemma_view_ty_list(parents@);
                            assert(ps.skip(0) =~= ps);
                        }
                        for j in 0..n
                            invariant
                                n == parents@.len(),
                                forall|k: int|
                                    0 <= k < parents@.len() ==> decreases_to!(
                                        *ty => parents@[k]),
                                ty@.kind is Interface,
                                first_constructor_ret(ty@.kind->Interface_body) is None,
                                ps == view_ty_list(parents@),
                                ps == ty@.kind->Interface_parents,
                                ps.len() == n,
                                forall|k: int|
                                    0 <= k < parents@.len() ==> #[trigger] ps[k]
                                        == parents@[k]@,
                                instance_from_parents(ps, span) == instance_from_parents(
                                    ps.skip(j as int),
                                    span,
                                ),
                        {
                            proof {
                                assert(ps.skip(j as int)[0] == ps[j as int]);
                                assert(ps.skip(j as int).drop_first() =~= ps.skip(j + 1));
                            }
                            match self.make_instance(span, &parents[j]) {
                                Ok(t) => {
                                    proof {
                                        assert(instance_from_parents(ps.skip(j as int), span)
                                            == Some(t@));
                                    }
                                    return Ok(t);
                                }
                                Err(_) => {}
                            }
                        }
                        proof {
                            assert(ps.skip(n as int) =~= Seq::<TyV>::empty());
                        }
                        Err(first_err)
                    }
                }
            }
            TypeKind::ClassDef { def } => Ok(
                Type { kind: TypeKind::Class { def: *def }, meta: ty.meta() },
            ),
            _ => Err(ErrorKind::NoNewSignature { span }),
        }
    }

    /// Instantiate for a `new` expression, falling back to the type itself:
    /// a missing construct signature is tolerated silently, any other
    /// failure is reported.
    pub fn make_instance_or_report(&mut self, span: Span, ty: &Type) -> (r: Type)
        requires
            span != (Span { lo: 0, hi: 0 }),
        ensures
            final(self).scope == old(self).scope,
            final(self).cur_facts == old(self).cur_facts,
            final(self).ctx == old(self).ctx,
            final(self).storage == old(self).storage,
            r@ == (match make_instance_v(ty@, span) {
                Some(t) => t,
                None => ty@,
            }),
    {
        let res = self.make_instance(span, ty);
        match res {
            Ok(t) => t,
            Err(err) => {
                match err {
                    ErrorKind::NoNewSignature { span: es } => {}
                    _ => {
                        self.storage.report(err);
                    }
                }
                clone_type(ty)
            }
        }
    }
}

/// The value of the static-to-instance rewrite.
pub open spec fn make_instance_type_v(t: TyV) -> TyV
    decreases t,
{
    match t.kind {
        TyKindV::Tuple(es) => TyV { kind: TyKindV::Tuple(instance_list_v(es)), meta: t.meta },
        TyKindV::ClassDef { def } => TyV { kind: TyKindV::Class { def }, meta: t.meta },
        TyKindV::Intersection(ms) => TyV {
            kind: TyKindV::Intersection(instance_list_v(ms)),
            meta: t.meta,
        },
        TyKindV::Query(n) => TyV {
            kind: TyKindV::Ref { name: n, args: Seq::empty() },
            meta: t.meta,
        },
        TyKindV::Enum { id } => TyV {
            kind: TyKindV::EnumVariant { enum_name: id, variant: None },
            meta: t.meta,
        },
        _ => t,
    }
}

pub open spec fn instance_list_v(s: Seq<TyV>) -> Seq<TyV>
    decreases s,
{
    if s.len() == 0 {
        Seq::empty()
    } else {
        instance_list_v(s.drop_last()).push(make_instance_type_v(s.last()))
    }
}

pub proof fn lemma_instance_list(s: Seq<TyV>)
    ensures
        instance_list_v(s).len() == s.len(),
        forall|i: int|
            0 <= i < s.len() ==> #[trigger] instance_list_v(s)[i] == make_instance_type_v(s[i]),
    decreases s,
{
    if s.len() > 0 {
        lemma_instance_list(s.drop_last());
        assert(forall|i: int| 0 <= i < s.len() - 1 ==> s.drop_last()[i] == #[trigger] s[i]);
    }
}

/// The static-to-instance rewrite: tuples map their elements, a class
/// definition becomes its instance type, intersections map their members, a
/// `typeof name` query becomes a reference to `name`, and an enum becomes
/// its variant type; everything else passes through.
pub fn make_instance_type(ty: &Type) -> (r: Type)
    ensures
        r@ == make_instance_type_v(ty@),
    decreases *ty, 1int,
{
    match &ty.kind {
        TypeKind::Tuple(elems) => {
            let mut out: Vec<Type> = Vec::new();
            let n = elems.len();
            proof {
                lemma_view_ty_list(elems@);
            }
            for i in 0..n
                invariant
                    n == elems@.len(),
                    forall|k: int| 0 <= k < elems@.len() ==> decreases_to!(*ty => elems@[k]),
                    view_ty_list(elems@).len() == n,
                    forall|k: int|
                        0 <= k < elems@.len() ==> #[trigger] view_ty_list(elems@)[k]
                            == elems@[k]@,
                    out@.len() == i,
                    forall|k: int| 0 <= k < i ==> (#[trigger] out@[k])@ == make_instance_type_v(
                        elems@[k]@,
                    ),
            {
                out.push(make_instance_type(&elems[i]));
            }
            let r = Type { kind: TypeKind::Tuple(out), meta: ty.meta() };
            proof {
                lemma_view_ty_list(r.kind->Tuple_0@);
                lemma_instance_list(view_ty_list(elems@));
                assert(view_ty_list(r.kind->Tuple_0@) =~= instance_list_v(view_ty_list(elems@)));
            }
            r
        }
        TypeKind::ClassDef { def } => Type {
            kind: TypeKind::Class { def: *def },
            meta: ty.meta(),
        },
        TypeKind::Intersection(members) => {
            let mut out: Vec<Type> = Vec::new();
            let n = members.len();
            proof {
                lemma_view_ty_list(members@);
            }
            for i in 0..n
                invariant
                    n == members@.len(),
                    forall|k: int| 0 <= k < members@.len() ==> decreases_to!(*ty => members@[k]),
                    view_ty_list(members@).len() == n,
                    forall|k: int|
                        0 <= k < members@.len() ==> #[trigger] view_ty_list(members@)[k]
                            == members@[k]@,
                    out@.len() == i,
                    forall|k: int| 0 <= k < i ==> (#[trigger] out@[k])@ == make_instance_type_v(
                        members@[k]@,
                    ),
            {
                out.push(make_instance_type(&members[i]));
            }
            let r = Type { kind: TypeKind::Intersection(out), meta: ty.meta() };
            proof {
                lemma_view_ty_list(r.kind->Intersection_0@);
                lemma_instance_list(view_ty_list(members@));
                assert(view_ty_list(r.kind->Intersection_0@) =~= instance_list_v(
                    view_ty_list(members@),
                ));
            }
            r
        }
        TypeKind::Query(name) => {
            let r = Type {
                kind: TypeKind::Ref { name: *name, args: Vec::new() },
                meta: ty.meta(),
            };
            proof {
                assert(view_ty_list(r.kind->Ref_args@) =~= Seq::<TyV>::empty());
            }
            r
        }
        TypeKind::Enum { id } => Type {
            kind: TypeKind::EnumVariant { enum_name: *id, variant: None },
            meta: ty.meta(),
        },
        _ => clone_type(ty),
    }
}

} // verus!
