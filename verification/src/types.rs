use vstd::prelude::*;
use crate::name::Id;
use crate::span::Span;

verus! {

/// Primitive (keyword) types of the source language.
#[derive(Clone, Copy, PartialEq, Eq, Structural, Debug)]
pub enum KeywordKind {
    Any,
    Unknown,
    Never,
    Null,
    Undefined,
    Str,
    Num,
    Bool,
    Object,
    Symbol,
    Void,
}

/// A literal type.  Literal spellings are interned by the surrounding
/// checker, so a string literal is carried as its interned id and a numeric
/// literal as its integral value.
#[derive(Clone, Copy, PartialEq, Eq, Structural, Debug)]
pub enum LitValue {
    Str(Id),
    Num(i64),
    Bool(bool),
}

/// Metadata every type node carries.  `frozen` marks a node whose clone is
/// cheap (shared ownership in the original representation); the
/// `prevent_converting_to_children` mark steers ternary-type adjustment.
#[derive(Clone, Copy, PartialEq, Eq, Structural, Debug)]
pub struct TypeMeta {
    pub span: Span,
    pub frozen: bool,
    pub prevent_converting_to_children: bool,
}

impl TypeMeta {
    pub fn at(span: Span) -> (r: TypeMeta)
        ensures
            r == (TypeMeta { span, frozen: false, prevent_converting_to_children: false }),
    {
        TypeMeta { span, frozen: false, prevent_converting_to_children: false }
    }
}

/// A type parameter, possibly constrained (`P in C`).
#[derive(Debug)]
pub struct TypeParamDecl {
    pub name: Id,
    pub constraint: Option<Box<Type>>,
}

/// A member of a type literal, an interface body or a class body.
#[derive(Debug)]
pub enum TypeElement {
    Property { key: Id, ty: Type },
    Constructor { ret: Option<Box<Type>> },
    Other,
}

/// The structural part of a type.  The tree is immutable once frozen; the
/// core never rewrites a node in place, it builds new ones.
#[derive(Debug)]
pub enum TypeKind {
    Keyword(KeywordKind),
    Lit(LitValue),
    Union(Vec<Type>),
    Intersection(Vec<Type>),
    Tuple(Vec<Type>),
    Array(Box<Type>),
    /// A reference to a named type, opaque to the core; the external
    /// normalizer resolves it at use sites.
    Ref { name: Id, args: Vec<Type> },
    /// `typeof name`.
    Query(Id),
    /// A mapped type `{ [P in C]: ... }`; only the parameter matters here.
    Mapped { param: TypeParamDecl },
    /// `keyof T`.
    Keyof(Box<Type>),
    Param(TypeParamDecl),
    TypeLit(Vec<TypeElement>),
    Interface { name: Id, body: Vec<TypeElement>, parents: Vec<Type> },
    Class { def: Id },
    ClassDef { def: Id },
    Enum { id: Id },
    EnumVariant { enum_name: Id, variant: Option<Id> },
    Module { id: Id },
}

/// A type: a structural tree plus metadata.
#[derive(Debug)]
pub struct Type {
    pub kind: TypeKind,
    pub meta: TypeMeta,
}

/// The mathematical value of a [`Type`]: the same tree with sequences for
/// children.  Contracts speak about these values.
pub struct TyV {
    pub kind: TyKindV,
    pub meta: TypeMeta,
}

pub struct ParamV {
    pub name: Id,
    pub constraint: Option<Box<TyV>>,
}

pub enum ElemV {
    Property { key: Id, ty: TyV },
    Constructor { ret: Option<Box<TyV>> },
    Other,
}

pub enum TyKindV {
    Keyword(KeywordKind),
    Lit(LitValue),
    Union(Seq<TyV>),
    Intersection(Seq<TyV>),
    Tuple(Seq<TyV>),
    Array(Box<TyV>),
    Ref { name: Id, args: Seq<TyV> },
    Query(Id),
    Mapped { param: ParamV },
    Keyof(Box<TyV>),
    Param(ParamV),
    TypeLit(Seq<ElemV>),
    Interface { name: Id, body: Seq<ElemV>, parents: Seq<TyV> },
    Class { def: Id },
    ClassDef { def: Id },
    Enum { id: Id },
    EnumVariant { enum_name: Id, variant: Option<Id> },
    Module { id: Id },
}

pub open spec fn view_ty(t: Type) -> TyV
    decreases t,
{
    let kind = match t.kind {
        TypeKind::Keyword(k) => TyKindV::Keyword(k),
        TypeKind::Lit(l) => TyKindV::Lit(l),
        TypeKind::Union(xs) => TyKindV::Union(view_ty_list(xs@)),
        TypeKind::Intersection(xs) => TyKindV::Intersection(view_ty_list(xs@)),
        TypeKind::Tuple(xs) => TyKindV::Tuple(view_ty_list(xs@)),
        TypeKind::Array(e) => TyKindV::Array(Box::new(view_ty(*e))),
        TypeKind::Ref { name, args } => TyKindV::Ref { name, args: view_ty_list(args@) },
        TypeKind::Query(n) => TyKindV::Query(n),
        TypeKind::Mapped { param } => TyKindV::Mapped { param: view_param(param) },
        TypeKind::Keyof(e) => TyKindV::Keyof(Box::new(view_ty(*e))),
        TypeKind::Param(param) => TyKindV::Param(view_param(param)),
        TypeKind::TypeLit(xs) => TyKindV::TypeLit(view_elem_list(xs@)),
        TypeKind::Interface { name, body, parents } => TyKindV::Interface {
            name,
            body: view_elem_list(body@),
            parents: view_ty_list(parents@),
        },
        TypeKind::Class { def } => TyKindV::Class { def },
        TypeKind::ClassDef { def } => TyKindV::ClassDef { def },
        TypeKind::Enum { id } => TyKindV::Enum { id },
        TypeKind::EnumVariant { enum_name, variant } => TyKindV::EnumVariant {
            enum_name,
            variant,
        },
        TypeKind::Module { id } => TyKindV::Module { id },
    };
    TyV { kind, meta: t.meta }
}

pub open spec fn view_ty_list(s: Seq<Type>) -> Seq<TyV>
    decreases s,
{
    if s.len() == 0 {
        Seq::empty()
    } else {
        view_ty_list(s.drop_last()).push(view_ty(s.last()))
    }
}

pub open spec fn view_param(p: TypeParamDecl) -> ParamV
    decreases p,
{
    ParamV {
        name: p.name,
        constraint: match p.constraint {
            Some(c) => Some(Box::new(view_ty(*c))),
            None => None,
        },
    }
}

pub open spec fn view_elem(e: TypeElement) -> ElemV
    decreases e,
{
    match e {
        TypeElement::Property { key, ty } => ElemV::Property { key, ty: view_ty(ty) },
        TypeElement::Constructor { ret } => ElemV::Constructor {
            ret: match ret {
                Some(t) => Some(Box::new(view_ty(*t))),
                None => None,
            },
        },
        TypeElement::Other => ElemV::Other,
    }
}

pub open spec fn view_elem_list(s: Seq<TypeElement>) -> Seq<ElemV>
    decreases s,
{
    if s.len() == 0 {
        Seq::empty()
    } else {
        view_elem_list(s.drop_last()).push(view_elem(s.last()))
    }
}

impl View for Type {
    type V = TyV;

    open spec fn view(&self) -> TyV {
        view_ty(*self)
    }
}

impl View for TypeElement {
    type V = ElemV;

    open spec fn view(&self) -> ElemV {
        view_elem(*self)
    }
}

/// The view of a type list is the pointwise view.
pub proof fn lemma_view_ty_list(s: Seq<Type>)
    ensures
        view_ty_list(s).len() == s.len(),
        forall|i: int| 0 <= i < s.len() ==> #[trigger] view_ty_list(s)[i] == view_ty(s[i]),
    decreases s,
{
    if s.len() > 0 {
        lemma_view_ty_list(s.drop_last());
        assert(forall|i: int| 0 <= i < s.len() - 1 ==> s.drop_last()[i] == #[trigger] s[i]);
    }
}

/// The view of a member list is the pointwise view.
pub proof fn lemma_view_elem_list(s: Seq<TypeElement>)
    ensures
        view_elem_list(s).len() == s.len(),
        forall|i: int| 0 <= i < s.len() ==> #[trigger] view_elem_list(s)[i] == view_elem(s[i]),
    decreases s,
{
    if s.len() > 0 {
        lemma_view_elem_list(s.drop_last());
        assert(forall|i: int| 0 <= i < s.len() - 1 ==> s.drop_last()[i] == #[trigger] s[i]);
    }
}

/// Structural equality of two type values, ignoring metadata on every node.
pub open spec fn type_eq(a: TyV, b: TyV) -> bool
    decreases a,
{
    match a.kind {
        TyKindV::Keyword(ka) => b.kind matches TyKindV::Keyword(kb) && ka == kb,
        TyKindV::Lit(la) => b.kind matches TyKindV::Lit(lb) && la == lb,
        TyKindV::Union(xs) => b.kind matches TyKindV::Union(ys) && {
            &&& xs.len() == ys.len()
            &&& forall|i: int| 0 <= i < xs.len() ==> type_eq(#[trigger] xs[i], ys[i])
        },
        TyKindV::Intersection(xs) => b.kind matches TyKindV::Intersection(ys) && {
            &&& xs.len() == ys.len()
            &&& forall|i: int| 0 <= i < xs.len() ==> type_eq(#[trigger] xs[i], ys[i])
        },
        TyKindV::Tuple(xs) => b.kind matches TyKindV::Tuple(ys) && {
            &&& xs.len() == ys.len()
            &&& forall|i: int| 0 <= i < xs.len() ==> type_eq(#[trigger] xs[i], ys[i])
        },
        TyKindV::Array(ea) => b.kind matches TyKindV::Array(eb) && type_eq(*ea, *eb),
        TyKindV::Ref { name: na, args: xs } => b.kind matches TyKindV::Ref {
            name: nb,
            args: ys,
        } && {
            &&& na == nb
            &&& xs.len() == ys.len()
            &&& forall|i: int| 0 <= i < xs.len() ==> type_eq(#[trigger] xs[i], ys[i])
        },
        TyKindV::Query(na) => b.kind matches TyKindV::Query(nb) && na == nb,
        TyKindV::Mapped { param: pa } => b.kind matches TyKindV::Mapped { param: pb } && param_eq(
            pa,
            pb,
        ),
        TyKindV::Keyof(ea) => b.kind matches TyKindV::Keyof(eb) && type_eq(*ea, *eb),
        TyKindV::Param(pa) => b.kind matches TyKindV::Param(pb) && param_eq(pa, pb),
        TyKindV::TypeLit(xs) => b.kind matches TyKindV::TypeLit(ys) && {
            &&& xs.len() == ys.len()
            &&& forall|i: int| 0 <= i < xs.len() ==> elem_eq(#[trigger] xs[i], ys[i])
        },
        TyKindV::Interface { name: na, body: xs, parents: ps } => b.kind
            matches TyKindV::Interface { name: nb, body: ys, parents: qs } && {
            &&& na == nb
            &&& xs.len() == ys.len()
            &&& forall|i: int| 0 <= i < xs.len() ==> elem_eq(#[trigger] xs[i], ys[i])
            &&& ps.len() == qs.len()
            &&& forall|i: int| 0 <= i < ps.len() ==> type_eq(#[trigger] ps[i], qs[i])
        },
        TyKindV::Class { def: da } => b.kind matches TyKindV::Class { def: db } && da == db,
        TyKindV::ClassDef { def: da } => b.kind matches TyKindV::ClassDef { def: db } && da == db,
        TyKindV::Enum { id: ia } => b.kind matches TyKindV::Enum { id: ib } && ia == ib,
        TyKindV::EnumVariant { enum_name: ea, variant: va } => b.kind
            matches TyKindV::EnumVariant { enum_name: eb, variant: vb } && ea == eb && va == vb,
        TyKindV::Module { id: ia } => b.kind matches TyKindV::Module { id: ib } && ia == ib,
    }
}

/// Structural equality of type parameters.
pub open spec fn param_eq(a: ParamV, b: ParamV) -> bool
    decreases a,
{
    &&& a.name == b.name
    &&& match a.constraint {
        Some(ca) => b.constraint matches Some(cb) && type_eq(*ca, *cb),
        None => b.constraint is None,
    }
}

/// Structural equality of type-literal members.
pub open spec fn elem_eq(a: ElemV, b: ElemV) -> bool
    decreases a,
{
    match a {
        ElemV::Property { key: ka, ty: ta } => b matches ElemV::Property { key: kb, ty: tb }
            && ka == kb && type_eq(ta, tb),
        ElemV::Constructor { ret: ra } => b matches ElemV::Constructor { ret: rb } && match ra {
            Some(ta) => rb matches Some(tb) && type_eq(*ta, *tb),
            None => rb is None,
        },
        ElemV::Other => b is Other,
    }
}

/// Structural equality is reflexive.
pub proof fn lemma_type_eq_refl(t: TyV)
    ensures
        type_eq(t, t),
    decreases t,
{
    match t.kind {
        TyKindV::Union(xs) => {
            assert forall|i: int| 0 <= i < xs.len() implies type_eq(#[trigger] xs[i], xs[i]) by {
                lemma_type_eq_refl(xs[i]);
            }
        }
        TyKindV::Intersection(xs) => {
            assert forall|i: int| 0 <= i < xs.len() implies type_eq(#[trigger] xs[i], xs[i]) by {
                lemma_type_eq_refl(xs[i]);
            }
        }
        TyKindV::Tuple(xs) => {
            assert forall|i: int| 0 <= i < xs.len() implies type_eq(#[trigger] xs[i], xs[i]) by {
                lemma_type_eq_refl(xs[i]);
            }
        }
        TyKindV::Array(ea) => {
            lemma_type_eq_refl(*ea);
        }
        TyKindV::Ref { name, args: xs } => {
            assert forall|i: int| 0 <= i < xs.len() implies type_eq(#[trigger] xs[i], xs[i]) by {
                lemma_type_eq_refl(xs[i]);
            }
        }
        TyKindV::Mapped { param } => {
            lemma_param_eq_refl(param);
        }
        TyKindV::Keyof(ea) => {
            lemma_type_eq_refl(*ea);
        }
        TyKindV::Param(param) => {
            lemma_param_eq_refl(param);
        }
        TyKindV::TypeLit(xs) => {
            assert forall|i: int| 0 <= i < xs.len() implies elem_eq(#[trigger] xs[i], xs[i]) by {
                lemma_elem_eq_refl(xs[i]);
            }
        }
        TyKindV::Interface { name, body: xs, parents: ps } => {
            assert forall|i: int| 0 <= i < xs.len() implies elem_eq(#[trigger] xs[i], xs[i]) by {
                lemma_elem_eq_refl(xs[i]);
            }
            assert forall|i: int| 0 <= i < ps.len() implies type_eq(#[trigger] ps[i], ps[i]) by {
                lemma_type_eq_refl(ps[i]);
            }
        }
        _ => {}
    }
}

pub proof fn lemma_param_eq_refl(p: ParamV)
    ensures
        param_eq(p, p),
    decreases p,
{
    match p.constraint {
        Some(c) => lemma_type_eq_refl(*c),
        None => {}
    }
}

pub proof fn lemma_elem_eq_refl(e: ElemV)
    ensures
        elem_eq(e, e),
    decreases e,
{
    match e {
        ElemV::Property { key, ty } => lemma_type_eq_refl(ty),
        ElemV::Constructor { ret } => {
            match ret {
                Some(t) => lemma_type_eq_refl(*t),
                None => {}
            }
        }
        ElemV::Other => {}
    }
}

/// Pointwise structural equality of two type lists coincides with pointwise
/// equality of their views.
pub proof fn lemma_list_eq_bridge(xs: Seq<Type>, ys: Seq<Type>)
    requires
        xs.len() == ys.len(),
    ensures
        (forall|i: int| 0 <= i < xs.len() ==> type_eq((#[trigger] xs[i])@, ys[i]@)) <==> (forall|
            i: int,
        |
            0 <= i < xs.len() ==> type_eq(#[trigger] view_ty_list(xs)[i], view_ty_list(ys)[i])),
{
    lemma_view_ty_list(xs);
    lemma_view_ty_list(ys);
    if forall|i: int| 0 <= i < xs.len() ==> type_eq((#[trigger] xs[i])@, ys[i]@) {
        assert forall|i: int|
            0 <= i < xs.len() implies type_eq(
            #[trigger] view_ty_list(xs)[i],
            view_ty_list(ys)[i],
        ) by {
            assert(type_eq(xs[i]@, ys[i]@));
        }
    } else {
        let i = choose|i: int| 0 <= i < xs.len() && !type_eq((#[trigger] xs[i])@, ys[i]@);
        assert(!type_eq(view_ty_list(xs)[i], view_ty_list(ys)[i]));
    }
}

/// Pointwise structural equality of two member lists coincides with
/// pointwise equality of their views.
pub proof fn lemma_elem_list_eq_bridge(xs: Seq<TypeElement>, ys: Seq<TypeElement>)
    requires
        xs.len() == ys.len(),
    ensures
        (forall|i: int| 0 <= i < xs.len() ==> elem_eq((#[trigger] xs[i])@, ys[i]@)) <==> (forall|
            i: int,
        |
            0 <= i < xs.len() ==> elem_eq(
                #[trigger] view_elem_list(xs)[i],
                view_elem_list(ys)[i],
            )),
{
    lemma_view_elem_list(xs);
    lemma_view_elem_list(ys);
    if forall|i: int| 0 <= i < xs.len() ==> elem_eq((#[trigger] xs[i])@, ys[i]@) {
        assert forall|i: int|
            0 <= i < xs.len() implies elem_eq(
            #[trigger] view_elem_list(xs)[i],
            view_elem_list(ys)[i],
        ) by {
            assert(elem_eq(xs[i]@, ys[i]@));
        }
    } else {
        let i = choose|i: int| 0 <= i < xs.len() && !elem_eq((#[trigger] xs[i])@, ys[i]@);
        assert(!elem_eq(view_elem_list(xs)[i], view_elem_list(ys)[i]));
    }
}

/// Executable structural equality, deciding [`type_eq`] on the views.
#[verifier::rlimit(50)]
pub fn eq_type(a: &Type, b: &Type) -> (r: bool)
    ensures
        r == type_eq(a@, b@),
    decreases *a, 1int,
{
    match (&a.kind, &b.kind) {
        (TypeKind::Keyword(ka), TypeKind::Keyword(kb)) => {
            let rr = ka == kb;
            proof { assert(rr == type_eq(a@, b@)); }
            rr
        }
        (TypeKind::Lit(la), TypeKind::Lit(lb)) => {
            let rr = la == lb;
            proof { assert(rr == type_eq(a@, b@)); }
            rr
        }
        (TypeKind::Union(xs), TypeKind::Union(ys)) => {
            proof {
                lemma_view_ty_list(xs@);
                lemma_view_ty_list(ys@);
                assert(a@.kind == TyKindV::Union(view_ty_list(xs@)));
                assert(b@.kind == TyKindV::Union(view_ty_list(ys@)));
            }
            let rr = eq_type_list(a, xs, ys);
            proof {
                if xs@.len() == ys@.len() {
                    lemma_list_eq_bridge(xs@, ys@);
                }
                assert(rr == type_eq(a@, b@));
            }
            rr
        }
        (TypeKind::Intersection(xs), TypeKind::Intersection(ys)) => {
            proof {
                lemma_view_ty_list(xs@);
                lemma_view_ty_list(ys@);
                assert(a@.kind == TyKindV::Intersection(view_ty_list(xs@)));
                assert(b@.kind == TyKindV::Intersection(view_ty_list(ys@)));
            }
            let rr = eq_type_list(a, xs, ys);
            proof {
                if xs@.len() == ys@.len() {
                    lemma_list_eq_bridge(xs@, ys@);
                }
                assert(rr == type_eq(a@, b@));
            }
            rr
        }
        (TypeKind::Tuple(xs), TypeKind::Tuple(ys)) => {
            proof {
                lemma_view_ty_list(xs@);
                lemma_view_ty_list(ys@);
                assert(a@.kind == TyKindV::Tuple(view_ty_list(xs@)));
                assert(b@.kind == TyKindV::Tuple(view_ty_list(ys@)));
            }
            let rr = eq_type_list(a, xs, ys);
            proof {
                if xs@.len() == ys@.len() {
                    lemma_list_eq_bridge(xs@, ys@);
                }
                assert(rr == type_eq(a@, b@));
            }
            rr
        }
        (TypeKind::Array(ea), TypeKind::Array(eb)) => {
            proof {
                assert(a@.kind == TyKindV::Array(Box::new((**ea)@)));
                assert(b@.kind == TyKindV::Array(Box::new((**eb)@)));
            }
            let rr = eq_type(ea, eb);
            proof { assert(rr == type_eq(a@, b@)); }
            rr
        }
        (TypeKind::Ref { name: na, args: xs }, TypeKind::Ref { name: nb, args: ys }) => {
            proof {
                lemma_view_ty_list(xs@);
                lemma_view_ty_list(ys@);
                assert(a@.kind == TyKindV::Ref { name: *na, args: view_ty_list(xs@) });
                assert(b@.kind == TyKindV::Ref { name: *nb, args: view_ty_list(ys@) });
            }
            let rr = *na == *nb && eq_type_list(a, xs, ys);
            proof {
                if xs@.len() == ys@.len() {
                    lemma_list_eq_bridge(xs@, ys@);
                }
                assert(rr == type_eq(a@, b@));
            }
            rr
        }
        (TypeKind::Query(na), TypeKind::Query(nb)) => {
            let rr = na == nb;
            proof { assert(rr == type_eq(a@, b@)); }
            rr
        }
        (TypeKind::Mapped { param: pa }, TypeKind::Mapped { param: pb }) => {
            proof {
                assert(a@.kind == TyKindV::Mapped { param: view_param(*pa) });
                assert(b@.kind == TyKindV::Mapped { param: view_param(*pb) });
            }
            let rr = eq_param(a, pa, pb);
            proof { assert(rr == type_eq(a@, b@)); }
            rr
        }
        (TypeKind::Keyof(ea), TypeKind::Keyof(eb)) => {
            proof {
                assert(a@.kind == TyKindV::Keyof(Box::new((**ea)@)));
                assert(b@.kind == TyKindV::Keyof(Box::new((**eb)@)));
            }
            let rr = eq_type(ea, eb);
            proof { assert(rr == type_eq(a@, b@)); }
            rr
        }
        (TypeKind::Param(pa), TypeKind::Param(pb)) => {
            proof {
                assert(a@.kind == TyKindV::Param(view_param(*pa)));
                assert(b@.kind == TyKindV::Param(view_param(*pb)));
            }
            let rr = eq_param(a, pa, pb);
            proof { assert(rr == type_eq(a@, b@)); }
            rr
        }
        (TypeKind::TypeLit(xs), TypeKind::TypeLit(ys)) => {
            proof {
                lemma_view_elem_list(xs@);
                lemma_view_elem_list(ys@);
                assert(a@.kind == TyKindV::TypeLit(view_elem_list(xs@)));
                assert(b@.kind == TyKindV::TypeLit(view_elem_list(ys@)));
            }
            let rr = eq_elem_list(a, xs, ys);
            proof {
                if xs@.len() == ys@.len() {
                    lemma_elem_list_eq_bridge(xs@, ys@);
                }
                assert(rr == type_eq(a@, b@));
            }
            rr
        }
        (
            TypeKind::Interface { name: na, body: xs, parents: ps },
            TypeKind::Interface { name: nb, body: ys, parents: qs },
        ) => {
            proof {
                lemma_view_elem_list(xs@);
                lemma_view_elem_list(ys@);
                lemma_view_ty_list(ps@);
                lemma_view_ty_list(qs@);
                assert(a@.kind == TyKindV::Interface {
                    name: *na,
                    body: view_elem_list(xs@),
                    parents: view_ty_list(ps@),
                });
                assert(b@.kind == TyKindV::Interface {
                    name: *nb,
                    body: view_elem_list(ys@),
                    parents: view_ty_list(qs@),
                });
            }
            let rr = *na == *nb && eq_elem_list(a, xs, ys) && eq_type_list(a, ps, qs);
            proof {
                if xs@.len() == ys@.len() {
                    lemma_elem_list_eq_bridge(xs@, ys@);
                }
                if ps@.len() == qs@.len() {
                    lemma_list_eq_bridge(ps@, qs@);
                }
                assert(rr == type_eq(a@, b@));
            }
            rr
        }
        (TypeKind::Class { def: da }, TypeKind::Class { def: db }) => {
            let rr = da == db;
            proof { assert(rr == type_eq(a@, b@)); }
            rr
        }
        (TypeKind::ClassDef { def: da }, TypeKind::ClassDef { def: db }) => {
            let rr = da == db;
            proof { assert(rr == type_eq(a@, b@)); }
            rr
        }
        (TypeKind::Enum { id: ia }, TypeKind::Enum { id: ib }) => {
            let rr = ia == ib;
            proof { assert(rr == type_eq(a@, b@)); }
            rr
        }
        (
            TypeKind::EnumVariant { enum_name: ea, variant: va },
            TypeKind::EnumVariant { enum_name: eb, variant: vb },
        ) => {
            let rr = ea == eb && va == vb;
            proof { assert(rr == type_eq(a@, b@)); }
            rr
        }
        (TypeKind::Module { id: ia }, TypeKind::Module { id: ib }) => {
            let rr = ia == ib;
            proof { assert(rr == type_eq(a@, b@)); }
            rr
        }
        _ => {
            proof { assert(!type_eq(a@, b@)); }
            false
        }
    }
}

/// Pairwise structural equality of two type lists that are components of the
/// type `owner` (passed for termination measurement only).
fn eq_type_list(owner: &Type, xs: &Vec<Type>, ys: &Vec<Type>) -> (r: bool)
    requires
        forall|i: int| 0 <= i < xs@.len() ==> decreases_to!(*owner => xs@[i]),
    ensures
        r == (xs@.len() == ys@.len() && forall|i: int|
            0 <= i < xs@.len() ==> type_eq(#[trigger] xs@[i]@, ys@[i]@)),
    decreases *owner, 0int,
{
    if xs.len() != ys.len() {
        return false;
    }
    let n = xs.len();
    for i in 0..n
        invariant
            n == xs@.len(),
            n == ys@.len(),
            forall|i: int| 0 <= i < xs@.len() ==> decreases_to!(*owner => xs@[i]),
            forall|j: int| 0 <= j < i ==> type_eq(#[trigger] xs@[j]@, ys@[j]@),
    {
        if !eq_type(&xs[i], &ys[i]) {
            return false;
        }
    }
    true
}

/// Pairwise structural equality of two member lists of the type `owner`.
#[verifier::rlimit(50)]
fn eq_elem_list(owner: &Type, xs: &Vec<TypeElement>, ys: &Vec<TypeElement>) -> (r: bool)
    requires
        forall|i: int| 0 <= i < xs@.len() ==> decreases_to!(*owner => xs@[i]),
    ensures
        r == (xs@.len() == ys@.len() && forall|i: int|
            0 <= i < xs@.len() ==> elem_eq(#[trigger] xs@[i]@, ys@[i]@)),
    decreases *owner, 0int,
{
    if xs.len() != ys.len() {
        return false;
    }
    let n = xs.len();
    for i in 0..n
        invariant
            n == xs@.len(),
            n == ys@.len(),
            forall|i: int| 0 <= i < xs@.len() ==> decreases_to!(*owner => xs@[i]),
            forall|j: int| 0 <= j < i ==> elem_eq(#[trigger] xs@[j]@, ys@[j]@),
    {
        let r = match (&xs[i], &ys[i]) {
            (
                TypeElement::Property { key: ka, ty: ta },
                TypeElement::Property { key: kb, ty: tb },
            ) => {
                proof {
                    assert(xs@[i as int]@ == ElemV::Property { key: *ka, ty: ta@ });
                    assert(ys@[i as int]@ == ElemV::Property { key: *kb, ty: tb@ });
                }
                ka == kb && eq_type(ta, tb)
            }
            (TypeElement::Constructor { ret: ra }, TypeElement::Constructor { ret: rb }) => match (
                ra,
                rb,
            ) {
                (Some(ta), Some(tb)) => {
                    proof {
                        assert(xs@[i as int]@ == ElemV::Constructor {
                            ret: Some(Box::new((**ta)@)),
                        });
                        assert(ys@[i as int]@ == ElemV::Constructor {
                            ret: Some(Box::new((**tb)@)),
                        });
                    }
                    eq_type(ta, tb)
                }
                (None, None) => true,
                _ => false,
            },
            (TypeElement::Other, TypeElement::Other) => true,
            _ => false,
        };
        if !r {
            return false;
        }
    }
    true
}

/// Structural equality of type parameters, for the components of `owner`.
fn eq_param(owner: &Type, pa: &TypeParamDecl, pb: &TypeParamDecl) -> (r: bool)
    requires
        decreases_to!(*owner => *pa),
    ensures
        r == param_eq(view_param(*pa), view_param(*pb)),
    decreases *owner, 0int,
{
    pa.name == pb.name && match (&pa.constraint, &pb.constraint) {
        (Some(ca), Some(cb)) => eq_type(ca, cb),
        (None, None) => true,
        _ => false,
    }
}

/// Validity: every union node in the union spine has at least two members.
/// Constructors keep it; stored facts require it.
pub open spec fn valid(t: TyV) -> bool
    decreases t,
{
    match t.kind {
        TyKindV::Union(xs) => xs.len() >= 2 && forall|i: int|
            0 <= i < xs.len() ==> valid(#[trigger] xs[i]),
        _ => true,
    }
}

impl TyV {
    /// A node whose clone is cheap (shared ownership in the original
    /// representation).
    pub open spec fn is_clone_cheap(self) -> bool {
        self.meta.frozen
    }

    pub open spec fn is_union(self) -> bool {
        self.kind is Union
    }

    pub open spec fn is_never(self) -> bool {
        self.kind matches TyKindV::Keyword(KeywordKind::Never)
    }

    pub open spec fn is_any(self) -> bool {
        self.kind matches TyKindV::Keyword(KeywordKind::Any)
    }

    pub open spec fn is_kwd(self, k: KeywordKind) -> bool {
        self.kind matches TyKindV::Keyword(kk) && kk == k
    }
}

impl Type {
    pub fn keyword(k: KeywordKind, span: Span) -> (r: Type)
        ensures
            r@.kind == TyKindV::Keyword(k),
            r@.meta == (TypeMeta { span, frozen: false, prevent_converting_to_children: false }),
            valid(r@),
    {
        Type { kind: TypeKind::Keyword(k), meta: TypeMeta::at(span) }
    }

    pub fn never(span: Span) -> (r: Type)
        ensures
            r@.is_never(),
            r@.kind == TyKindV::Keyword(KeywordKind::Never),
            r@.meta == (TypeMeta { span, frozen: false, prevent_converting_to_children: false }),
            valid(r@),
    {
        Type { kind: TypeKind::Keyword(KeywordKind::Never), meta: TypeMeta::at(span) }
    }

    pub fn any(span: Span) -> (r: Type)
        ensures
            r@.is_any(),
            r@.kind == TyKindV::Keyword(KeywordKind::Any),
            r@.meta == (TypeMeta { span, frozen: false, prevent_converting_to_children: false }),
            valid(r@),
    {
        Type { kind: TypeKind::Keyword(KeywordKind::Any), meta: TypeMeta::at(span) }
    }

    pub fn is_union(&self) -> (r: bool)
        ensures
            r == self@.is_union(),
    {
        matches!(self.kind, TypeKind::Union(..))
    }

    pub fn is_never(&self) -> (r: bool)
        ensures
            r == self@.is_never(),
    {
        matches!(self.kind, TypeKind::Keyword(KeywordKind::Never))
    }

    pub fn is_any(&self) -> (r: bool)
        ensures
            r == self@.is_any(),
    {
        matches!(self.kind, TypeKind::Keyword(KeywordKind::Any))
    }

    pub fn is_kwd(&self, k: KeywordKind) -> (r: bool)
        ensures
            r == self@.is_kwd(k),
    {
        match &self.kind {
            TypeKind::Keyword(kk) => *kk == k,
            _ => false,
        }
    }

    pub fn is_array(&self) -> (r: bool)
        ensures
            r == (self@.kind is Array),
    {
        matches!(self.kind, TypeKind::Array(..))
    }

    pub fn is_tuple(&self) -> (r: bool)
        ensures
            r == (self@.kind is Tuple),
    {
        matches!(self.kind, TypeKind::Tuple(..))
    }

    pub fn span(&self) -> (r: Span)
        ensures
            r == self@.meta.span,
    {
        self.meta.span
    }

    pub fn meta(&self) -> (r: TypeMeta)
        ensures
            r == self@.meta,
    {
        self.meta
    }

    /// Mark this node cheap to clone (the original wraps the tree in shared
    /// ownership; here only the mark matters).  The structural part is
    /// untouched.
    pub fn freezed(self) -> (r: Type)
        ensures
            r@.kind == self@.kind,
            r@.meta == (TypeMeta { frozen: true, ..self@.meta }),
            r@.is_clone_cheap(),
    {
        let meta = TypeMeta {
            span: self.meta.span,
            frozen: true,
            prevent_converting_to_children: self.meta.prevent_converting_to_children,
        };
        Type { kind: self.kind, meta }
    }

    /// Re-attach a span to this node, keeping everything else.
    pub fn reposition(self, span: Span) -> (r: Type)
        ensures
            r@.kind == self@.kind,
            r@.meta == (TypeMeta { span, ..self@.meta }),
    {
        let meta = TypeMeta {
            span,
            frozen: self.meta.frozen,
            prevent_converting_to_children: self.meta.prevent_converting_to_children,
        };
        Type { kind: self.kind, meta }
    }
}

/// Deep copy; the result denotes the same type value.
pub fn clone_type(t: &Type) -> (r: Type)
    ensures
        r@ == t@,
    decreases *t, 1int,
{
    match &t.kind {
        TypeKind::Keyword(k) => Type { kind: TypeKind::Keyword(*k), meta: t.meta },
        TypeKind::Lit(l) => Type { kind: TypeKind::Lit(*l), meta: t.meta },
        TypeKind::Union(xs) => {
            let v = clone_type_list(t, xs);
            proof {
                lemma_view_list_congruence(v@, xs@);
            }
            Type { kind: TypeKind::Union(v), meta: t.meta }
        }
        TypeKind::Intersection(xs) => {
            let v = clone_type_list(t, xs);
            proof {
                lemma_view_list_congruence(v@, xs@);
            }
            Type { kind: TypeKind::Intersection(v), meta: t.meta }
        }
        TypeKind::Tuple(xs) => {
            let v = clone_type_list(t, xs);
            proof {
                lemma_view_list_congruence(v@, xs@);
            }
            Type { kind: TypeKind::Tuple(v), meta: t.meta }
        }
        TypeKind::Array(e) => Type { kind: TypeKind::Array(Box::new(clone_type(e))), meta: t.meta },
        TypeKind::Ref { name, args } => {
            let v = clone_type_list(t, args);
            proof {
                lemma_view_list_congruence(v@, args@);
            }
            Type { kind: TypeKind::Ref { name: *name, args: v }, meta: t.meta }
        }
        TypeKind::Query(n) => Type { kind: TypeKind::Query(*n), meta: t.meta },
        TypeKind::Mapped { param } => Type {
            kind: TypeKind::Mapped { param: clone_param(t, param) },
            meta: t.meta,
        },
        TypeKind::Keyof(e) => Type { kind: TypeKind::Keyof(Box::new(clone_type(e))), meta: t.meta },
        TypeKind::Param(param) => Type {
            kind: TypeKind::Param(clone_param(t, param)),
            meta: t.meta,
        },
        TypeKind::TypeLit(xs) => {
            let v = clone_elem_list(t, xs);
            proof {
                lemma_view_elem_list_congruence(v@, xs@);
            }
            Type { kind: TypeKind::TypeLit(v), meta: t.meta }
        }
        TypeKind::Interface { name, body, parents } => {
            let vb = clone_elem_list(t, body);
            let vp = clone_type_list(t, parents);
            proof {
                lemma_view_elem_list_congruence(vb@, body@);
                lemma_view_list_congruence(vp@, parents@);
            }
            Type { kind: TypeKind::Interface { name: *name, body: vb, parents: vp }, meta: t.meta }
        }
        TypeKind::Class { def } => Type { kind: TypeKind::Class { def: *def }, meta: t.meta },
        TypeKind::ClassDef { def } => Type { kind: TypeKind::ClassDef { def: *def }, meta: t.meta },
        TypeKind::Enum { id } => Type { kind: TypeKind::Enum { id: *id }, meta: t.meta },
        TypeKind::EnumVariant { enum_name, variant } => Type {
            kind: TypeKind::EnumVariant { enum_name: *enum_name, variant: *variant },
            meta: t.meta,
        },
        TypeKind::Module { id } => Type { kind: TypeKind::Module { id: *id }, meta: t.meta },
    }
}

/// Two type lists with pointwise equal views have equal list views.
pub proof fn lemma_view_list_congruence(a: Seq<Type>, b: Seq<Type>)
    requires
        a.len() == b.len(),
        forall|i: int| 0 <= i < a.len() ==> (#[trigger] a[i])@ == b[i]@,
    ensures
        view_ty_list(a) == view_ty_list(b),
    decreases a,
{
    if a.len() > 0 {
        lemma_view_list_congruence(a.drop_last(), b.drop_last());
        assert(view_ty_list(a) =~= view_ty_list(b));
    } else {
        assert(view_ty_list(a) =~= view_ty_list(b));
    }
}

/// Two member lists with pointwise equal views have equal list views.
pub proof fn lemma_view_elem_list_congruence(a: Seq<TypeElement>, b: Seq<TypeElement>)
    requires
        a.len() == b.len(),
        forall|i: int| 0 <= i < a.len() ==> (#[trigger] a[i])@ == b[i]@,
    ensures
        view_elem_list(a) == view_elem_list(b),
    decreases a,
{
    if a.len() > 0 {
        lemma_view_elem_list_congruence(a.drop_last(), b.drop_last());
        assert(view_elem_list(a) =~= view_elem_list(b));
    } else {
        assert(view_elem_list(a) =~= view_elem_list(b));
    }
}

fn clone_type_list(owner: &Type, xs: &Vec<Type>) -> (r: Vec<Type>)
    requires
        forall|i: int| 0 <= i < xs@.len() ==> decreases_to!(*owner => xs@[i]),
    ensures
        r@.len() == xs@.len(),
        forall|i: int| 0 <= i < xs@.len() ==> (#[trigger] r@[i])@ == xs@[i]@,
    decreases *owner, 0int,
{
    let mut out: Vec<Type> = Vec::new();
    let n = xs.len();
    for i in 0..n
        invariant
            n == xs@.len(),
            forall|i: int| 0 <= i < xs@.len() ==> decreases_to!(*owner => xs@[i]),
            out@.len() == i,
            forall|j: int| 0 <= j < i ==> (#[trigger] out@[j])@ == xs@[j]@,
    {
        out.push(clone_type(&xs[i]));
    }
    out
}

fn clone_param(owner: &Type, p: &TypeParamDecl) -> (r: TypeParamDecl)
    requires
        decreases_to!(*owner => *p),
    ensures
        view_param(r) == view_param(*p),
    decreases *owner, 0int,
{
    let constraint = match &p.constraint {
        Some(c) => Some(Box::new(clone_type(c))),
        None => None,
    };
    TypeParamDecl { name: p.name, constraint }
}

fn clone_elem_list(owner: &Type, xs: &Vec<TypeElement>) -> (r: Vec<TypeElement>)
    requires
        forall|i: int| 0 <= i < xs@.len() ==> decreases_to!(*owner => xs@[i]),
    ensures
        r@.len() == xs@.len(),
        forall|i: int| 0 <= i < xs@.len() ==> (#[trigger] r@[i])@ == xs@[i]@,
    decreases *owner, 0int,
{
    let mut out: Vec<TypeElement> = Vec::new();
    let n = xs.len();
    for i in 0..n
        invariant
            n == xs@.len(),
            forall|i: int| 0 <= i < xs@.len() ==> decreases_to!(*owner => xs@[i]),
            out@.len() == i,
            forall|j: int| 0 <= j < i ==> (#[trigger] out@[j])@ == xs@[j]@,
    {
        let e = match &xs[i] {
            TypeElement::Property { key, ty } => TypeElement::Property {
                key: *key,
                ty: clone_type(ty),
            },
            TypeElement::Constructor { ret } => TypeElement::Constructor {
                ret: match ret {
                    Some(rt) => Some(Box::new(clone_type(rt))),
                    None => None,
                },
            },
            TypeElement::Other => TypeElement::Other,
        };
        out.push(e);
    }
    out
}

impl Clone for Type {
    /// Deep copy; the clone denotes the same type value.
    fn clone(&self) -> (r: Self)
        ensures
            r@ == self@,
    {
        clone_type(self)
    }
}

} // verus!
