use vstd::prelude::*;
use crate::span::Span;
use crate::types::{
    clone_type, eq_type, lemma_type_eq_refl, lemma_view_ty_list, type_eq, valid, view_ty_list,
    KeywordKind, LitValue, TyKindV, TyV, Type, TypeKind, TypeMeta,
};

verus! {

/// The flattened members of a type's union spine: the type itself when it is
/// not a union, otherwise the members of all nested unions, in order.
pub open spec fn umembers(t: TyV) -> Seq<TyV>
    decreases t,
{
    match t.kind {
        TyKindV::Union(xs) => umembers_list(xs),
        _ => seq![t],
    }
}

pub open spec fn umembers_list(s: Seq<TyV>) -> Seq<TyV>
    decreases s,
{
    if s.len() == 0 {
        Seq::empty()
    } else {
        umembers_list(s.drop_last()) + umembers(s.last())
    }
}

/// Some member of `ys` equals `x`, structurally.
pub open spec fn covered_by(x: TyV, ys: Seq<TyV>) -> bool {
    exists|j: int| 0 <= j < ys.len() && type_eq(x, #[trigger] ys[j])
}

/// Every member of `xs` equals some member of `ys`, structurally.
pub open spec fn covers(xs: Seq<TyV>, ys: Seq<TyV>) -> bool {
    forall|i: int| 0 <= i < xs.len() ==> covered_by(#[trigger] xs[i], ys)
}

/// Semantic equivalence of two types up to type-equality of union members:
/// each side's flattened members cover the other's.
pub open spec fn tequiv(a: TyV, b: TyV) -> bool {
    covers(umembers(a), umembers(b)) && covers(umembers(b), umembers(a))
}

/// A value fit for a fact store: cheap to clone itself, or a union all of
/// whose flattened members are cheap to clone.
pub open spec fn cheap_stored(t: TyV) -> bool {
    if t.kind is Union {
        forall|i: int| 0 <= i < umembers(t).len() ==> (#[trigger] umembers(t)[i]).is_clone_cheap()
    } else {
        t.is_clone_cheap()
    }
}

/// Every list covers itself.
pub proof fn lemma_covers_refl(s: Seq<TyV>)
    ensures
        covers(s, s),
{
    assert forall|i: int| 0 <= i < s.len() implies covered_by(#[trigger] s[i], s) by {
        lemma_type_eq_refl(s[i]);
        assert(type_eq(s[i], s[i]));
    }
}

/// Semantic equivalence is reflexive.
pub proof fn lemma_tequiv_refl(t: TyV)
    ensures
        tequiv(t, t),
{
    lemma_covers_refl(umembers(t));
}

/// Concatenation distributes over member flattening.
pub proof fn lemma_umembers_list_concat(a: Seq<TyV>, b: Seq<TyV>)
    ensures
        umembers_list(a + b) == umembers_list(a) + umembers_list(b),
    decreases b,
{
    if b.len() == 0 {
        assert(a + b =~= a);
        assert(umembers_list(a) + umembers_list(b) =~= umembers_list(a));
    } else {
        lemma_umembers_list_concat(a, b.drop_last());
        assert((a + b).drop_last() =~= a + b.drop_last());
        assert((a + b).last() == b.last());
        assert(umembers_list(a) + umembers_list(b) =~= umembers_list(a) + umembers_list(
            b.drop_last(),
        ) + umembers(b.last()));
    }
}

/// A list of non-union types flattens to itself.
pub proof fn lemma_umembers_list_flat(s: Seq<TyV>)
    requires
        forall|i: int| 0 <= i < s.len() ==> !(#[trigger] s[i]).is_union(),
    ensures
        umembers_list(s) == s,
    decreases s,
{
    if s.len() == 0 {
        assert(umembers_list(s) =~= s);
    } else {
        lemma_umembers_list_flat(s.drop_last());
        assert(!s.last().is_union());
        assert(umembers(s.last()) =~= seq![s.last()]);
        assert(umembers_list(s) =~= s);
    }
}

/// Flattened members are never themselves unions.
pub proof fn lemma_umembers_not_union(t: TyV)
    ensures
        forall|i: int| 0 <= i < umembers(t).len() ==> !(#[trigger] umembers(t)[i]).is_union(),
    decreases t,
{
    match t.kind {
        TyKindV::Union(xs) => {
            lemma_umembers_list_not_union(xs);
            assert forall|i: int|
                0 <= i < umembers(t).len() implies !(#[trigger] umembers(t)[i]).is_union() by {
                assert(umembers(t)[i] == umembers_list(xs)[i]);
            }
        }
        _ => {
            assert(umembers(t) =~= seq![t]);
        }
    }
}

pub proof fn lemma_umembers_list_not_union(s: Seq<TyV>)
    ensures
        forall|i: int|
            0 <= i < umembers_list(s).len() ==> !(#[trigger] umembers_list(s)[i]).is_union(),
    decreases s,
{
    if s.len() > 0 {
        lemma_umembers_list_not_union(s.drop_last());
        lemma_umembers_not_union(s.last());
        let left = umembers_list(s.drop_last());
        let right = umembers(s.last());
        assert forall|i: int|
            0 <= i < umembers_list(s).len() implies !(#[trigger] umembers_list(s)[i]).is_union() by {
            if i < left.len() {
                assert(umembers_list(s)[i] == left[i]);
            } else {
                assert(umembers_list(s)[i] == right[i - left.len()]);
            }
        }
    }
}

/// Members of a valid type are valid non-unions, and there is at least one.
pub proof fn lemma_umembers_valid(t: TyV)
    requires
        valid(t),
    ensures
        umembers(t).len() >= 1,
        forall|i: int| 0 <= i < umembers(t).len() ==> !(#[trigger] umembers(t)[i]).is_union(),
        forall|i: int| 0 <= i < umembers(t).len() ==> valid(#[trigger] umembers(t)[i]),
    decreases t,
{
    match t.kind {
        TyKindV::Union(xs) => {
            lemma_umembers_list_valid(xs);
        }
        _ => {}
    }
}

pub proof fn lemma_umembers_list_valid(s: Seq<TyV>)
    requires
        forall|i: int| 0 <= i < s.len() ==> valid(#[trigger] s[i]),
    ensures
        umembers_list(s).len() >= s.len(),
        forall|i: int|
            0 <= i < umembers_list(s).len() ==> !(#[trigger] umembers_list(s)[i]).is_union(),
        forall|i: int| 0 <= i < umembers_list(s).len() ==> valid(#[trigger] umembers_list(s)[i]),
    decreases s,
{
    if s.len() > 0 {
        assert(forall|i: int| 0 <= i < s.len() - 1 ==> s.drop_last()[i] == #[trigger] s[i]);
        lemma_umembers_list_valid(s.drop_last());
        lemma_umembers_valid(s.last());
    }
}

/// The flattened members of every cheap-stored value are cheap to clone.
pub proof fn lemma_cheap_stored_members(t: TyV)
    requires
        cheap_stored(t),
    ensures
        forall|i: int| 0 <= i < umembers(t).len() ==> (#[trigger] umembers(t)[i]).is_clone_cheap(),
{
    if !(t.kind is Union) {
        assert(umembers(t) =~= seq![t]);
    }
}

/// Collect the flattened members of the union spine of `t`, as fresh values.
pub fn flatten_members(t: &Type) -> (r: Vec<Type>)
    ensures
        view_ty_list(r@) == umembers(t@),
    decreases *t,
{
    match &t.kind {
        TypeKind::Union(xs) => {
            proof {
                lemma_view_ty_list(xs@);
            }
            let mut out: Vec<Type> = Vec::new();
            assert(view_ty_list(out@) =~= umembers_list(view_ty_list(xs@).take(0)));
            let n = xs.len();
            for i in 0..n
                invariant
                    n == xs@.len(),
                    forall|k: int| 0 <= k < xs@.len() ==> decreases_to!(*t => xs@[k]),
                    forall|k: int|
                        0 <= k < xs@.len() ==> #[trigger] view_ty_list(xs@)[k] == xs@[k]@,
                    view_ty_list(xs@).len() == xs@.len(),
                    view_ty_list(out@) == umembers_list(view_ty_list(xs@).take(i as int)),
            {
                let mut sub = flatten_members(&xs[i]);
                proof {
                    lemma_view_ty_list_concat(out@, sub@);
                    let vs = view_ty_list(xs@);
                    assert(vs.take(i + 1).drop_last() =~= vs.take(i as int));
                    assert(vs.take(i + 1).last() == vs[i as int]);
                }
                out.append(&mut sub);
            }
            proof {
                assert(view_ty_list(xs@).take(n as int) =~= view_ty_list(xs@));
            }
            out
        }
        _ => {
            let mut out: Vec<Type> = Vec::new();
            out.push(clone_type(t));
            proof {
                assert(out@.drop_last() =~= Seq::<Type>::empty());
                assert(view_ty_list(Seq::<Type>::empty()) =~= Seq::<TyV>::empty());
                assert(view_ty_list(out@) =~= seq![t@]);
            }
            out
        }
    }
}

/// The view of a concatenation is the concatenation of the views.
pub proof fn lemma_view_ty_list_concat(a: Seq<Type>, b: Seq<Type>)
    ensures
        view_ty_list(a + b) == view_ty_list(a) + view_ty_list(b),
    decreases b,
{
    if b.len() == 0 {
        assert(a + b =~= a);
        assert(view_ty_list(a) + view_ty_list(b) =~= view_ty_list(a));
    } else {
        lemma_view_ty_list_concat(a, b.drop_last());
        assert((a + b).drop_last() =~= a + b.drop_last());
        assert((a + b).last() == b.last());
        assert(view_ty_list(a + b) =~= view_ty_list(a) + view_ty_list(b));
    }
}

/// The value [`new_union`] yields: no member gives `never`, one member gives
/// that member, more give a union node.
pub open spec fn new_union_v(span: Span, vs: Seq<TyV>) -> TyV {
    if vs.len() == 0 {
        TyV {
            kind: TyKindV::Keyword(KeywordKind::Never),
            meta: TypeMeta { span, frozen: false, prevent_converting_to_children: false },
        }
    } else if vs.len() == 1 {
        vs[0]
    } else {
        TyV {
            kind: TyKindV::Union(vs),
            meta: TypeMeta { span, frozen: false, prevent_converting_to_children: false },
        }
    }
}

/// Build a union type from a member list: empty gives `never`, a single
/// member passes through, anything longer becomes a union node.
pub fn new_union(span: Span, types: Vec<Type>) -> (r: Type)
    ensures
        r@ == new_union_v(span, view_ty_list(types@)),
{
    proof {
        lemma_view_ty_list(types@);
    }
    if types.len() == 0 {
        Type::never(span)
    } else if types.len() == 1 {
        let mut types = types;
        let ghost orig = types@;
        let single = types.pop().unwrap();
        proof {
            assert(single@ == view_ty_list(orig)[0]);
        }
        single
    } else {
        Type { kind: TypeKind::Union(types), meta: TypeMeta::at(span) }
    }
}

/// Merge two types for a parallel join: the union of the two, at the left
/// type's span.
pub fn or_type(l: Type, r: Type) -> (o: Type)
    ensures
        o@.kind == TyKindV::Union(seq![l@, r@]),
        o@.meta == (TypeMeta {
            span: l@.meta.span,
            frozen: false,
            prevent_converting_to_children: false,
        }),
        umembers(o@) == umembers(l@) + umembers(r@),
        valid(l@) && valid(r@) ==> valid(o@),
        cheap_stored(l@) && cheap_stored(r@) ==> cheap_stored(o@),
{
    let span = l.span();
    let mut types: Vec<Type> = Vec::new();
    types.push(l);
    types.push(r);
    let o = Type { kind: TypeKind::Union(types), meta: TypeMeta::at(span) };
    proof {
        let lv = types@[0]@;
        let rv = types@[1]@;
        assert(types@.drop_last().drop_last() =~= Seq::<Type>::empty());
        assert(view_ty_list(Seq::<Type>::empty()) =~= Seq::<TyV>::empty());
        assert(view_ty_list(types@.drop_last()) =~= seq![lv]);
        assert(view_ty_list(types@) =~= seq![lv, rv]);
        let vs = seq![lv, rv];
        assert(vs.drop_last() =~= seq![lv]);
        assert(seq![lv].drop_last() =~= Seq::<TyV>::empty());
        assert(umembers_list(Seq::<TyV>::empty()) =~= Seq::<TyV>::empty());
        assert(umembers_list(seq![lv]) =~= umembers(lv));
        assert(umembers_list(vs) =~= umembers(lv) + umembers(rv));
        if cheap_stored(lv) && cheap_stored(rv) {
            lemma_cheap_stored_members(lv);
            lemma_cheap_stored_members(rv);
            assert forall|i: int|
                0 <= i < umembers(o@).len() implies (
            #[trigger] umembers(o@)[i]).is_clone_cheap() by {
                if i < umembers(lv).len() {
                    assert(umembers(o@)[i] == umembers(lv)[i]);
                } else {
                    assert(umembers(o@)[i] == umembers(rv)[i - umembers(lv).len()]);
                }
            }
        }
    }
    o
}

/// The value [`fixed`] yields: a non-union is untouched; a union is
/// flattened, an empty one collapsing to `never` and a singleton to its only
/// member.
pub open spec fn fix_v(v: TyV) -> TyV {
    if !(v.kind is Union) {
        v
    } else {
        let ms = umembers(v);
        if ms.len() == 0 {
            TyV { kind: TyKindV::Keyword(KeywordKind::Never), meta: v.meta }
        } else if ms.len() == 1 {
            ms[0]
        } else {
            TyV { kind: TyKindV::Union(ms), meta: v.meta }
        }
    }
}

impl Type {
    /// Canonicalize the union spine: flatten nested unions, collapse a
    /// singleton, turn an empty union into `never`.
    pub fn fixed(self) -> (r: Type)
        ensures
            r@ == fix_v(self@),
    {
        if !self.is_union() {
            return self;
        }
        let mut ms = flatten_members(&self);
        proof {
            lemma_view_ty_list(ms@);
        }
        if ms.len() == 0 {
            Type { kind: TypeKind::Keyword(KeywordKind::Never), meta: self.meta }
        } else if ms.len() == 1 {
            let single = ms.pop().unwrap();
            proof {
                assert(single@ == umembers(self@)[0]);
            }
            single
        } else {
            Type { kind: TypeKind::Union(ms), meta: self.meta }
        }
    }
}

/// Is there a member of `out` structurally equal to `x`?
pub open spec fn contains_eq(out: Seq<TyV>, x: TyV) -> bool {
    exists|j: int| 0 <= j < out.len() && type_eq(out[j], x)
}

/// The value [`dedup_types`] yields: each element is dropped when an element
/// structurally equal to it was already kept.
pub open spec fn dedup_v(s: Seq<TyV>) -> Seq<TyV>
    decreases s,
{
    if s.len() == 0 {
        Seq::empty()
    } else {
        let d = dedup_v(s.drop_last());
        if contains_eq(d, s.last()) {
            d
        } else {
            d.push(s.last())
        }
    }
}

fn vec_contains_eq(out: &Vec<Type>, x: &Type) -> (r: bool)
    ensures
        r == contains_eq(view_ty_list(out@), x@),
{
    proof {
        lemma_view_ty_list(out@);
    }
    let n = out.len();
    for j in 0..n
        invariant
            n == out@.len(),
            view_ty_list(out@).len() == n,
            forall|k: int| 0 <= k < out@.len() ==> #[trigger] view_ty_list(out@)[k] == out@[k]@,
            forall|k: int| 0 <= k < j ==> !type_eq(#[trigger] view_ty_list(out@)[k], x@),
    {
        if eq_type(&out[j], x) {
            proof {
                assert(type_eq(view_ty_list(out@)[j as int], x@));
            }
            return true;
        }
    }
    false
}

/// Drop every element that repeats, structurally, an element kept before it.
pub fn dedup_types(xs: Vec<Type>) -> (r: Vec<Type>)
    ensures
        view_ty_list(r@) == dedup_v(view_ty_list(xs@)),
{
    proof {
        lemma_view_ty_list(xs@);
    }
    let mut out: Vec<Type> = Vec::new();
    let n = xs.len();
    assert(view_ty_list(out@) =~= dedup_v(view_ty_list(xs@).take(0)));
    for i in 0..n
        invariant
            n == xs@.len(),
            view_ty_list(xs@).len() == n,
            forall|k: int| 0 <= k < xs@.len() ==> #[trigger] view_ty_list(xs@)[k] == xs@[k]@,
            view_ty_list(out@) == dedup_v(view_ty_list(xs@).take(i as int)),
    {
        let ghost pre = view_ty_list(xs@).take(i as int);
        proof {
            assert(view_ty_list(xs@).take(i + 1).drop_last() =~= pre);
            assert(view_ty_list(xs@).take(i + 1).last() == xs@[i as int]@);
        }
        if !vec_contains_eq(&out, &xs[i]) {
            let ghost old_out = out@;
            out.push(clone_type(&xs[i]));
            proof {
                assert(out@.drop_last() =~= old_out);
                assert(view_ty_list(out@) =~= view_ty_list(old_out).push(xs@[i as int]@));
            }
        }
    }
    proof {
        assert(view_ty_list(xs@).take(n as int) =~= view_ty_list(xs@));
    }
    out
}

/// A string-like type: the `string` keyword, a string literal, or a union
/// whose flattened members are all string-like.
pub open spec fn str_or_union(t: TyV) -> bool {
    match t.kind {
        TyKindV::Keyword(KeywordKind::Str) => true,
        TyKindV::Lit(LitValue::Str(..)) => true,
        TyKindV::Union(..) => forall|i: int|
            0 <= i < umembers(t).len() ==> is_str_like(#[trigger] umembers(t)[i]),
        _ => false,
    }
}

pub open spec fn is_str_like(t: TyV) -> bool {
    t.kind matches TyKindV::Keyword(KeywordKind::Str) || t.kind matches TyKindV::Lit(
        LitValue::Str(..),
    )
}

/// Decide [`str_or_union`].
pub fn is_str_or_union(t: &Type) -> (r: bool)
    ensures
        r == str_or_union(t@),
{
    match &t.kind {
        TypeKind::Keyword(KeywordKind::Str) => true,
        TypeKind::Lit(LitValue::Str(..)) => true,
        TypeKind::Union(..) => {
            let ms = flatten_members(t);
            proof {
                lemma_view_ty_list(ms@);
            }
            let n = ms.len();
            for i in 0..n
                invariant
                    n == ms@.len(),
                    view_ty_list(ms@) == umembers(t@),
                    view_ty_list(ms@).len() == n,
                    forall|k: int|
                        0 <= k < ms@.len() ==> #[trigger] view_ty_list(ms@)[k] == ms@[k]@,
                    forall|k: int| 0 <= k < i ==> is_str_like(#[trigger] view_ty_list(ms@)[k]),
            {
                let ok = match &ms[i].kind {
                    TypeKind::Keyword(KeywordKind::Str) => true,
                    TypeKind::Lit(LitValue::Str(..)) => true,
                    _ => false,
                };
                proof {
                    assert(ok == is_str_like(ms@[i as int]@));
                }
                if !ok {
                    proof {
                        assert(!is_str_like(umembers(t@)[i as int]));
                    }
                    return false;
                }
            }
            proof {
                assert forall|k: int|
                    0 <= k < umembers(t@).len() implies is_str_like(
                    #[trigger] umembers(t@)[k],
                ) by {
                    assert(umembers(t@)[k] == view_ty_list(ms@)[k]);
                }
            }
            true
        }
        _ => false,
    }
}

} // verus!
