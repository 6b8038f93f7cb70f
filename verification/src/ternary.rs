use vstd::prelude::*;
use crate::error::ErrorKind;
use crate::span::Span;
use crate::types::{
    clone_type, eq_type, lemma_view_ty_list, type_eq, view_ty_list, KeywordKind, TyKindV, TyV,
    Type, TypeKind, TypeMeta,
};
use crate::union::{dedup_types, dedup_v, flatten_members, new_union, new_union_v};

verus! {

/// A table of answers from the external subtype oracle: `ext[i][j]` is
/// `extends(candidate i, candidate j)`, `None` when the oracle could not
/// decide.  The oracle itself is outside the core; the adjustment is
/// verified for every table.
pub type ExtendsTable = Vec<Vec<Option<bool>>>;

pub open spec fn table_wf(ext: Seq<Seq<Option<bool>>>, rows: nat, cols: nat) -> bool {
    ext.len() == rows && forall|i: int| 0 <= i < ext.len() ==> (#[trigger] ext[i]).len() == cols
}

/// Candidates that never take part in downcasting: literals and `null`.
pub open spec fn needs_work(t: TyV) -> bool {
    !(t.kind is Lit || t.is_kwd(KeywordKind::Null))
}

/// Does the downcast pass drop member `ai`?  A workable member is dropped
/// exactly when some other workable, structurally different member extends
/// it per the oracle; equal members are passed over, and the oracle
/// answering `None` or `Some(false)` never drops.
pub open spec fn downcast_drops(ms: Seq<TyV>, ext: Seq<Seq<Option<bool>>>, ai: int) -> bool {
    needs_work(ms[ai]) && exists|bi: int|
        0 <= bi < ms.len() && bi != ai && needs_work(#[trigger] ms[bi]) && !type_eq(
            ms[bi],
            ms[ai],
        ) && ext[bi][ai] == Some(true)
}

/// The members the downcast pass keeps, in order.
pub open spec fn downcast_kept(ms: Seq<TyV>, ext: Seq<Seq<Option<bool>>>, upto: int) -> Seq<TyV>
    decreases upto,
{
    if upto <= 0 {
        Seq::empty()
    } else {
        downcast_kept(ms, ext, upto - 1) + (if downcast_drops(ms, ext, upto - 1) {
            Seq::<TyV>::empty()
        } else {
            seq![ms[upto - 1]]
        })
    }
}

fn exec_needs_work(t: &Type) -> (r: bool)
    ensures
        r == needs_work(t@),
{
    !(matches!(t.kind, TypeKind::Lit(..)) || t.is_kwd(KeywordKind::Null))
}

impl crate::analyzer::Analyzer {
    /// Keep the narrowest candidates: drop a member when the oracle says
    /// some other workable, structurally different member extends it.  When
    /// everything would be dropped the candidates all merge, and the input
    /// comes back unchanged.
    pub fn downcast_types(&self, span: Span, types: Vec<Type>, ext: &ExtendsTable) -> (r: Result<
        Vec<Type>,
        ErrorKind,
    >)
        requires
            table_wf(
                ext@.map_values(|row: Vec<Option<bool>>| row@),
                crate::union::umembers_list(view_ty_list(types@)).len(),
                crate::union::umembers_list(view_ty_list(types@)).len(),
            ),
        ensures
            r matches Ok(out) && {
                let ms = crate::union::umembers_list(view_ty_list(types@));
                let extv = ext@.map_values(|row: Vec<Option<bool>>| row@);
                let kept = downcast_kept(ms, extv, ms.len() as int);
                if kept.len() == 0 {
                    view_ty_list(out@) == view_ty_list(types@)
                } else {
                    view_ty_list(out@) == kept
                }
            },
    {
        let ghost extv = ext@.map_values(|row: Vec<Option<bool>>| row@);
        let flat = flatten_all(&types);
        let ghost ms = crate::union::umembers_list(view_ty_list(types@));
        proof {
            lemma_view_ty_list(flat@);
        }
        let n = flat.len();
        let mut kept: Vec<Type> = Vec::new();
        proof {
            assert(view_ty_list(kept@) =~= downcast_kept(ms, extv, 0));
            assert forall|k: int| 0 <= k < ext@.len() implies extv[k] == (#[trigger] ext@[k])@ by {}
            assert forall|k: int|
                0 <= k < ext@.len() implies (#[trigger] ext@[k])@.len() == n by {
                assert(extv[k] == ext@[k]@);
            }
        }
        for ai in 0..n
            invariant
                n == flat@.len(),
                ms == crate::union::umembers_list(view_ty_list(types@)),
                extv == ext@.map_values(|row: Vec<Option<bool>>| row@),
                table_wf(extv, ms.len(), ms.len()),
                view_ty_list(flat@) == ms,
                ms.len() == n,
                ext@.len() == n,
                forall|k: int| 0 <= k < flat@.len() ==> #[trigger] flat@[k]@ == ms[k],
                forall|k: int| 0 <= k < ext@.len() ==> (#[trigger] ext@[k])@.len() == n,
                forall|k: int| 0 <= k < ext@.len() ==> extv[k] == (#[trigger] ext@[k])@,
                view_ty_list(kept@) == downcast_kept(ms, extv, ai as int),
        {
            let dropped: bool = if exec_needs_work(&flat[ai]) {
                let mut found = false;
                for bi in 0..n
                    invariant
                        n == flat@.len(),
                        ai < n,
                        ms == crate::union::umembers_list(view_ty_list(types@)),
                        extv == ext@.map_values(|row: Vec<Option<bool>>| row@),
                        view_ty_list(flat@) == ms,
                        ms.len() == n,
                        ext@.len() == n,
                        forall|k: int| 0 <= k < flat@.len() ==> #[trigger] flat@[k]@ == ms[k],
                        forall|k: int| 0 <= k < ext@.len() ==> (#[trigger] ext@[k])@.len() == n,
                        forall|k: int| 0 <= k < ext@.len() ==> extv[k] == (#[trigger] ext@[k])@,
                        found ==> downcast_drops(ms, extv, ai as int),
                        !found ==> forall|q: int|
                            0 <= q < bi ==> !(q != ai && needs_work(#[trigger] ms[q]) && !type_eq(
                                ms[q],
                                ms[ai as int],
                            ) && extv[q][ai as int] == Some(true)),
                        needs_work(ms[ai as int]),
                {
                    if !found && bi != ai && exec_needs_work(&flat[bi]) && !eq_type(
                        &flat[bi],
                        &flat[ai],
                    ) {
                        let ans = ext[bi][ai];
                        if ans == Some(true) {
                            found = true;
                            proof {
                                assert(extv[bi as int][ai as int] == Some(true));
                                assert(downcast_drops(ms, extv, ai as int));
                            }
                        } else {
                            proof {
                                assert(extv[bi as int][ai as int] != Some(true));
                            }
                        }
                    }
                }
                proof {
                    if !found {
                        assert(!downcast_drops(ms, extv, ai as int));
                    }
                }
                found
            } else {
                proof {
                    assert(!downcast_drops(ms, extv, ai as int));
                }
                false
            };
            if !dropped {
                let ghost pre = kept@;
                kept.push(clone_type(&flat[ai]));
                proof {
                    assert(kept@.drop_last() =~= pre);
                    assert(view_ty_list(kept@) =~= view_ty_list(pre).push(ms[ai as int]));
                    assert(downcast_kept(ms, extv, ai + 1) =~= downcast_kept(
                        ms,
                        extv,
                        ai as int,
                    ).push(ms[ai as int]));
                }
            } else {
                proof {
                    assert(downcast_kept(ms, extv, ai + 1) =~= downcast_kept(
                        ms,
                        extv,
                        ai as int,
                    ));
                }
            }
        }
        if kept.len() == 0 {
            Ok(types)
        } else {
            Ok(kept)
        }
    }
}

/// Flatten the union spines of every candidate into one member list.
pub fn flatten_all(types: &Vec<Type>) -> (r: Vec<Type>)
    ensures
        view_ty_list(r@) == crate::union::umembers_list(view_ty_list(types@)),
{
    proof {
        lemma_view_ty_list(types@);
    }
    let ghost vs = view_ty_list(types@);
    let mut out: Vec<Type> = Vec::new();
    let n = types.len();
    proof {
        assert(view_ty_list(out@) =~= crate::union::umembers_list(vs.take(0)));
    }
    for i in 0..n
        invariant
            n == types@.len(),
            vs == view_ty_list(types@),
            vs.len() == n,
            forall|k: int| 0 <= k < types@.len() ==> #[trigger] types@[k]@ == vs[k],
            view_ty_list(out@) == crate::union::umembers_list(vs.take(i as int)),
    {
        let mut sub = flatten_members(&types[i]);
        proof {
            crate::union::lemma_view_ty_list_concat(out@, sub@);
            assert(vs.take(i + 1).drop_last() =~= vs.take(i as int));
            assert(vs.take(i + 1).last() == vs[i as int]);
        }
        out.append(&mut sub);
    }
    proof {
        assert(vs.take(n as int) =~= vs);
    }
    out
}

/// Does the widen pass drop member `ai`?  Candidates are scanned in order;
/// the member is dropped when the oracle says it extends some other
/// candidate (`extends(ai, b) = true`); `None` never drops.
pub open spec fn widen_drops(
    ms: Seq<TyV>,
    outer: Seq<TyV>,
    ext: Seq<Seq<Option<bool>>>,
    ai: int,
    bi: int,
) -> bool
    decreases outer.len() - bi,
{
    if bi < 0 || bi >= outer.len() {
        false
    } else if bi == ai {
        widen_drops(ms, outer, ext, ai, bi + 1)
    } else if ext[ai][bi] == Some(true) {
        true
    } else {
        widen_drops(ms, outer, ext, ai, bi + 1)
    }
}

pub open spec fn widen_kept(
    ms: Seq<TyV>,
    outer: Seq<TyV>,
    ext: Seq<Seq<Option<bool>>>,
    upto: int,
) -> Seq<TyV>
    decreases upto,
{
    if upto <= 0 {
        Seq::empty()
    } else {
        widen_kept(ms, outer, ext, upto - 1) + (if widen_drops(ms, outer, ext, upto - 1, 0) {
            Seq::<TyV>::empty()
        } else {
            seq![ms[upto - 1]]
        })
    }
}

impl crate::analyzer::Analyzer {
    /// Keep the widest candidates: drop a member when the oracle says it
    /// extends one of the other candidates.  `ext[i][j]` answers
    /// `extends(member i, candidate j)` over the flattened members against
    /// the candidate list itself; the index of a member is compared with the
    /// candidate's position, as the narrowing pass does.  When everything
    /// would be dropped the candidates all merge, and the input comes back
    /// unchanged.
    pub fn remove_child_types(&self, span: Span, types: Vec<Type>, ext: &ExtendsTable) -> (r:
        Result<Vec<Type>, ErrorKind>)
        requires
            table_wf(
                ext@.map_values(|row: Vec<Option<bool>>| row@),
                crate::union::umembers_list(view_ty_list(types@)).len(),
                types@.len(),
            ),
        ensures
            r matches Ok(out) && {
                let ms = crate::union::umembers_list(view_ty_list(types@));
                let extv = ext@.map_values(|row: Vec<Option<bool>>| row@);
                let kept = widen_kept(ms, view_ty_list(types@), extv, ms.len() as int);
                if kept.len() == 0 {
                    view_ty_list(out@) == view_ty_list(types@)
                } else {
                    view_ty_list(out@) == kept
                }
            },
    {
        let ghost extv = ext@.map_values(|row: Vec<Option<bool>>| row@);
        let flat = flatten_all(&types);
        let ghost ms = crate::union::umembers_list(view_ty_list(types@));
        let ghost outer = view_ty_list(types@);
        proof {
            lemma_view_ty_list(flat@);
            lemma_view_ty_list(types@);
        }
        let n = flat.len();
        let m = types.len();
        let mut kept: Vec<Type> = Vec::new();
        proof {
            assert(view_ty_list(kept@) =~= widen_kept(ms, outer, extv, 0));
            assert forall|k: int| 0 <= k < ext@.len() implies extv[k] == (#[trigger] ext@[k])@ by {}
            assert forall|k: int|
                0 <= k < ext@.len() implies (#[trigger] ext@[k])@.len() == m by {
                assert(extv[k] == ext@[k]@);
            }
        }
        for ai in 0..n
            invariant
                n == flat@.len(),
                m == types@.len(),
                ms == crate::union::umembers_list(view_ty_list(types@)),
                outer == view_ty_list(types@),
                outer.len() == m,
                extv == ext@.map_values(|row: Vec<Option<bool>>| row@),
                view_ty_list(flat@) == ms,
                ms.len() == n,
                ext@.len() == n,
                forall|k: int| 0 <= k < flat@.len() ==> #[trigger] flat@[k]@ == ms[k],
                forall|k: int| 0 <= k < ext@.len() ==> (#[trigger] ext@[k])@.len() == m,
                forall|k: int| 0 <= k < ext@.len() ==> extv[k] == (#[trigger] ext@[k])@,
                view_ty_list(kept@) == widen_kept(ms, outer, extv, ai as int),
        {
            let mut verdict = false;
            let mut decided = false;
            for bi in 0..m
                invariant
                    n == flat@.len(),
                    m == types@.len(),
                    ai < n,
                    ms == crate::union::umembers_list(view_ty_list(types@)),
                    outer == view_ty_list(types@),
                    outer.len() == m,
                    extv == ext@.map_values(|row: Vec<Option<bool>>| row@),
                    view_ty_list(flat@) == ms,
                    ms.len() == n,
                    ext@.len() == n,
                    forall|k: int| 0 <= k < ext@.len() ==> (#[trigger] ext@[k])@.len() == m,
                    forall|k: int| 0 <= k < ext@.len() ==> extv[k] == (#[trigger] ext@[k])@,
                    !decided ==> widen_drops(ms, outer, extv, ai as int, 0) == widen_drops(
                        ms,
                        outer,
                        extv,
                        ai as int,
                        bi as int,
                    ),
                    decided ==> verdict == widen_drops(ms, outer, extv, ai as int, 0),
            {
                if !decided {
                    if bi != ai {
                        let ans = ext[ai][bi];
                        if ans == Some(true) {
                            verdict = true;
                            decided = true;
                        } else {
                            proof {
                                assert(extv[ai as int][bi as int] != Some(true));
                            }
                        }
                    }
                }
            }
            let dropped = if decided {
                verdict
            } else {
                false
            };
            if !dropped {
                let ghost pre = kept@;
                kept.push(clone_type(&flat[ai]));
                proof {
                    assert(kept@.drop_last() =~= pre);
                    assert(view_ty_list(kept@) =~= view_ty_list(pre).push(ms[ai as int]));
                    assert(widen_kept(ms, outer, extv, ai + 1) =~= widen_kept(
                        ms,
                        outer,
                        extv,
                        ai as int,
                    ).push(ms[ai as int]));
                }
            } else {
                proof {
                    assert(widen_kept(ms, outer, extv, ai + 1) =~= widen_kept(
                        ms,
                        outer,
                        extv,
                        ai as int,
                    ));
                }
            }
        }
        if kept.len() == 0 {
            Ok(types)
        } else {
            Ok(kept)
        }
    }
}

/// The ternary candidate rewrite: every tuple becomes an array of the union
/// of its de-duplicated element types, frozen; everything else passes
/// through.
pub open spec fn rewrite_candidate_v(t: TyV) -> TyV {
    match t.kind {
        TyKindV::Tuple(elems) => TyV {
            kind: TyKindV::Array(
                Box::new(new_union_v(Span { lo: 0, hi: 0 }, dedup_v(elems))),
            ),
            meta: TypeMeta {
                span: t.meta.span,
                frozen: true,
                prevent_converting_to_children: t.meta.prevent_converting_to_children,
            },
        },
        _ => t,
    }
}

/// Rewrite every candidate for ternary adjustment; see
/// [`rewrite_candidate_v`].
pub fn rewrite_ternary_candidates(types: Vec<Type>) -> (r: Vec<Type>)
    ensures
        r@.len() == types@.len(),
        forall|i: int| 0 <= i < types@.len() ==> (#[trigger] r@[i])@ == rewrite_candidate_v(
            types@[i]@,
        ),
{
    let mut out: Vec<Type> = Vec::new();
    let n = types.len();
    for i in 0..n
        invariant
            n == types@.len(),
            out@.len() == i,
            forall|j: int| 0 <= j < i ==> (#[trigger] out@[j])@ == rewrite_candidate_v(
                types@[j]@,
            ),
    {
        let t = &types[i];
        let rewritten: Type = match &t.kind {
            TypeKind::Tuple(elems) => {
                let ghost ev = view_ty_list(elems@);
                let mut elem_copies: Vec<Type> = Vec::new();
                let en = elems.len();
                proof {
                    lemma_view_ty_list(elems@);
                }
                for j in 0..en
                    invariant
                        en == elems@.len(),
                        ev == view_ty_list(elems@),
                        ev.len() == en,
                        forall|k: int| 0 <= k < elems@.len() ==> #[trigger] elems@[k]@ == ev[k],
                        elem_copies@.len() == j,
                        forall|k: int| 0 <= k < j ==> (#[trigger] elem_copies@[k])@ == ev[k],
                {
                    elem_copies.push(clone_type(&elems[j]));
                }
                proof {
                    crate::types::lemma_view_list_congruence(elem_copies@, elems@);
                }
                let deduped = dedup_types(elem_copies);
                let elem_union = new_union(Span::dummy(), deduped);
                let meta = TypeMeta {
                    span: t.meta.span,
                    frozen: true,
                    prevent_converting_to_children: t.meta.prevent_converting_to_children,
                };
                Type { kind: TypeKind::Array(Box::new(elem_union)), meta }
            }
            _ => clone_type(t),
        };
        out.push(rewritten);
    }
    out
}

/// Do all flattened members of all candidates allow converting to children?
pub open spec fn all_convertible(ms: Seq<TyV>) -> bool {
    forall|i: int|
        0 <= i < ms.len() ==> !(#[trigger] ms[i]).meta.prevent_converting_to_children
}

/// Should the adjustment preserve the widest candidates?  Yes unless some
/// member carries the mark that prevents converting to children.
pub fn should_preserve_widest(types: &Vec<Type>) -> (r: bool)
    ensures
        r == all_convertible(crate::union::umembers_list(view_ty_list(types@))),
{
    let flat = flatten_all(types);
    proof {
        lemma_view_ty_list(flat@);
    }
    let ghost ms = crate::union::umembers_list(view_ty_list(types@));
    let n = flat.len();
    for i in 0..n
        invariant
            n == flat@.len(),
            ms == crate::union::umembers_list(view_ty_list(types@)),
            view_ty_list(flat@) == ms,
            ms.len() == n,
            forall|k: int| 0 <= k < flat@.len() ==> #[trigger] flat@[k]@ == ms[k],
            forall|k: int| 0 <= k < i ==> !(#[trigger] ms[k]).meta.prevent_converting_to_children,
    {
        let m = flat[i].meta();
        if m.prevent_converting_to_children {
            proof {
                assert(ms[i as int].meta.prevent_converting_to_children);
            }
            return false;
        }
    }
    true
}


impl crate::analyzer::Analyzer {
    /// Adjust the two branch types of a conditional expression, already
    /// rewritten by [`rewrite_ternary_candidates`]: when no member carries
    /// the mark that prevents converting to children, keep the widest
    /// candidates; otherwise keep the narrowest.  `ext_widen` answers the
    /// oracle's queries for the widen pass and `ext_downcast` for the
    /// downcast pass; only the selected table is consulted.
    pub fn adjust_ternary_type(
        &self,
        span: Span,
        types: Vec<Type>,
        ext_widen: &ExtendsTable,
        ext_downcast: &ExtendsTable,
    ) -> (r: Result<Vec<Type>, ErrorKind>)
        requires
            table_wf(
                ext_widen@.map_values(|row: Vec<Option<bool>>| row@),
                crate::union::umembers_list(view_ty_list(types@)).len(),
                types@.len(),
            ),
            table_wf(
                ext_downcast@.map_values(|row: Vec<Option<bool>>| row@),
                crate::union::umembers_list(view_ty_list(types@)).len(),
                crate::union::umembers_list(view_ty_list(types@)).len(),
            ),
        ensures
            r matches Ok(out) && {
                let ms = crate::union::umembers_list(view_ty_list(types@));
                let kept = if all_convertible(ms) {
                    widen_kept(
                        ms,
                        view_ty_list(types@),
                        ext_widen@.map_values(|row: Vec<Option<bool>>| row@),
                        ms.len() as int,
                    )
                } else {
                    downcast_kept(
                        ms,
                        ext_downcast@.map_values(|row: Vec<Option<bool>>| row@),
                        ms.len() as int,
                    )
                };
                if kept.len() == 0 {
                    view_ty_list(out@) == view_ty_list(types@)
                } else {
                    view_ty_list(out@) == kept
                }
            },
    {
        if should_preserve_widest(&types) {
            self.remove_child_types(span, types, ext_widen)
        } else {
            self.downcast_types(span, types, ext_downcast)
        }
    }
}


/// The same type value at another span.
pub open spec fn reposition_v(t: TyV, span: Span) -> TyV {
    TyV {
        kind: t.kind,
        meta: TypeMeta {
            span,
            frozen: t.meta.frozen,
            prevent_converting_to_children: t.meta.prevent_converting_to_children,
        },
    }
}

/// The two rewritten branch candidates of a conditional expression.
pub open spec fn cond_candidates_v(c: TyV, a: TyV) -> Seq<TyV> {
    seq![rewrite_candidate_v(c), rewrite_candidate_v(a)]
}

/// The candidates after adjustment: kept widest when every member converts
/// to children, kept narrowest otherwise; all merging leaves the candidates
/// as they were.
pub open spec fn adjusted_candidates_v(
    cv: Seq<TyV>,
    extw: Seq<Seq<Option<bool>>>,
    extd: Seq<Seq<Option<bool>>>,
) -> Seq<TyV> {
    let ms = crate::union::umembers_list(cv);
    if all_convertible(ms) {
        let k = widen_kept(ms, cv, extw, ms.len() as int);
        if k.len() == 0 {
            cv
        } else {
            k
        }
    } else {
        let k = downcast_kept(ms, extd, ms.len() as int);
        if k.len() == 0 {
            cv
        } else {
            k
        }
    }
}

/// The type of a conditional expression from its two branch types: the
/// branches' common type when they are structurally equal; otherwise the
/// canonicalized union of the rewritten candidates, adjusted unless a type
/// annotation fixed the expected type, re-attached to the whole expression's
/// span.
pub open spec fn cond_type_v(
    c: TyV,
    a: TyV,
    has_type_ann: bool,
    extw: Seq<Seq<Option<bool>>>,
    extd: Seq<Seq<Option<bool>>>,
    span: Span,
) -> TyV {
    if type_eq(c, a) {
        c
    } else {
        let cv = cond_candidates_v(c, a);
        let chosen = if has_type_ann {
            cv
        } else {
            adjusted_candidates_v(cv, extw, extd)
        };
        reposition_v(crate::union::fix_v(new_union_v(span, chosen)), span)
    }
}

impl crate::analyzer::Analyzer {
    /// Combine the two branch types of a conditional expression; see
    /// [`cond_type_v`].  The branches were evaluated by the surrounding
    /// visitor under the test's two fact sides; the oracle tables answer the
    /// adjustment's subtype queries over the rewritten candidates.
    pub fn cond_type(
        &self,
        span: Span,
        cons: Type,
        alt: Type,
        has_type_ann: bool,
        ext_widen: &ExtendsTable,
        ext_downcast: &ExtendsTable,
    ) -> (r: Type)
        requires
            table_wf(
                ext_widen@.map_values(|row: Vec<Option<bool>>| row@),
                crate::union::umembers_list(cond_candidates_v(cons@, alt@)).len(),
                2,
            ),
            table_wf(
                ext_downcast@.map_values(|row: Vec<Option<bool>>| row@),
                crate::union::umembers_list(cond_candidates_v(cons@, alt@)).len(),
                crate::union::umembers_list(cond_candidates_v(cons@, alt@)).len(),
            ),
        ensures
            r@ == cond_type_v(
                cons@,
                alt@,
                has_type_ann,
                ext_widen@.map_values(|row: Vec<Option<bool>>| row@),
                ext_downcast@.map_values(|row: Vec<Option<bool>>| row@),
                span,
            ),
    {
        let ghost cv0 = cons@;
        let ghost av0 = alt@;
        if eq_type(&cons, &alt) {
            return cons;
        }
        let mut cands: Vec<Type> = Vec::new();
        cands.push(cons);
        cands.push(alt);
        let rewritten = rewrite_ternary_candidates(cands);
        proof {
            lemma_view_ty_list(rewritten@);
            assert(view_ty_list(rewritten@) =~= cond_candidates_v(cv0, av0));
        }
        let new_types: Vec<Type> = if has_type_ann {
            rewritten
        } else {
            match self.adjust_ternary_type(span, rewritten, ext_widen, ext_downcast) {
                Ok(v) => v,
                Err(e) => {
                    proof {
                        assert(false);
                    }
                    Vec::new()
                }
            }
        };
        let u = new_union(span, new_types).fixed().reposition(span);
        proof {
            assert(u@ == cond_type_v(
                cv0,
                av0,
                has_type_ann,
                ext_widen@.map_values(|row: Vec<Option<bool>>| row@),
                ext_downcast@.map_values(|row: Vec<Option<bool>>| row@),
                span,
            ));
        }
        u
    }
}


} // verus!
