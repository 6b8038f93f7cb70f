use vstd::prelude::*;
use crate::analyzer::Analyzer;
use crate::ast::{
    pat_ids, pat_opt_list_ids, prop_ids, prop_list_ids, AssignOp, Expr, ExprKind, ObjectPatProp,
    Pat, PatKind, PatOrExpr, PropName,
};
use crate::cond_facts::stored_ok;
use crate::error::ErrorKind;
use crate::name::Id;
use crate::scope::{scope_lookup, var_info_ok, VarInfo, VarInfoV};
use crate::span::Span;
use crate::type_facts::{TypeFacts, FACT_NE_UNDEFINED_OR_NULL};
use crate::typeops::{
    access_property, apply_facts_v, apply_type_facts_to_type, assign, assign_with_op, assignable,
    frozen_top, get_element_from_iterator, get_iterator, get_rest_elements, is_assignable,
    narrowed_type_of_assignment, sanitize, lemma_apply_facts_stored,
};
use crate::types::{clone_type, KeywordKind, TyKindV, TyV, Type, TypeKind, TypeMeta};

verus! {

/// Options of one pattern-assignment recursion.
#[derive(Clone, Copy, PartialEq, Eq, Structural, Debug)]
pub struct PatAssignOpts {
    /// Do not complain about an unknown assignment target.
    pub ignore_lhs_errors: bool,
    /// An iterable right side is acceptable (set under a rest element).
    pub allow_iterable_on_rhs: bool,
}

impl PatAssignOpts {
    pub fn default() -> (r: PatAssignOpts)
        ensures
            r == (PatAssignOpts { ignore_lhs_errors: false, allow_iterable_on_rhs: false }),
    {
        PatAssignOpts { ignore_lhs_errors: false, allow_iterable_on_rhs: false }
    }
}

/// Embedded evaluator verdicts in a pattern are fit to store.
pub open spec fn pat_wf(p: Pat) -> bool
    decreases p,
{
    match p.kind {
        PatKind::Assign { left, default_ty } => pat_wf(*left) && (default_ty matches Some(t)
            ==> stored_ok(t@)),
        PatKind::Array { elems } => forall|i: int|
            0 <= i < elems@.len() ==> (#[trigger] elems@[i] matches Some(q) ==> pat_wf(q)),
        PatKind::Object { props } => forall|i: int|
            0 <= i < props@.len() ==> prop_wf(#[trigger] props@[i]),
        PatKind::Rest { arg, has_type_ann } => pat_wf(*arg),
        _ => true,
    }
}

pub open spec fn prop_wf(p: ObjectPatProp) -> bool
    decreases p,
{
    match p {
        ObjectPatProp::KeyValue { key, value } => pat_wf(*value),
        ObjectPatProp::Rest { arg, has_type_ann, span } => pat_wf(*arg),
        _ => true,
    }
}

/// Does the pattern bind the variable key `k`?
pub open spec fn binds(p: Pat, k: Seq<Id>) -> bool {
    exists|i: int| 0 <= i < pat_ids(p).len() && k == seq![#[trigger] pat_ids(p)[i]]
}

/// `b` agrees with `a` at the key `k`.
pub open spec fn frame_at(a: Map<Seq<Id>, VarInfoV>, b: Map<Seq<Id>, VarInfoV>, k: Seq<Id>) -> bool {
    &&& (b.dom().contains(k) <==> a.dom().contains(k))
    &&& (a.dom().contains(k) ==> b[k] == a[k])
}

/// `b` agrees with `a` at every variable the pattern does not bind.
pub open spec fn frame_ok(a: Map<Seq<Id>, VarInfoV>, b: Map<Seq<Id>, VarInfoV>, p: Pat) -> bool {
    forall|k: Seq<Id>| !binds(p, k) ==> #[trigger] frame_at(a, b, k)
}

/// The error list only grew: the old one is a prefix of the new one.
pub open spec fn errors_extended(a: Seq<ErrorKind>, b: Seq<ErrorKind>) -> bool {
    a.len() <= b.len() && a == b.take(a.len() as int)
}

pub proof fn lemma_errors_extended_trans(a: Seq<ErrorKind>, b: Seq<ErrorKind>, c: Seq<ErrorKind>)
    requires
        errors_extended(a, b),
        errors_extended(b, c),
    ensures
        errors_extended(a, c),
{
    assert(a =~= c.take(a.len() as int));
}

pub proof fn lemma_errors_extended_push(a: Seq<ErrorKind>, e: ErrorKind)
    ensures
        errors_extended(a, a.push(e)),
{
    assert(a =~= a.push(e).take(a.len() as int));
}

pub proof fn lemma_errors_extended_refl(a: Seq<ErrorKind>)
    ensures
        errors_extended(a, a),
{
    assert(a =~= a.take(a.len() as int));
}

pub proof fn lemma_errors_extended_snoc(a: Seq<ErrorKind>, b: Seq<ErrorKind>, e: ErrorKind)
    requires
        errors_extended(a, b),
    ensures
        errors_extended(a, b.push(e)),
{
    lemma_errors_extended_push(b, e);
    lemma_errors_extended_trans(a, b, b.push(e));
}

/// Frame conditions compose.
pub proof fn lemma_frame_trans(
    a: Map<Seq<Id>, VarInfoV>,
    b: Map<Seq<Id>, VarInfoV>,
    c: Map<Seq<Id>, VarInfoV>,
    p: Pat,
)
    requires
        frame_ok(a, b, p),
        frame_ok(b, c, p),
    ensures
        frame_ok(a, c, p),
{
    assert forall|k: Seq<Id>| !binds(p, k) implies #[trigger] frame_at(a, c, k) by {
        assert(frame_at(a, b, k));
        assert(frame_at(b, c, k));
    }
}

/// What the identifier rule decides: the current scope's new variable map
/// and the result.
#[verifier::ext_equal]
pub struct IdentOutcome {
    pub vars: Map<Seq<Id>, VarInfoV>,
    pub result: Result<(), ErrorKind>,
}

/// The variable entry an assignment installs: the narrowed actual type, on
/// the entry already here or on a copy of the ancestor's entry (which then
/// shadows it).
pub open spec fn installed_info(found: VarInfoV, in_cur: bool, in_loop: bool, v: TyV) -> VarInfoV {
    if in_cur {
        VarInfoV {
            actual_ty: Some(v),
            is_actual_type_modified_in_loop: found.is_actual_type_modified_in_loop || in_loop,
            ..found
        }
    } else {
        VarInfoV { actual_ty: Some(v), copied: true, ..found }
    }
}

/// The identifier assignment rule.  In order:
/// - a declared type in the current scope that cannot accept the assigned
///   type stops the recursion with the assignability error;
/// - a variable declared `any`, or an assigned `null`/`undefined`, leaves
///   the scope untouched;
/// - otherwise the assigned type, stripped of `null` and `undefined`, is
///   installed as the narrowed actual type — in place here, or as a copy
///   shadowing the ancestor's entry — unless the stripping left `never`;
/// - an unknown target is an error unless errors on the left side are
///   ignored or the identifier is being declared and forward references are
///   allowed.
pub open spec fn ident_assign_v(
    s: crate::scope::ScopeV,
    id: Id,
    pat_span: Span,
    ty: TyV,
    ignore_lhs_errors: bool,
    allow_ref_declaring: bool,
) -> IdentOutcome {
    let k = seq![id];
    let in_cur = s.vars.dom().contains(k);
    if in_cur && (s.vars[k].ty matches Some(d) && !assignable(d, ty)) {
        IdentOutcome { vars: s.vars, result: Err(ErrorKind::AssignFailed { span: pat_span }) }
    } else {
        match scope_lookup(s, id) {
            Some(vi) => match vi.ty {
                Some(d) => if d.is_any() || ty.is_kwd(KeywordKind::Null) || ty.is_kwd(
                    KeywordKind::Undefined,
                ) {
                    IdentOutcome { vars: s.vars, result: Ok(()) }
                } else {
                    let ty2 = apply_facts_v(TypeFacts { bits: FACT_NE_UNDEFINED_OR_NULL }, ty);
                    if ty2.is_never() {
                        IdentOutcome { vars: s.vars, result: Ok(()) }
                    } else {
                        IdentOutcome {
                            vars: s.vars.insert(
                                k,
                                installed_info(vi, in_cur, s.in_loop_body, frozen_top(ty2)),
                            ),
                            result: Ok(()),
                        }
                    }
                },
                None => IdentOutcome {
                    vars: s.vars.insert(
                        k,
                        installed_info(vi, in_cur, s.in_loop_body, frozen_top(ty)),
                    ),
                    result: Ok(()),
                },
            },
            None => if ignore_lhs_errors {
                IdentOutcome { vars: s.vars, result: Ok(()) }
            } else if allow_ref_declaring && s.declaring.contains(id) {
                IdentOutcome { vars: s.vars, result: Ok(()) }
            } else {
                IdentOutcome {
                    vars: s.vars,
                    result: Err(ErrorKind::UndefinedSymbol { span: pat_span, sym: id }),
                }
            },
        }
    }
}

/// Is some array element a rest pattern?
pub open spec fn has_rest_elem(elems: Seq<Option<Pat>>) -> bool {
    exists|i: int|
        0 <= i < elems.len() && (#[trigger] elems[i] matches Some(p) && p.kind is Rest)
}

/// The scope value with its variable map replaced.
pub open spec fn with_vars(
    s: crate::scope::ScopeV,
    vars: Map<Seq<Id>, VarInfoV>,
) -> crate::scope::ScopeV {
    crate::scope::ScopeV { vars, ..s }
}

/// The synthesized array a rest pattern assigns from: `Array<t>`, frozen,
/// at the statement span.
pub open spec fn array_of_v(t: TyV, span: Span) -> TyV {
    TyV {
        kind: TyKindV::Array(Box::new(t)),
        meta: TypeMeta { span, frozen: true, prevent_converting_to_children: false },
    }
}

/// An object rest property whose argument is an optional-chaining access —
/// the one property shape that aborts the recursion.
pub open spec fn is_chain_rest(p: ObjectPatProp) -> bool {
    p matches ObjectPatProp::Rest { arg, has_type_ann, span } && (arg.kind matches PatKind::Expr {
        expr,
        lvalue_ty,
    } && crate::ast::obj_opt_chaining(expr))
}

pub open spec fn has_chain_rest(props: Seq<ObjectPatProp>) -> bool {
    exists|i: int| 0 <= i < props.len() && is_chain_rest(#[trigger] props[i])
}

/// The error record pushed when one identifier step fails.
pub open spec fn after_ident_report(
    base: Seq<ErrorKind>,
    outcome: IdentOutcome,
) -> Seq<ErrorKind> {
    match outcome.result {
        Ok(u) => base,
        Err(e) => base.push(e),
    }
}

/// The element the iterator of a destructuring yields at position `i`.
pub open spec fn elem_proj_v(it: TyV, i: usize, span: Span) -> Result<TyV, ErrorKind> {
    match it.kind {
        TyKindV::Tuple(es) => if (i as int) < es.len() {
            Ok(es[i as int])
        } else {
            Err(ErrorKind::TupleIndexOutOfBounds { span, index: i, len: es.len() as usize })
        },
        TyKindV::Array(e) => Ok(*e),
        TyKindV::Keyword(KeywordKind::Any) => Ok(it),
        _ => Err(ErrorKind::NotArrayType { span }),
    }
}

/// Every present element of the array pattern before position `k` is a
/// bare identifier.
pub open spec fn ident_prefix_upto(elems: Seq<Option<Pat>>, k: int) -> bool {
    forall|i: int| 0 <= i < k ==> (#[trigger] elems[i] matches Some(p) ==> p.kind is Ident)
}

/// Every present element of the array pattern is a bare identifier.
pub open spec fn ident_elems_only(elems: Seq<Option<Pat>>) -> bool {
    ident_prefix_upto(elems, elems.len() as int)
}

/// The element is a rest pattern.
pub open spec fn is_rest_elem(e: Option<Pat>) -> bool {
    e matches Some(p) && p.kind is Rest
}

/// The element at `k` is a rest pattern over a bare identifier.
pub open spec fn rest_ident_at(elems: Seq<Option<Pat>>, k: int) -> bool {
    elems[k] matches Some(p) && (p.kind matches PatKind::Rest { arg, has_type_ann } && (*arg).kind
        is Ident)
}

/// The tail the iterator still yields from position `from` on, for the rest
/// element of a destructuring.
pub open spec fn rest_proj_v(it: TyV, from: usize, span: Span) -> Result<TyV, ErrorKind> {
    match it.kind {
        TyKindV::Tuple(es) => if (from as int) <= es.len() {
            Ok(TyV { kind: TyKindV::Tuple(es.skip(from as int)), meta: it.meta })
        } else {
            Err(ErrorKind::TupleIndexOutOfBounds { span, index: from, len: es.len() as usize })
        },
        TyKindV::Array(e) => Ok(it),
        TyKindV::Keyword(KeywordKind::Any) => Ok(it),
        _ => Err(ErrorKind::NotArrayType { span }),
    }
}

/// One element of an identifier-only array destructuring: a hole changes
/// nothing; an identifier receives its projected element, canonicalized,
/// through the identifier rule, a projection failure being reported instead.
pub open spec fn array_ident_step(
    s: crate::scope::ScopeV,
    st: Seq<ErrorKind>,
    elem: Option<Pat>,
    it: TyV,
    i: usize,
    span: Span,
    ignore_lhs_errors: bool,
    allow_ref_declaring: bool,
) -> (Map<Seq<Id>, VarInfoV>, Seq<ErrorKind>) {
    match elem {
        None => (s.vars, st),
        Some(p) => match p.kind {
            PatKind::Ident { id, has_type_ann } => match elem_proj_v(it, i, span) {
                Ok(pt) => {
                    let o = ident_assign_v(
                        s,
                        id,
                        p.span,
                        crate::typeops::sanitized_v(pt),
                        ignore_lhs_errors,
                        allow_ref_declaring,
                    );
                    (o.vars, after_ident_report(st, o))
                },
                Err(e) => (s.vars, st.push(e)),
            },
            _ => (s.vars, st),
        },
    }
}

/// The elements of an identifier-only array destructuring, folded in order.
pub open spec fn array_ident_fold(
    s0: crate::scope::ScopeV,
    st0: Seq<ErrorKind>,
    elems: Seq<Option<Pat>>,
    it: TyV,
    span: Span,
    ignore_lhs_errors: bool,
    allow_ref_declaring: bool,
    upto: int,
) -> (Map<Seq<Id>, VarInfoV>, Seq<ErrorKind>)
    decreases upto,
{
    if upto <= 0 {
        (s0.vars, st0)
    } else {
        let prev = array_ident_fold(
            s0,
            st0,
            elems,
            it,
            span,
            ignore_lhs_errors,
            allow_ref_declaring,
            upto - 1,
        );
        array_ident_step(
            with_vars(s0, prev.0),
            prev.1,
            elems[upto - 1],
            it,
            (upto - 1) as usize,
            span,
            ignore_lhs_errors,
            allow_ref_declaring,
        )
    }
}

/// The iterator an array destructuring walks: the right-hand type when it is
/// iterable, else `any` after the report.
pub open spec fn array_iter_v(t: TyV, span: Span) -> TyV {
    if t.kind is Tuple || t.kind is Array || t.is_any() {
        t
    } else {
        TyV {
            kind: TyKindV::Keyword(KeywordKind::Any),
            meta: TypeMeta { span, frozen: true, prevent_converting_to_children: false },
        }
    }
}

/// `any`, frozen, at a span: the fallback for a member that cannot be
/// looked up.
pub open spec fn frozen_any_v(span: Span) -> TyV {
    TyV {
        kind: TyKindV::Keyword(KeywordKind::Any),
        meta: TypeMeta { span, frozen: true, prevent_converting_to_children: false },
    }
}

/// The interned symbol a property name resolves to; a computed name has
/// none.
pub open spec fn prop_key_sym(key: PropName) -> Option<Id> {
    match key {
        PropName::Ident(sym) => Some(sym),
        PropName::Str(sym) => Some(sym),
        PropName::Num { value, sym } => Some(sym),
        PropName::Computed => None,
    }
}

/// The type an object property pattern receives: the member looked up on
/// the right-hand type, canonicalized; `any` when the name is computed or
/// the member is missing.
pub open spec fn obj_prop_ty_v(t: TyV, key: Option<Id>, span: Span) -> TyV {
    match key {
        Some(k) => match crate::typeops::access_property_v(t, k) {
            Some(pt) => crate::typeops::sanitized_v(pt),
            None => frozen_any_v(span),
        },
        None => frozen_any_v(span),
    }
}

/// Every property of the object pattern is a shorthand, binds an identifier
/// directly, or is a rest property that does not abort (its argument is not
/// an optional-chaining expression) — the shapes whose effect the fold
/// below pins.
pub open spec fn foldable_props_only(props: Seq<ObjectPatProp>) -> bool {
    forall|i: int|
        0 <= i < props.len() ==> (match #[trigger] props[i] {
            ObjectPatProp::KeyValue { key, value } => (*value).kind is Ident,
            ObjectPatProp::Assign { key_id, key_span } => true,
            ObjectPatProp::Rest { arg, has_type_ann, span } => !(is_chain_rest(props[i])),
        })
}

/// One property of a foldable object destructuring: a binding property
/// goes through the identifier rule; a rest property leaves the scope alone
/// and reports per its argument's shape — nothing for an identifier, the
/// dedicated rejections for array/object/expression/invalid arguments.
pub open spec fn object_prop_step(
    s: crate::scope::ScopeV,
    st: Seq<ErrorKind>,
    prop: ObjectPatProp,
    t: TyV,
    span: Span,
    ignore_lhs_errors: bool,
    allow_ref_declaring: bool,
) -> (Map<Seq<Id>, VarInfoV>, Seq<ErrorKind>) {
    match prop {
        ObjectPatProp::KeyValue { key, value } => match (*value).kind {
            PatKind::Ident { id, has_type_ann } => {
                let o = ident_assign_v(
                    s,
                    id,
                    (*value).span,
                    obj_prop_ty_v(t, prop_key_sym(key), span),
                    ignore_lhs_errors,
                    allow_ref_declaring,
                );
                (o.vars, after_ident_report(st, o))
            },
            _ => (s.vars, st),
        },
        ObjectPatProp::Assign { key_id, key_span } => {
            let o = ident_assign_v(
                s,
                key_id,
                key_span,
                obj_prop_ty_v(t, Some(key_id), span),
                ignore_lhs_errors,
                allow_ref_declaring,
            );
            (o.vars, after_ident_report(st, o))
        },
        ObjectPatProp::Rest { arg, has_type_ann, span: rs } => (
            s.vars,
            match (*arg).kind {
                PatKind::Ident { id, has_type_ann: h2 } => st,
                PatKind::Array { elems } => st.push(
                    ErrorKind::NotArrayType { span: (*arg).span },
                ).push(ErrorKind::BindingPatNotAllowedInRestPatArg { span: (*arg).span }),
                PatKind::Object { props } => st.push(
                    ErrorKind::BindingPatNotAllowedInRestPatArg { span: (*arg).span },
                ),
                PatKind::Expr { expr, lvalue_ty } => st.push(
                    ErrorKind::BindingPatNotAllowedInRestPatArg { span: (*arg).span },
                ),
                PatKind::Invalid => st.push(
                    ErrorKind::RestArgMustBeVarOrMemberAccess { span: (*arg).span },
                ),
                _ => st,
            },
        ),
    }
}

/// The properties of a simple object destructuring, folded in order.
pub open spec fn object_props_fold(
    s0: crate::scope::ScopeV,
    st0: Seq<ErrorKind>,
    props: Seq<ObjectPatProp>,
    t: TyV,
    span: Span,
    ignore_lhs_errors: bool,
    allow_ref_declaring: bool,
    upto: int,
) -> (Map<Seq<Id>, VarInfoV>, Seq<ErrorKind>)
    decreases upto,
{
    if upto <= 0 {
        (s0.vars, st0)
    } else {
        let prev = object_props_fold(
            s0,
            st0,
            props,
            t,
            span,
            ignore_lhs_errors,
            allow_ref_declaring,
            upto - 1,
        );
        object_prop_step(
            with_vars(s0, prev.0),
            prev.1,
            props[upto - 1],
            t,
            span,
            ignore_lhs_errors,
            allow_ref_declaring,
        )
    }
}

/// The position of the first rest element of an array pattern, if any.
fn find_first_rest(elems: &Vec<Option<Pat>>) -> (r: Option<usize>)
    ensures
        match r {
            Some(j) => j < elems@.len() && is_rest_elem(elems@[j as int]) && forall|q: int|
                0 <= q < j ==> !is_rest_elem(#[trigger] elems@[q]),
            None => forall|q: int|
                0 <= q < elems@.len() ==> !is_rest_elem(#[trigger] elems@[q]),
        },
{
    let n = elems.len();
    for i in 0..n
        invariant
            n == elems@.len(),
            forall|q: int| 0 <= q < i ==> !is_rest_elem(#[trigger] elems@[q]),
    {
        match &elems[i] {
            Some(p) => {
                if matches!(p.kind, PatKind::Rest { .. }) {
                    return Some(i);
                }
            }
            None => {}
        }
    }
    None
}

impl Analyzer {
    /// Apply the identifier assignment rule; see [`ident_assign_v`].
    pub fn assign_ident(&mut self, pat_span: Span, id: Id, ty: &Type, opts: PatAssignOpts) -> (r:
        Result<(), ErrorKind>)
        requires
            old(self).wf(),
            stored_ok(ty@),
        ensures
            final(self).wf(),
            final(self).scope@.vars == ident_assign_v(
                old(self).scope@,
                id,
                pat_span,
                ty@,
                opts.ignore_lhs_errors,
                old(self).ctx.allow_ref_declaring,
            ).vars,
            r == ident_assign_v(
                old(self).scope@,
                id,
                pat_span,
                ty@,
                opts.ignore_lhs_errors,
                old(self).ctx.allow_ref_declaring,
            ).result,
            final(self).scope@.parent == old(self).scope@.parent,
            final(self).scope@.declaring == old(self).scope@.declaring,
            final(self).scope@.in_loop_body == old(self).scope@.in_loop_body,
            final(self).storage == old(self).storage,
            final(self).cur_facts == old(self).cur_facts,
            final(self).ctx == old(self).ctx,
    {
        let in_loop = self.scope.is_in_loop_body();
        let cur_rejects = match self.scope.get_var(id) {
            Some(vi) => match &vi.ty {
                Some(d) => !is_assignable(d, ty),
                None => false,
            },
            None => false,
        };
        if cur_rejects {
            return Err(ErrorKind::AssignFailed { span: pat_span });
        }
        proof {
            crate::scope::lemma_parent_lookup_ok(self.scope, id);
        }
        let (found, in_cur): (Option<VarInfo>, bool) = match self.scope.get_var(id) {
            Some(vi) => (Some(vi.clone()), true),
            None => match self.scope.search_parent(id) {
                Some(vi) => (Some(vi.clone()), false),
                None => (None, false),
            },
        };
        proof {
            if found is Some {
                assert(var_info_ok(found->0@));
            }
        }
        match found {
            Some(vi) => {
                let ghost viv = vi@;
                let declared_any = match &vi.ty {
                    Some(d) => d.is_any(),
                    None => false,
                };
                let has_declared = vi.ty.is_some();
                if has_declared {
                    if declared_any || ty.is_kwd(KeywordKind::Null) || ty.is_kwd(
                        KeywordKind::Undefined,
                    ) {
                        return Ok(());
                    }
                }
                let v: Type = if has_declared {
                    let ty2 = apply_type_facts_to_type(
                        TypeFacts::of(FACT_NE_UNDEFINED_OR_NULL),
                        clone_type(ty),
                    );
                    if ty2.is_never() {
                        return Ok(());
                    }
                    proof {
                        lemma_apply_facts_stored(
                            TypeFacts { bits: FACT_NE_UNDEFINED_OR_NULL },
                            ty@,
                        );
                    }
                    let d = match &vi.ty {
                        Some(d) => d,
                        None => ty,  // unreachable: has_declared holds
                    };
                    narrowed_type_of_assignment(pat_span, d, &ty2).freezed()
                } else {
                    proof {
                        crate::union::lemma_cheap_stored_members(ty@);
                    }
                    clone_type(ty).freezed()
                };
                proof {
                    assert(stored_ok(v@)) by {
                        if !has_declared {
                            assert(v@ == frozen_top(ty@));
                            if ty@.kind is Union {
                                assert(crate::union::cheap_stored(v@)) by {
                                    assert(crate::union::umembers(v@) == crate::union::umembers(
                                        ty@,
                                    ));
                                }
                            }
                        }
                    }
                }
                let VarInfo {
                    ty: dty,
                    actual_ty: _,
                    copied,
                    initialized,
                    is_actual_type_modified_in_loop,
                } = vi;
                let new_info = if in_cur {
                    VarInfo {
                        ty: dty,
                        actual_ty: Some(v),
                        copied,
                        initialized,
                        is_actual_type_modified_in_loop: is_actual_type_modified_in_loop
                            || in_loop,
                    }
                } else {
                    VarInfo {
                        ty: dty,
                        actual_ty: Some(v),
                        copied: true,
                        initialized,
                        is_actual_type_modified_in_loop,
                    }
                };
                proof {
                    assert(var_info_ok(new_info@));
                    assert(new_info@ == installed_info(viv, in_cur, in_loop, v@));
                }
                self.scope.insert_var(id, new_info);
                Ok(())
            }
            None => {
                if opts.ignore_lhs_errors {
                    Ok(())
                } else if self.ctx.allow_ref_declaring && self.scope.is_declaring(id) {
                    Ok(())
                } else {
                    Err(ErrorKind::UndefinedSymbol { span: pat_span, sym: id })
                }
            }
        }
    }
}

/// Identifiers bound by an array element also count as bound by the list.
pub proof fn lemma_elem_ids_contained(elems: Seq<Option<Pat>>, i: int)
    requires
        0 <= i < elems.len(),
    ensures
        elems[i] matches Some(q) ==> forall|x: Id|
            pat_ids(q).contains(x) ==> #[trigger] pat_opt_list_ids(elems).contains(x),
    decreases elems,
{
    if elems.len() > 0 {
        let left = pat_opt_list_ids(elems.drop_last());
        let right = match elems.last() {
            Some(p) => pat_ids(p),
            None => Seq::<Id>::empty(),
        };
        if i == elems.len() - 1 {
            if elems[i] is Some {
                let q = elems[i]->0;
                assert forall|x: Id|
                    pat_ids(q).contains(x) implies #[trigger] pat_opt_list_ids(elems).contains(
                    x,
                ) by {
                    let j = choose|j: int| 0 <= j < pat_ids(q).len() && pat_ids(q)[j] == x;
                    assert(pat_opt_list_ids(elems)[left.len() + j] == x);
                }
            }
        } else {
            lemma_elem_ids_contained(elems.drop_last(), i);
            assert(elems.drop_last()[i] == elems[i]);
            if elems[i] is Some {
                let q = elems[i]->0;
                assert forall|x: Id|
                    pat_ids(q).contains(x) implies #[trigger] pat_opt_list_ids(elems).contains(
                    x,
                ) by {
                    assert(pat_opt_list_ids(elems.drop_last()).contains(x));
                    let j = choose|j: int| 0 <= j < left.len() && left[j] == x;
                    assert(pat_opt_list_ids(elems)[j] == x);
                }
            }
        }
    }
}

/// Identifiers bound by an object property also count as bound by the list.
pub proof fn lemma_prop_ids_contained(props: Seq<ObjectPatProp>, i: int)
    requires
        0 <= i < props.len(),
    ensures
        forall|x: Id|
            prop_ids(props[i]).contains(x) ==> #[trigger] prop_list_ids(props).contains(x),
    decreases props,
{
    if props.len() > 0 {
        let left = prop_list_ids(props.drop_last());
        if i == props.len() - 1 {
            assert forall|x: Id|
                prop_ids(props[i]).contains(x) implies #[trigger] prop_list_ids(props).contains(
                x,
            ) by {
                let j = choose|j: int|
                    0 <= j < prop_ids(props[i]).len() && prop_ids(props[i])[j] == x;
                assert(prop_list_ids(props)[left.len() + j] == x);
            }
        } else {
            lemma_prop_ids_contained(props.drop_last(), i);
            assert(props.drop_last()[i] == props[i]);
            assert forall|x: Id|
                prop_ids(props[i]).contains(x) implies #[trigger] prop_list_ids(props).contains(
                x,
            ) by {
                assert(prop_list_ids(props.drop_last()).contains(x));
                let j = choose|j: int| 0 <= j < left.len() && left[j] == x;
                assert(prop_list_ids(props)[j] == x);
            }
        }
    }
}

impl Analyzer {
    /// Install `ty` into every binding of the pattern, updating the scope;
    /// see [`try_assign_pat_with_opts`].
    pub fn try_assign_pat(&mut self, span: Span, lhs: &Pat, ty: &Type) -> (r: Result<
        (),
        ErrorKind,
    >)
        requires
            old(self).wf(),
            stored_ok(ty@),
            pat_wf(*lhs),
        ensures
            final(self).wf(),
            final(self).cur_facts == old(self).cur_facts,
            final(self).ctx == old(self).ctx,
            final(self).scope@.parent == old(self).scope@.parent,
            final(self).scope@.declaring == old(self).scope@.declaring,
            final(self).scope@.in_loop_body == old(self).scope@.in_loop_body,
            errors_extended(old(self).storage@, final(self).storage@),
            frame_ok(old(self).scope@.vars, final(self).scope@.vars, *lhs),
            lhs.kind matches PatKind::Ident { id, has_type_ann } ==> {
                &&& final(self).scope@.vars == ident_assign_v(
                    old(self).scope@,
                    id,
                    lhs.span,
                    ty@,
                    false,
                    old(self).ctx.allow_ref_declaring,
                ).vars
                &&& r == ident_assign_v(
                    old(self).scope@,
                    id,
                    lhs.span,
                    ty@,
                    false,
                    old(self).ctx.allow_ref_declaring,
                ).result
                &&& final(self).storage == old(self).storage
            },
    {
        self.try_assign_pat_with_opts(span, lhs, ty, PatAssignOpts::default())
    }

    /// The pattern-directed assignment engine: dispatch on the pattern
    /// shape, project the right-hand type through it, and update the scope
    /// at each bound identifier.  Sub-recursions report their errors and
    /// continue, so one bad field does not poison its siblings; only a rest
    /// projection failure, an identifier the scope rejects, or an
    /// optional-chain rest pattern aborts the recursion.
    ///
    /// The contract pins the whole effect wherever the bindings are
    /// identifier leaves: the identifier, default, rest-of-identifier and
    /// expression shapes exactly, arrays of identifier elements (with or
    /// without a trailing rest over an identifier) through
    /// [`array_ident_fold`], and objects of shorthand, keyed-identifier and
    /// non-aborting rest properties through [`object_props_fold`].  For
    /// bindings nested deeper than one level the contract gives the frame
    /// over the pattern's names, the append-only error log and the result
    /// clauses only.
    #[verifier::rlimit(100)]
    #[verifier::spinoff_prover]
    pub fn try_assign_pat_with_opts(
        &mut self,
        span: Span,
        lhs: &Pat,
        ty: &Type,
        opts: PatAssignOpts,
    ) -> (r: Result<(), ErrorKind>)
        requires
            old(self).wf(),
            stored_ok(ty@),
            pat_wf(*lhs),
        ensures
            final(self).wf(),
            final(self).cur_facts == old(self).cur_facts,
            final(self).ctx == old(self).ctx,
            final(self).scope@.parent == old(self).scope@.parent,
            final(self).scope@.declaring == old(self).scope@.declaring,
            final(self).scope@.in_loop_body == old(self).scope@.in_loop_body,
            errors_extended(old(self).storage@, final(self).storage@),
            frame_ok(old(self).scope@.vars, final(self).scope@.vars, *lhs),
            lhs.kind is Invalid ==> r is Ok && final(self).scope == old(self).scope
                && final(self).storage == old(self).storage,
            lhs.kind matches PatKind::Ident { id, has_type_ann } ==> {
                &&& final(self).scope@.vars == ident_assign_v(
                    old(self).scope@,
                    id,
                    lhs.span,
                    ty@,
                    opts.ignore_lhs_errors,
                    old(self).ctx.allow_ref_declaring,
                ).vars
                &&& r == ident_assign_v(
                    old(self).scope@,
                    id,
                    lhs.span,
                    ty@,
                    opts.ignore_lhs_errors,
                    old(self).ctx.allow_ref_declaring,
                ).result
                &&& final(self).storage == old(self).storage
            },
            lhs.kind matches PatKind::Array { elems } ==> (!has_rest_elem(elems@) ==> r is Ok),
            lhs.kind matches PatKind::Array { elems } ==> (ident_elems_only(elems@) ==> {
                let folded = array_ident_fold(
                    old(self).scope@,
                    if ty@.kind is Tuple || ty@.kind is Array || ty@.is_any() {
                        old(self).storage@
                    } else {
                        old(self).storage@.push(ErrorKind::NotArrayType { span })
                    },
                    elems@,
                    array_iter_v(ty@, span),
                    span,
                    opts.ignore_lhs_errors,
                    old(self).ctx.allow_ref_declaring,
                    elems@.len() as int,
                );
                final(self).scope@.vars == folded.0 && final(self).storage@ == folded.1
            }),
            lhs.kind matches PatKind::Array { elems } ==> forall|k: int|
                (0 <= k < elems@.len() && ident_prefix_upto(elems@, k) && #[trigger] rest_ident_at(
                    elems@,
                    k,
                )) ==> {
                    let arg = *elems@[k]->0.kind->Rest_arg;
                    let id = arg.kind->Ident_id;
                    let pre = array_ident_fold(
                        old(self).scope@,
                        if ty@.kind is Tuple || ty@.kind is Array || ty@.is_any() {
                            old(self).storage@
                        } else {
                            old(self).storage@.push(ErrorKind::NotArrayType { span })
                        },
                        elems@,
                        array_iter_v(ty@, span),
                        span,
                        opts.ignore_lhs_errors,
                        old(self).ctx.allow_ref_declaring,
                        k,
                    );
                    match rest_proj_v(array_iter_v(ty@, span), k as usize, span) {
                        Err(e) => r == Err::<(), ErrorKind>(e) && final(self).scope@.vars == pre.0
                            && final(self).storage@ == pre.1,
                        Ok(rt) => {
                            let o = ident_assign_v(
                                with_vars(old(self).scope@, pre.0),
                                id,
                                arg.span,
                                crate::typeops::sanitized_v(rt),
                                opts.ignore_lhs_errors,
                                old(self).ctx.allow_ref_declaring,
                            );
                            final(self).scope@.vars == o.vars && final(self).storage@ == pre.1
                                && r == o.result
                        },
                    }
                },
            lhs.kind matches PatKind::Expr { expr, lvalue_ty } ==> {
                &&& final(self).scope == old(self).scope
                &&& (expr.kind is Lit ==> r is Ok && final(self).storage@ == old(
                    self,
                ).storage@.push(ErrorKind::InvalidLhsOfAssign { span: expr.span }))
                &&& (!(expr.kind is Lit) ==> final(self).storage == old(self).storage && (
                match lvalue_ty {
                    Some(lt) => r == (if assignable(lt@, ty@) {
                        Result::<(), ErrorKind>::Ok(())
                    } else {
                        Result::<(), ErrorKind>::Err(ErrorKind::AssignFailed { span })
                    }),
                    None => r is Ok,
                }))
            },
        lhs.kind matches PatKind::Assign { left, default_ty } ==> {
                &&& r is Ok
                &&& (left.kind matches PatKind::Ident { id, has_type_ann } ==> {
                    let o1 = ident_assign_v(
                        old(self).scope@,
                        id,
                        left.span,
                        ty@,
                        opts.ignore_lhs_errors,
                        old(self).ctx.allow_ref_declaring,
                    );
                    match default_ty {
                        Some(dt) => {
                            let o2 = ident_assign_v(
                                with_vars(old(self).scope@, o1.vars),
                                id,
                                left.span,
                                dt@,
                                opts.ignore_lhs_errors,
                                old(self).ctx.allow_ref_declaring,
                            );
                            final(self).scope@.vars == o2.vars && final(self).storage@
                                == after_ident_report(
                                after_ident_report(old(self).storage@, o1),
                                o2,
                            )
                        },
                        None => final(self).scope@.vars == o1.vars && final(self).storage@
                            == after_ident_report(old(self).storage@, o1),
                    }
                })
            },
            lhs.kind matches PatKind::Rest { arg, has_type_ann } ==> (arg.kind
                matches PatKind::Ident { id, has_type_ann: h2 } ==> {
                &&& final(self).scope@.vars == ident_assign_v(
                    old(self).scope@,
                    id,
                    arg.span,
                    array_of_v(ty@, span),
                    opts.ignore_lhs_errors,
                    old(self).ctx.allow_ref_declaring,
                ).vars
                &&& r == ident_assign_v(
                    old(self).scope@,
                    id,
                    arg.span,
                    array_of_v(ty@, span),
                    opts.ignore_lhs_errors,
                    old(self).ctx.allow_ref_declaring,
                ).result
                &&& final(self).storage == old(self).storage
            }),
            lhs.kind matches PatKind::Object { props } ==> {
                &&& (r is Err <==> has_chain_rest(props@))
                &&& (r matches Err(e) ==> exists|i: int|
                    0 <= i < props@.len() && (#[trigger] props@[i] matches ObjectPatProp::Rest {
                        arg,
                        has_type_ann,
                        span: rs,
                    } && is_chain_rest(props@[i]) && e == (
                    ErrorKind::InvalidRestPatternInOptionalChain { span: rs })))
                &&& (foldable_props_only(props@) ==> final(self).scope@.vars == object_props_fold(
                    old(self).scope@,
                    old(self).storage@,
                    props@,
                    ty@,
                    span,
                    opts.ignore_lhs_errors,
                    old(self).ctx.allow_ref_declaring,
                    props@.len() as int,
                ).0 && final(self).storage@ == object_props_fold(
                    old(self).scope@,
                    old(self).storage@,
                    props@,
                    ty@,
                    span,
                    opts.ignore_lhs_errors,
                    old(self).ctx.allow_ref_declaring,
                    props@.len() as int,
                ).1)
            },
            decreases *lhs,
    {
        match &lhs.kind {
            PatKind::Invalid => {
                proof {
                    lemma_errors_extended_refl(self.storage@);
                }
                Ok(())
            }
            PatKind::Ident { id, has_type_ann } => {
                let r1 = self.assign_ident(lhs.span, *id, ty, opts);
                proof {
                    lemma_errors_extended_refl(self.storage@);
                    assert(pat_ids(*lhs) =~= seq![*id]);
                    assert forall|k: Seq<Id>|
                        !binds(*lhs, k) implies #[trigger] frame_at(
                        old(self).scope@.vars,
                        self.scope@.vars,
                        k,
                    ) by {
                        assert(pat_ids(*lhs)[0] == *id);
                        if k == seq![*id] {
                            assert(binds(*lhs, k));
                        }
                    }
                }
                r1
            }
            PatKind::Assign { left, default_ty } => {
                let ghost vars0 = self.scope@.vars;
                let ghost st0 = self.storage@;
                proof {
                    assert(pat_wf(**left));
                    lemma_errors_extended_refl(st0);
                }
                let r1 = self.try_assign_pat_with_opts(span, left, ty, opts);
                match r1 {
                    Ok(()) => {}
                    Err(e) => {
                        let ghost stp = self.storage@;
                        self.storage.report(e);
                        proof {
                            lemma_errors_extended_snoc(st0, stp, e);
                        }
                    }
                }
                proof {
                    match (**left).kind {
                        PatKind::Ident { id, has_type_ann } => {
                            let o1 = ident_assign_v(
                                old(self).scope@,
                                id,
                                (**left).span,
                                ty@,
                                opts.ignore_lhs_errors,
                                old(self).ctx.allow_ref_declaring,
                            );
                            assert(self.scope@.vars == o1.vars);
                            assert(self.storage@ == after_ident_report(old(self).storage@, o1));
                            assert(self.scope@ =~= with_vars(old(self).scope@, o1.vars));
                        }
                        _ => {}
                    }
                }
                let ghost st1 = self.storage@;
                let ghost vars1 = self.scope@.vars;
                match default_ty {
                    Some(dt) => {
                        proof {
                            assert(stored_ok(dt@));
                        }
                        let ghost scope1 = self.scope@;
                        let r2 = self.try_assign_pat_with_opts(span, left, dt, opts);
                        match r2 {
                            Ok(()) => {}
                            Err(e) => {
                                let ghost stp = self.storage@;
                                self.storage.report(e);
                                proof {
                                    lemma_errors_extended_snoc(st1, stp, e);
                                }
                            }
                        }
                        proof {
                            lemma_errors_extended_trans(st0, st1, self.storage@);
                            lemma_frame_trans(vars0, vars1, self.scope@.vars, **left);
                            match (**left).kind {
                                PatKind::Ident { id, has_type_ann } => {
                                    let o2 = ident_assign_v(
                                        scope1,
                                        id,
                                        (**left).span,
                                        dt@,
                                        opts.ignore_lhs_errors,
                                        old(self).ctx.allow_ref_declaring,
                                    );
                                    assert(self.scope@.vars == o2.vars);
                                    assert(self.storage@ == after_ident_report(st1, o2));
                                }
                                _ => {}
                            }
                        }
                    }
                    None => {}
                }
                proof {
                    assert(pat_ids(*lhs) == pat_ids(**left));
                    assert(frame_ok(vars0, self.scope@.vars, *lhs)) by {
                        assert forall|k: Seq<Id>|
                            !binds(*lhs, k) implies #[trigger] frame_at(
                            vars0,
                            self.scope@.vars,
                            k,
                        ) by {
                            assert(!binds(**left, k)) by {
                                if binds(**left, k) {
                                    let j = choose|j: int|
                                        0 <= j < pat_ids(**left).len() && k == seq![
                                            pat_ids(**left)[j],
                                        ];
                                    assert(k == seq![pat_ids(*lhs)[j]]);
                                }
                            }
                            assert(frame_at(vars0, self.scope@.vars, k));
                        }
                    }
                }
                Ok(())
            }
            PatKind::Array { elems } => {
                let ghost st0 = self.storage@;
                let it: Type = match get_iterator(span, ty) {
                    Ok(t) => {
                        proof {
                            assert(stored_ok(t@));
                        }
                        t
                    }
                    Err(e) => {
                        self.storage.report(e);
                        proof {
                            lemma_errors_extended_push(st0, e);
                        }
                        let a = Type::any(span).freezed();
                        proof {
                            assert(a@.kind == TyKindV::Keyword(KeywordKind::Any));
                            assert(stored_ok(a@));
                        }
                        a
                    }
                };
                let ghost st_base = self.storage@;
                let ghost itv = it@;
                proof {
                    lemma_errors_extended_refl(st0);
                    assert(pat_ids(*lhs) == pat_opt_list_ids(elems@));
                    assert(itv == array_iter_v(ty@, span));
                    assert(st_base == (if ty@.kind is Tuple || ty@.kind is Array || ty@.is_any() {
                        old(self).storage@
                    } else {
                        old(self).storage@.push(ErrorKind::NotArrayType { span })
                    }));
                    lemma_errors_extended_refl(st_base);
                }
                let ghost vars0 = self.scope@.vars;
                let ghost scope0 = self.scope@;
                let n = elems.len();
                let rest_at = find_first_rest(elems);
                let limit: usize = match rest_at {
                    Some(j) => j,
                    None => n,
                };
                proof {
                    assert(limit <= n);
                }
                for i in 0..limit
                    invariant
                        limit <= n,
                        n == elems@.len(),
                        forall|k: int| 0 <= k < elems@.len() ==> decreases_to!(*lhs => elems@[k]),
                        lhs.kind matches PatKind::Array { elems: es } && es@ == elems@,
                        pat_ids(*lhs) == pat_opt_list_ids(elems@),
                        pat_wf(*lhs),
                        stored_ok(ty@),
                        stored_ok(it@),
                        vars0 == old(self).scope@.vars,
                        scope0 == old(self).scope@,
                        st0 == old(self).storage@,
                        itv == it@,
                        itv == array_iter_v(ty@, span),
                        errors_extended(st0, st_base),
                        errors_extended(st_base, self.storage@),
                        forall|q: int| 0 <= q < limit ==> !is_rest_elem(#[trigger] elems@[q]),
                        self.wf(),
                        self.cur_facts == old(self).cur_facts,
                        self.ctx == old(self).ctx,
                        self.scope@.parent == old(self).scope@.parent,
                        self.scope@.declaring == old(self).scope@.declaring,
                        self.scope@.in_loop_body == old(self).scope@.in_loop_body,
                        errors_extended(st0, self.storage@),
                        frame_ok(vars0, self.scope@.vars, *lhs),
                        ident_prefix_upto(elems@, i as int) ==> (self.scope@.vars
                            == array_ident_fold(
                            scope0,
                            st_base,
                            elems@,
                            itv,
                            span,
                            opts.ignore_lhs_errors,
                            old(self).ctx.allow_ref_declaring,
                            i as int,
                        ).0 && self.storage@ == array_ident_fold(
                            scope0,
                            st_base,
                            elems@,
                            itv,
                            span,
                            opts.ignore_lhs_errors,
                            old(self).ctx.allow_ref_declaring,
                            i as int,
                        ).1),
                {
                    let ghost vars_iter = self.scope@.vars;
                    let ghost st_iter = self.storage@;
                    proof {
                        lemma_elem_ids_contained(elems@, i as int);
                        assert(elems@[i as int] matches Some(q) ==> pat_wf(q)) by {
                            assert(pat_wf(*lhs));
                        }
                        assert(!is_rest_elem(elems@[i as int]));
                    }
                    match &elems[i] {
                        Some(elem) => {
                            let elem_raw = match get_element_from_iterator(span, &it, i) {
                                Ok(t) => {
                                    proof {
                                        assert(elem_proj_v(itv, i, span) == Ok::<TyV, ErrorKind>(
                                            t@,
                                        ));
                                    }
                                    Some(t)
                                }
                                Err(e) => {
                                    let ghost stp = self.storage@;
                                    self.storage.report(e);
                                    proof {
                                        lemma_errors_extended_snoc(st0, stp, e);
                                        lemma_errors_extended_snoc(st_base, stp, e);
                                        assert(elem_proj_v(itv, i, span) == Err::<TyV, ErrorKind>(
                                            e,
                                        ));
                                    }
                                    None
                                }
                            };
                            match elem_raw {
                                Some(eraw) => {
                                    let elem_ty = sanitize(&eraw);
                                    let ghost stp = self.storage@;
                                    let ghost vpre = self.scope@.vars;
                                    let r2 = self.try_assign_pat_with_opts(
                                        span,
                                        elem,
                                        &elem_ty,
                                        opts,
                                    );
                                    match r2 {
                                        Ok(()) => {}
                                        Err(e) => {
                                            let ghost stq = self.storage@;
                                            self.storage.report(e);
                                            proof {
                                                lemma_errors_extended_snoc(stp, stq, e);
                                            }
                                        }
                                    }
                                    proof {
                                        let q0 = elems@[i as int]->0;
                                        assert(frame_ok(vpre, self.scope@.vars, *lhs)) by {
                                            assert forall|k: Seq<Id>|
                                                !binds(*lhs, k) implies #[trigger] frame_at(
                                                vpre,
                                                self.scope@.vars,
                                                k,
                                            ) by {
                                                assert(!binds(q0, k)) by {
                                                    if binds(q0, k) {
                                                        let j = choose|j: int|
                                                            0 <= j < pat_ids(q0).len() && k
                                                                == seq![pat_ids(q0)[j]];
                                                        assert(pat_ids(q0).contains(
                                                            pat_ids(q0)[j],
                                                        ));
                                                        assert(pat_ids(*lhs).contains(
                                                            pat_ids(q0)[j],
                                                        ));
                                                        let q = choose|q: int|
                                                            0 <= q < pat_ids(*lhs).len()
                                                                && pat_ids(*lhs)[q] == pat_ids(
                                                                q0,
                                                            )[j];
                                                        assert(k == seq![pat_ids(*lhs)[q]]);
                                                    }
                                                }
                                                assert(frame_at(vpre, self.scope@.vars, k));
                                            }
                                        }
                                        lemma_frame_trans(vars0, vpre, self.scope@.vars, *lhs);
                                        lemma_errors_extended_trans(st0, stp, self.storage@);
                                        lemma_errors_extended_trans(st_base, stp, self.storage@);
                                        if ident_prefix_upto(elems@, i + 1) {
                                            match q0.kind {
                                                PatKind::Ident { id, has_type_ann } => {
                                                    let sc = with_vars(scope0, vars_iter);
                                                    let o = ident_assign_v(
                                                        sc,
                                                        id,
                                                        q0.span,
                                                        crate::typeops::sanitized_v(
                                                            elem_proj_v(itv, i, span)->Ok_0,
                                                        ),
                                                        opts.ignore_lhs_errors,
                                                        old(self).ctx.allow_ref_declaring,
                                                    );
                                                    assert(sc =~= with_vars(scope0, vars_iter));
                                                    assert(self.scope@.vars == o.vars);
                                                    assert(self.storage@ == after_ident_report(
                                                        st_iter,
                                                        o,
                                                    ));
                                                }
                                                _ => {}
                                            }
                                        }
                                    }
                                }
                                None => {}
                            }
                            proof {
                                if ident_prefix_upto(elems@, i + 1) {
                                    let step = array_ident_step(
                                        with_vars(scope0, vars_iter),
                                        st_iter,
                                        elems@[i as int],
                                        itv,
                                        i,
                                        span,
                                        opts.ignore_lhs_errors,
                                        old(self).ctx.allow_ref_declaring,
                                    );
                                    assert(self.scope@.vars == step.0 && self.storage@
                                        == step.1);
                                }
                            }
                        }
                        None => {}
                    }
                    proof {
                        if ident_prefix_upto(elems@, i + 1) {
                            assert(self.scope@.vars == array_ident_fold(
                                scope0,
                                st_base,
                                elems@,
                                itv,
                                span,
                                opts.ignore_lhs_errors,
                                old(self).ctx.allow_ref_declaring,
                                i + 1,
                            ).0 && self.storage@ == array_ident_fold(
                                scope0,
                                st_base,
                                elems@,
                                itv,
                                span,
                                opts.ignore_lhs_errors,
                                old(self).ctx.allow_ref_declaring,
                                i + 1,
                            ).1);
                        }
                    }
                }
                match rest_at {
                    None => {
                        proof {
                            assert forall|k: int|
                                0 <= k < elems@.len() implies !rest_ident_at(elems@, k) by {
                                assert(!is_rest_elem(elems@[k]));
                            }
                        }
                        Ok(())
                    }
                    Some(j) => {
                        proof {
                            assert(has_rest_elem(elems@)) by {
                                assert(is_rest_elem(elems@[j as int]));
                            }
                            assert(!ident_elems_only(elems@)) by {
                                assert(elems@[j as int] matches Some(p) && !(p.kind is Ident));
                            }
                        }
                        let ghost vars_pre = self.scope@.vars;
                        let ghost st_pre = self.storage@;
                        let ghost proj = rest_proj_v(itv, j, span);
                        let outcome: Result<(), ErrorKind> = match get_rest_elements(
                            span,
                            &it,
                            j,
                        ) {
                            Err(e) => {
                                proof {
                                    assert(proj == Err::<TyV, ErrorKind>(e));
                                }
                                Err(e)
                            }
                            Ok(rest_raw) => {
                                proof {
                                    assert(proj == Ok::<TyV, ErrorKind>(rest_raw@));
                                }
                                let rest_ty = sanitize(&rest_raw);
                                let sub_opts = PatAssignOpts {
                                    allow_iterable_on_rhs: true,
                                    ..opts
                                };
                                match &elems[j] {
                                    Some(rest_pat) => match &rest_pat.kind {
                                        PatKind::Rest { arg, has_type_ann } => {
                                            proof {
                                                assert(pat_wf(**arg)) by {
                                                    assert(pat_wf(elems@[j as int]->0));
                                                }
                                                assert(self.scope@ =~= with_vars(
                                                    scope0,
                                                    vars_pre,
                                                ));
                                            }
                                            self.try_assign_pat_with_opts(
                                                span,
                                                arg,
                                                &rest_ty,
                                                sub_opts,
                                            )
                                        }
                                        _ => Ok(()),
                                    },
                                    None => Ok(()),
                                }
                            }
                        };
                        proof {
                            lemma_elem_ids_contained(elems@, j as int);
                            let q0 = elems@[j as int]->0;
                            assert(frame_ok(vars_pre, self.scope@.vars, *lhs)) by {
                                assert forall|k: Seq<Id>|
                                    !binds(*lhs, k) implies #[trigger] frame_at(
                                    vars_pre,
                                    self.scope@.vars,
                                    k,
                                ) by {
                                    assert(!binds(q0, k)) by {
                                        if binds(q0, k) {
                                            let w = choose|w: int|
                                                0 <= w < pat_ids(q0).len() && k == seq![
                                                    pat_ids(q0)[w],
                                                ];
                                            assert(pat_ids(q0).contains(pat_ids(q0)[w]));
                                            assert(pat_ids(*lhs).contains(pat_ids(q0)[w]));
                                            let q = choose|q: int|
                                                0 <= q < pat_ids(*lhs).len() && pat_ids(*lhs)[q]
                                                    == pat_ids(q0)[w];
                                            assert(k == seq![pat_ids(*lhs)[q]]);
                                        }
                                    }
                                    match q0.kind {
                                        PatKind::Rest { arg, has_type_ann } => {
                                            assert(!binds(*arg, k)) by {
                                                if binds(*arg, k) {
                                                    let w = choose|w: int|
                                                        0 <= w < pat_ids(*arg).len() && k
                                                            == seq![pat_ids(*arg)[w]];
                                                    assert(k == seq![pat_ids(q0)[w]]);
                                                    assert(binds(q0, k));
                                                }
                                            }
                                            assert(frame_at(vars_pre, self.scope@.vars, k));
                                        }
                                        _ => {}
                                    }
                                }
                            }
                            lemma_frame_trans(vars0, vars_pre, self.scope@.vars, *lhs);
                            lemma_errors_extended_refl(self.storage@);
                            lemma_errors_extended_trans(st0, st_pre, self.storage@);
                            assert forall|k: int|
                                (0 <= k < elems@.len() && ident_prefix_upto(elems@, k)
                                    && #[trigger] rest_ident_at(
                                    elems@,
                                    k,
                                )) implies k == j as int by {
                                if k < j as int {
                                    assert(!is_rest_elem(elems@[k]));
                                }
                                if k > j as int {
                                    assert(elems@[j as int] matches Some(p2) ==> p2.kind
                                        is Ident);
                                    assert(!(q0.kind is Ident));
                                }
                            }
                            if rest_ident_at(elems@, j as int) && ident_prefix_upto(
                                elems@,
                                j as int,
                            ) {
                                let argp = *q0.kind->Rest_arg;
                                let id = argp.kind->Ident_id;
                                match proj {
                                    Err(e) => {
                                        assert(self.scope@.vars == vars_pre);
                                        assert(self.storage@ == st_pre);
                                    }
                                    Ok(rt) => {
                                        let o = ident_assign_v(
                                            with_vars(scope0, vars_pre),
                                            id,
                                            argp.span,
                                            crate::typeops::sanitized_v(rt),
                                            opts.ignore_lhs_errors,
                                            old(self).ctx.allow_ref_declaring,
                                        );
                                        assert(self.scope@.vars == o.vars);
                                        assert(self.storage@ == st_pre);
                                        assert(outcome == o.result);
                                    }
                                }
                            }
                        }
                        outcome
                    }
                }
            }
            PatKind::Object { props } => {
                let ghost vars0 = self.scope@.vars;
                let ghost scope0 = self.scope@;
                let ghost st0 = self.storage@;
                proof {
                    lemma_errors_extended_refl(st0);
                    assert(pat_ids(*lhs) == prop_list_ids(props@));
                }
                let n = props.len();
                for i in 0..n
                    invariant
                        n == props@.len(),
                        forall|k: int| 0 <= k < props@.len() ==> decreases_to!(*lhs => props@[k]),
                        lhs.kind matches PatKind::Object { props: ps } && ps@ == props@,
                        pat_ids(*lhs) == prop_list_ids(props@),
                        pat_wf(*lhs),
                        stored_ok(ty@),
                        vars0 == old(self).scope@.vars,
                        scope0 == old(self).scope@,
                        st0 == old(self).storage@,
                        forall|q: int| 0 <= q < i ==> !is_chain_rest(#[trigger] props@[q]),
                        self.wf(),
                        self.cur_facts == old(self).cur_facts,
                        self.ctx == old(self).ctx,
                        self.scope@.parent == old(self).scope@.parent,
                        self.scope@.declaring == old(self).scope@.declaring,
                        self.scope@.in_loop_body == old(self).scope@.in_loop_body,
                        errors_extended(st0, self.storage@),
                        frame_ok(vars0, self.scope@.vars, *lhs),
                        foldable_props_only(props@) ==> (self.scope@.vars == object_props_fold(
                            scope0,
                            st0,
                            props@,
                            ty@,
                            span,
                            opts.ignore_lhs_errors,
                            old(self).ctx.allow_ref_declaring,
                            i as int,
                        ).0 && self.storage@ == object_props_fold(
                            scope0,
                            st0,
                            props@,
                            ty@,
                            span,
                            opts.ignore_lhs_errors,
                            old(self).ctx.allow_ref_declaring,
                            i as int,
                        ).1),
                    decreases n - i,
                {
                    let ghost vars_iter = self.scope@.vars;
                    let ghost st_iter = self.storage@;
                    proof {
                        lemma_prop_ids_contained(props@, i as int);
                        assert(prop_wf(props@[i as int])) by {
                            assert(pat_wf(*lhs));
                        }
                    }
                    match &props[i] {
                        ObjectPatProp::KeyValue { key, value } => {
                            let key_sym: Option<Id> = match key {
                                PropName::Ident(sym) => Some(*sym),
                                PropName::Str(sym) => Some(*sym),
                                PropName::Num { value: _, sym } => Some(*sym),
                                PropName::Computed => None,
                            };
                            let prop_ty: Type = match key_sym {
                                Some(ks) => match access_property(span, ty, ks) {
                                    Ok(t) => sanitize(&t),
                                    Err(_) => Type::any(span).freezed(),
                                },
                                None => Type::any(span).freezed(),
                            };
                            proof {
                                assert(stored_ok(prop_ty@)) by {
                                    if !(prop_ty@.kind is Union) {
                                    }
                                }
                                assert(pat_wf(**value));
                                assert(prop_ty@ == obj_prop_ty_v(ty@, prop_key_sym(*key), span));
                            }
                            let ghost stp = self.storage@;
                            let ghost vpre = self.scope@.vars;
                            let r2 = self.try_assign_pat_with_opts(span, value, &prop_ty, opts);
                            match r2 {
                                Ok(()) => {}
                                Err(e) => {
                                    let ghost stq = self.storage@;
                                    self.storage.report(e);
                                    proof {
                                        lemma_errors_extended_snoc(stp, stq, e);
                                    }
                                }
                            }
                            proof {
                                assert(prop_ids(props@[i as int]) == pat_ids(**value));
                                assert(frame_ok(vpre, self.scope@.vars, *lhs)) by {
                                    assert forall|k: Seq<Id>|
                                        !binds(*lhs, k) implies #[trigger] frame_at(
                                        vpre,
                                        self.scope@.vars,
                                        k,
                                    ) by {
                                        assert(!binds(**value, k)) by {
                                            if binds(**value, k) {
                                                let j = choose|j: int|
                                                    0 <= j < pat_ids(**value).len() && k == seq![
                                                        pat_ids(**value)[j],
                                                    ];
                                                assert(pat_ids(**value).contains(
                                                    pat_ids(**value)[j],
                                                ));
                                                assert(prop_ids(props@[i as int]).contains(
                                                    pat_ids(**value)[j],
                                                ));
                                                assert(pat_ids(*lhs).contains(
                                                    pat_ids(**value)[j],
                                                ));
                                                let q = choose|q: int|
                                                    0 <= q < pat_ids(*lhs).len() && pat_ids(
                                                        *lhs,
                                                    )[q] == pat_ids(**value)[j];
                                                assert(k == seq![pat_ids(*lhs)[q]]);
                                            }
                                        }
                                        assert(frame_at(vpre, self.scope@.vars, k));
                                    }
                                }
                                lemma_frame_trans(vars0, vpre, self.scope@.vars, *lhs);
                                lemma_errors_extended_trans(st0, stp, self.storage@);
                                if foldable_props_only(props@) {
                                    match (**value).kind {
                                        PatKind::Ident { id, has_type_ann } => {
                                            let sc = with_vars(scope0, vars_iter);
                                            let o = ident_assign_v(
                                                sc,
                                                id,
                                                (**value).span,
                                                obj_prop_ty_v(ty@, prop_key_sym(*key), span),
                                                opts.ignore_lhs_errors,
                                                old(self).ctx.allow_ref_declaring,
                                            );
                                            assert(self.scope@.vars == o.vars);
                                            assert(self.storage@ == after_ident_report(
                                                st_iter,
                                                o,
                                            ));
                                            assert((self.scope@.vars, self.storage@)
                                                == object_prop_step(
                                                sc,
                                                st_iter,
                                                props@[i as int],
                                                ty@,
                                                span,
                                                opts.ignore_lhs_errors,
                                                old(self).ctx.allow_ref_declaring,
                                            ));
                                        }
                                        _ => {}
                                    }
                                }
                            }
                        }
                        ObjectPatProp::Assign { key_id, key_span } => {
                            let prop_ty: Type = match access_property(span, ty, *key_id) {
                                Ok(t) => sanitize(&t),
                                Err(_) => Type::any(span).freezed(),
                            };
                            proof {
                                assert(stored_ok(prop_ty@)) by {
                                    if !(prop_ty@.kind is Union) {
                                    }
                                }
                                assert(prop_ty@ == obj_prop_ty_v(ty@, Some(*key_id), span));
                            }
                            let ghost stp = self.storage@;
                            let ghost vpre = self.scope@.vars;
                            let r2 = self.assign_ident(*key_span, *key_id, &prop_ty, opts);
                            match r2 {
                                Ok(()) => {}
                                Err(e) => {
                                    let ghost stq = self.storage@;
                                    self.storage.report(e);
                                    proof {
                                        lemma_errors_extended_refl(stp);
                                        lemma_errors_extended_snoc(stp, stq, e);
                                    }
                                }
                            }
                            proof {
                                assert(prop_ids(props@[i as int]) =~= seq![*key_id]);
                                assert(prop_ids(props@[i as int])[0] == *key_id);
                                assert(prop_ids(props@[i as int]).contains(*key_id));
                                assert(pat_ids(*lhs).contains(*key_id));
                                assert(frame_ok(vpre, self.scope@.vars, *lhs)) by {
                                    assert forall|k: Seq<Id>|
                                        !binds(*lhs, k) implies #[trigger] frame_at(
                                        vpre,
                                        self.scope@.vars,
                                        k,
                                    ) by {
                                        assert(k != seq![*key_id]) by {
                                            if k == seq![*key_id] {
                                                let q = choose|q: int|
                                                    0 <= q < pat_ids(*lhs).len() && pat_ids(
                                                        *lhs,
                                                    )[q] == *key_id;
                                                assert(k == seq![pat_ids(*lhs)[q]]);
                                                assert(binds(*lhs, k));
                                            }
                                        }
                                    }
                                }
                                lemma_frame_trans(vars0, vpre, self.scope@.vars, *lhs);
                                lemma_errors_extended_refl(self.storage@);
                                lemma_errors_extended_trans(st0, stp, self.storage@);
                                if foldable_props_only(props@) {
                                    let sc = with_vars(scope0, vars_iter);
                                    let o = ident_assign_v(
                                        sc,
                                        *key_id,
                                        *key_span,
                                        obj_prop_ty_v(ty@, Some(*key_id), span),
                                        opts.ignore_lhs_errors,
                                        old(self).ctx.allow_ref_declaring,
                                    );
                                    assert(self.scope@.vars == o.vars);
                                    assert(self.storage@ == after_ident_report(st_iter, o));
                                    assert((self.scope@.vars, self.storage@) == object_prop_step(
                                        sc,
                                        st_iter,
                                        props@[i as int],
                                        ty@,
                                        span,
                                        opts.ignore_lhs_errors,
                                        old(self).ctx.allow_ref_declaring,
                                    ));
                                }
                            }
                        }
                        ObjectPatProp::Rest { arg, has_type_ann, span: rest_span } => {
                            match &arg.kind {
                                PatKind::Ident { id, has_type_ann } => {}
                                PatKind::Array { elems } => {
                                    let ghost stp = self.storage@;
                                    self.storage.report(
                                        ErrorKind::NotArrayType { span: arg.span },
                                    );
                                    let ghost stq = self.storage@;
                                    self.storage.report(
                                        ErrorKind::BindingPatNotAllowedInRestPatArg {
                                            span: arg.span,
                                        },
                                    );
                                    proof {
                                        lemma_errors_extended_push(
                                            stp,
                                            ErrorKind::NotArrayType { span: arg.span },
                                        );
                                        lemma_errors_extended_snoc(
                                            stp,
                                            stq,
                                            ErrorKind::BindingPatNotAllowedInRestPatArg {
                                                span: arg.span,
                                            },
                                        );
                                        lemma_errors_extended_trans(st0, stp, self.storage@);
                                    }
                                }
                                PatKind::Object { props } => {
                                    let ghost stp = self.storage@;
                                    self.storage.report(
                                        ErrorKind::BindingPatNotAllowedInRestPatArg {
                                            span: arg.span,
                                        },
                                    );
                                    proof {
                                        lemma_errors_extended_snoc(
                                            st0,
                                            stp,
                                            ErrorKind::BindingPatNotAllowedInRestPatArg {
                                                span: arg.span,
                                            },
                                        );
                                    }
                                }
                                PatKind::Expr { expr, lvalue_ty } => {
                                    if crate::ast::is_obj_opt_chaining(expr) {
                                        proof {
                                            assert(is_chain_rest(props@[i as int]));
                                            assert(has_chain_rest(props@));
                                            assert(!foldable_props_only(props@)) by {
                                                assert(is_chain_rest(props@[i as int]));
                                            }
                                        }
                                        return Err(
                                            ErrorKind::InvalidRestPatternInOptionalChain {
                                                span: *rest_span,
                                            },
                                        );
                                    }
                                    proof {
                                        assert(!is_chain_rest(props@[i as int]));
                                    }
                                    let ghost stp = self.storage@;
                                    self.storage.report(
                                        ErrorKind::BindingPatNotAllowedInRestPatArg {
                                            span: arg.span,
                                        },
                                    );
                                    proof {
                                        lemma_errors_extended_snoc(
                                            st0,
                                            stp,
                                            ErrorKind::BindingPatNotAllowedInRestPatArg {
                                                span: arg.span,
                                            },
                                        );
                                    }
                                }
                                PatKind::Invalid => {
                                    let ghost stp = self.storage@;
                                    self.storage.report(
                                        ErrorKind::RestArgMustBeVarOrMemberAccess {
                                            span: arg.span,
                                        },
                                    );
                                    proof {
                                        lemma_errors_extended_snoc(
                                            st0,
                                            stp,
                                            ErrorKind::RestArgMustBeVarOrMemberAccess {
                                                span: arg.span,
                                            },
                                        );
                                    }
                                }
                                _ => {}
                            }
                        }
                    }
                    proof {
                        if foldable_props_only(props@) {
                            let step = object_prop_step(
                                with_vars(scope0, vars_iter),
                                st_iter,
                                props@[i as int],
                                ty@,
                                span,
                                opts.ignore_lhs_errors,
                                old(self).ctx.allow_ref_declaring,
                            );
                            assert(self.scope@.vars == step.0 && self.storage@ == step.1);
                            assert(self.scope@.vars == object_props_fold(
                                scope0,
                                st0,
                                props@,
                                ty@,
                                span,
                                opts.ignore_lhs_errors,
                                old(self).ctx.allow_ref_declaring,
                                i + 1,
                            ).0 && self.storage@ == object_props_fold(
                                scope0,
                                st0,
                                props@,
                                ty@,
                                span,
                                opts.ignore_lhs_errors,
                                old(self).ctx.allow_ref_declaring,
                                i + 1,
                            ).1);
                        }
                    }
                }
                proof {
                    assert(!has_chain_rest(props@)) by {
                        if has_chain_rest(props@) {
                            let q = choose|q: int|
                                0 <= q < props@.len() && is_chain_rest(#[trigger] props@[q]);
                        }
                    }
                }
                Ok(())
            }
            PatKind::Rest { arg, has_type_ann } => {
                let array_ty = Type {
                    kind: TypeKind::Array(Box::new(clone_type(ty))),
                    meta: TypeMeta { span, frozen: true, prevent_converting_to_children: false },
                };
                proof {
                    assert(!(array_ty@.kind is Union));
                    assert(stored_ok(array_ty@));
                    assert(pat_wf(**arg));
                    assert(array_ty@ == array_of_v(ty@, span));
                }
                let r2 = self.try_assign_pat_with_opts(span, arg, &array_ty, opts);
                proof {
                    assert(pat_ids(*lhs) == pat_ids(**arg));
                    assert(frame_ok(old(self).scope@.vars, self.scope@.vars, *lhs)) by {
                        assert forall|k: Seq<Id>|
                            !binds(*lhs, k) implies #[trigger] frame_at(
                            old(self).scope@.vars,
                            self.scope@.vars,
                            k,
                        ) by {
                            assert(!binds(**arg, k)) by {
                                if binds(**arg, k) {
                                    let j = choose|j: int|
                                        0 <= j < pat_ids(**arg).len() && k == seq![
                                            pat_ids(**arg)[j],
                                        ];
                                    assert(k == seq![pat_ids(*lhs)[j]]);
                                }
                            }
                            assert(frame_at(old(self).scope@.vars, self.scope@.vars, k));
                        }
                    }
                }
                r2
            }
            PatKind::Expr { expr, lvalue_ty } => {
                proof {
                    lemma_errors_extended_refl(self.storage@);
                }
                if matches!(expr.kind, ExprKind::Lit(..)) {
                    self.storage.report(ErrorKind::InvalidLhsOfAssign { span: expr.span });
                    proof {
                        lemma_errors_extended_push(
                            old(self).storage@,
                            ErrorKind::InvalidLhsOfAssign { span: expr.span },
                        );
                    }
                    return Ok(());
                }
                match lvalue_ty {
                    Some(lt) => match assign(span, lt, ty) {
                        Ok(()) => Ok(()),
                        Err(e) => Err(e),
                    },
                    None => Ok(()),
                }
            }
        }
    }
}



/// The `any` type value at a span.
pub open spec fn any_v(span: Span) -> TyV {
    TyV {
        kind: TyKindV::Keyword(KeywordKind::Any),
        meta: TypeMeta { span, frozen: false, prevent_converting_to_children: false },
    }
}

/// The refined actual type a nullish assignment installs: the prior type
/// stripped of `null` and `undefined`, canonicalized.
pub open spec fn nullish_refined_v(prev: TyV) -> TyV {
    crate::typeops::sanitized_v(
        apply_facts_v(TypeFacts { bits: FACT_NE_UNDEFINED_OR_NULL }, prev),
    )
}

/// The identifiers an assignment target may update.
pub open spec fn target_ids(lhs: PatOrExpr) -> Seq<Id> {
    match lhs {
        PatOrExpr::Pat(p) => pat_ids(*p),
        PatOrExpr::Expr { expr, lvalue_ty } => match expr.kind {
            ExprKind::Ident(id) => seq![id],
            _ => Seq::empty(),
        },
    }
}

pub open spec fn target_binds(lhs: PatOrExpr, k: Seq<Id>) -> bool {
    exists|i: int| 0 <= i < target_ids(lhs).len() && k == seq![#[trigger] target_ids(lhs)[i]]
}

impl Analyzer {
    /// The type under which a variable is currently read: its narrowed
    /// actual type if one is recorded, else its declared type, else `any`.
    pub fn type_of_var(&self, span: Span, id: Id) -> (r: Result<Type, ErrorKind>)
        requires
            self.wf(),
        ensures
            match r {
                Ok(t) => scope_lookup(self.scope@, id) matches Some(vi) && t@
                    == crate::scope::read_type_v(vi, span),
                Err(e) => scope_lookup(self.scope@, id) is None && e == (ErrorKind::NoSuchVar {
                    span,
                    name: id,
                }),
            },
    {
        proof {
            crate::scope::lemma_parent_lookup_ok(self.scope, id);
        }
        let vi: &VarInfo = match self.scope.get_var(id) {
            Some(v) => v,
            None => match self.scope.search_parent(id) {
                Some(v) => v,
                None => {
                    return Err(ErrorKind::NoSuchVar { span, name: id });
                }
            },
        };
        match &vi.actual_ty {
            Some(a) => Ok(clone_type(a)),
            None => match &vi.ty {
                Some(d) => Ok(clone_type(d)),
                None => Ok(Type::any(span)),
            },
        }
    }

    /// Dispatch one assignment statement: check the target against the
    /// assigned type, run the pattern engine for plain `=` on a pattern, and
    /// refine the prior type of an identifier under `??=`.  Errors are
    /// reported, never returned.
    pub fn try_assign(&mut self, span: Span, op: AssignOp, lhs: &PatOrExpr, ty: &Type)
        requires
            old(self).wf(),
            stored_ok(ty@),
            lhs matches PatOrExpr::Pat(p) ==> pat_wf(**p),
        ensures
            final(self).wf(),
            final(self).cur_facts == old(self).cur_facts,
            final(self).ctx == old(self).ctx,
            final(self).scope@.parent == old(self).scope@.parent,
            final(self).scope@.declaring == old(self).scope@.declaring,
            final(self).scope@.in_loop_body == old(self).scope@.in_loop_body,
            errors_extended(old(self).storage@, final(self).storage@),
            forall|k: Seq<Id>|
                !target_binds(*lhs, k) ==> #[trigger] frame_at(
                    old(self).scope@.vars,
                    final(self).scope@.vars,
                    k,
                ),
            lhs matches PatOrExpr::Expr { expr, lvalue_ty } ==> {
                &&& final(self).storage@ == (if assignable(
                    match lvalue_ty {
                        Some(t) => t@,
                        None => any_v(span),
                    },
                    ty@,
                ) {
                    old(self).storage@
                } else {
                    old(self).storage@.push(ErrorKind::AssignFailed { span })
                })
                &&& (!(op == AssignOp::NullishAssign && expr.kind is Ident) ==> final(self).scope
                    == old(self).scope)
                &&& (op == AssignOp::NullishAssign ==> (expr.kind matches ExprKind::Ident(left)
                    ==> {
                    &&& (scope_lookup(old(self).scope@, left) is None ==> final(self).scope
                        == old(self).scope)
                    &&& (scope_lookup(old(self).scope@, left) matches Some(vi) ==> {
                        &&& (old(self).scope@.vars.dom().contains(seq![left]) ==> final(self).scope@.vars == old(self).scope@.vars.insert(
                            seq![left],
                            VarInfoV {
                                actual_ty: Some(
                                    nullish_refined_v(crate::scope::read_type_v(vi, span)),
                                ),
                                ..old(self).scope@.vars[seq![left]]
                            },
                        ))
                        &&& (!old(self).scope@.vars.dom().contains(seq![left]) ==> final(self).scope == old(self).scope)
                    })
                }))
            },
            op == AssignOp::Assign ==> (lhs matches PatOrExpr::Pat(p) ==> (p.kind
                matches PatKind::Ident { id, has_type_ann } ==> {
                &&& final(self).scope@.vars == ident_assign_v(
                    old(self).scope@,
                    id,
                    p.span,
                    ty@,
                    true,
                    old(self).ctx.allow_ref_declaring,
                ).vars
                &&& final(self).storage@ == (match ident_assign_v(
                    old(self).scope@,
                    id,
                    p.span,
                    ty@,
                    true,
                    old(self).ctx.allow_ref_declaring,
                ).result {
                    Ok(u) => old(self).storage@,
                    Err(e) => old(self).storage@.push(e),
                })
            })),
            op != AssignOp::Assign ==> (lhs matches PatOrExpr::Pat(p) ==> {
                &&& final(self).scope == old(self).scope
                &&& (p.kind matches PatKind::Ident { id, has_type_ann } ==> final(self).storage@
                    == (match scope_lookup(old(self).scope@, id) {
                    None => old(self).storage@,
                    Some(vi) => if assignable(crate::scope::read_type_v(vi, span), ty@) {
                        old(self).storage@
                    } else {
                        old(self).storage@.push(ErrorKind::AssignFailed { span })
                    },
                }))
                &&& (!(p.kind is Ident) ==> final(self).storage@ == old(self).storage@.push(
                    ErrorKind::InvalidOperatorForLhs { span, op },
                ))
            }),
    {
        proof {
            lemma_errors_extended_refl(self.storage@);
        }
        match lhs {
            PatOrExpr::Expr { expr, lvalue_ty } => {
                let lhs_ty: Type = match lvalue_ty {
                    Some(t) => clone_type(t),
                    None => Type::any(span),
                };
                proof {
                    assert(lhs_ty@ == (match *lvalue_ty {
                        Some(t) => t@,
                        None => any_v(span),
                    }));
                }
                let check = match op {
                    AssignOp::Assign => assign(span, &lhs_ty, ty),
                    _ => assign_with_op(span, op, &lhs_ty, ty),
                };
                match check {
                    Ok(()) => {}
                    Err(e) => {
                        self.storage.report(e);
                        proof {
                            lemma_errors_extended_push(old(self).storage@, e);
                        }
                    }
                }
                if matches!(op, AssignOp::NullishAssign) {
                    match &expr.kind {
                        ExprKind::Ident(left) => {
                            let left = *left;
                            let prior = self.type_of_var(span, left);
                            match prior {
                                Ok(prev) => {
                                    let ghost prevv = prev@;
                                    let tmp = apply_type_facts_to_type(
                                        TypeFacts::of(FACT_NE_UNDEFINED_OR_NULL),
                                        prev,
                                    );
                                    let refined = sanitize(&tmp);
                                    proof {
                                        assert(refined@ == nullish_refined_v(prevv));
                                    }
                                    let updated = match self.scope.get_var(left) {
                                        Some(vi) => Some(vi.clone()),
                                        None => None,
                                    };
                                    match updated {
                                        Some(mut nv) => {
                                            proof {
                                                assert(var_info_ok(nv@));
                                            }
                                            nv.actual_ty = Some(refined);
                                            proof {
                                                assert(var_info_ok(nv@));
                                                assert(nv@ == (VarInfoV {
                                                    actual_ty: Some(nullish_refined_v(prevv)),
                                                    ..old(self).scope@.vars[seq![left]]
                                                }));
                                            }
                                            self.scope.insert_var(left, nv);
                                            proof {
                                                assert forall|k: Seq<Id>|
                                                    !target_binds(*lhs, k) implies #[trigger] frame_at(
                                                    old(self).scope@.vars,
                                                    self.scope@.vars,
                                                    k,
                                                ) by {
                                                    assert(target_ids(*lhs) =~= seq![left]);
                                                    assert(target_ids(*lhs)[0] == left);
                                                    if k == seq![left] {
                                                        assert(target_binds(*lhs, k));
                                                    }
                                                }
                                            }
                                        }
                                        None => {}
                                    }
                                }
                                Err(_) => {}
                            }
                        }
                        _ => {}
                    }
                }
            }
            PatOrExpr::Pat(pat) => {
                if matches!(op, AssignOp::Assign) {
                    let sub_opts = PatAssignOpts {
                        ignore_lhs_errors: true,
                        allow_iterable_on_rhs: false,
                    };
                    let ghost st0 = self.storage@;
                    let r1 = self.try_assign_pat_with_opts(span, pat, ty, sub_opts);
                    match r1 {
                        Ok(()) => {}
                        Err(e) => {
                            let ghost stp = self.storage@;
                            self.storage.report(e);
                            proof {
                                lemma_errors_extended_snoc(st0, stp, e);
                            }
                        }
                    }
                    proof {
                        assert forall|k: Seq<Id>|
                            !target_binds(*lhs, k) implies #[trigger] frame_at(
                            old(self).scope@.vars,
                            self.scope@.vars,
                            k,
                        ) by {
                            assert(target_ids(*lhs) == pat_ids(**pat));
                            assert(!binds(**pat, k)) by {
                                if binds(**pat, k) {
                                    let j = choose|j: int|
                                        0 <= j < pat_ids(**pat).len() && k == seq![
                                            pat_ids(**pat)[j],
                                        ];
                                    assert(k == seq![target_ids(*lhs)[j]]);
                                    assert(target_binds(*lhs, k));
                                }
                            }
                            assert(frame_at(old(self).scope@.vars, self.scope@.vars, k));
                        }
                    }
                } else {
                    match &pat.kind {
                        PatKind::Ident { id, has_type_ann } => {
                            let lhs_res = self.type_of_var(span, *id);
                            match lhs_res {
                                Ok(lt) => {
                                    match assign_with_op(span, op, &lt, ty) {
                                        Ok(()) => {}
                                        Err(e) => {
                                            self.storage.report(e);
                                            proof {
                                                lemma_errors_extended_push(
                                                    old(self).storage@,
                                                    e,
                                                );
                                            }
                                        }
                                    }
                                }
                                Err(_) => {}
                            }
                        }
                        _ => {
                            self.storage.report(ErrorKind::InvalidOperatorForLhs { span, op });
                            proof {
                                lemma_errors_extended_push(
                                    old(self).storage@,
                                    ErrorKind::InvalidOperatorForLhs { span, op },
                                );
                            }
                        }
                    }
                }
            }
        }
    }
}


} // verus!
