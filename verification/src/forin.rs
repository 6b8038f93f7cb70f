use vstd::prelude::*;
use crate::analyzer::Analyzer;
use crate::assign::{
    array_ident_fold, array_iter_v, binds, errors_extended, frame_at, foldable_props_only,
    ident_elems_only, object_props_fold, pat_wf,
};
use crate::ast::{Expr, ExprKind, Pat, PatKind, VarDeclOrPat};
use crate::cond_facts::stored_ok;
use crate::error::ErrorKind;
use crate::name::Id;
use crate::span::Span;
use crate::types::{
    clone_type, lemma_view_ty_list, view_ty_list, KeywordKind, TyKindV, TyV, Type, TypeKind,
    TypeMeta, TypeParamDecl,
};
use crate::union::{new_union, new_union_v, umembers};

verus! {

/// The two heads a `for`-in/of loop can have.
#[derive(Clone, Copy, PartialEq, Eq, Structural, Debug)]
pub enum ForHeadKind {
    In,
    Of { is_awaited: bool },
}

/// The element type a `for`-in loop binds, from the type of its right side:
/// `string` over `object`, arrays and tuples; for a mapped type
/// `{ [P in keyof K]: ... }` the reference `Extract<keyof K, string>` (the
/// caller hands in the interned id of `Extract`); for any other constrained
/// mapped type the parameter itself; `string | number` otherwise.
pub open spec fn for_in_elem_v(t: TyV, extract_name: Id) -> TyV {
    let str_kwd = TyV {
        kind: TyKindV::Keyword(KeywordKind::Str),
        meta: TypeMeta {
            span: t.meta.span,
            frozen: false,
            prevent_converting_to_children: false,
        },
    };
    if t.is_kwd(KeywordKind::Object) || t.kind is Array || t.kind is Tuple {
        str_kwd
    } else {
        match t.kind {
            TyKindV::Mapped { param } => match param.constraint {
                Some(c) => if c.kind is Keyof {
                    TyV {
                        kind: TyKindV::Ref { name: extract_name, args: seq![*c, str_kwd] },
                        meta: TypeMeta {
                            span: t.meta.span,
                            frozen: false,
                            prevent_converting_to_children: false,
                        },
                    }
                } else {
                    TyV { kind: TyKindV::Param(param), meta: t.meta }
                },
                None => TyV {
                    kind: TyKindV::Union(
                        seq![
                            str_kwd,
                            TyV {
                                kind: TyKindV::Keyword(KeywordKind::Num),
                                meta: str_kwd.meta,
                            },
                        ],
                    ),
                    meta: TypeMeta {
                        span: t.meta.span,
                        frozen: false,
                        prevent_converting_to_children: false,
                    },
                },
            },
            _ => TyV {
                kind: TyKindV::Union(
                    seq![
                        str_kwd,
                        TyV { kind: TyKindV::Keyword(KeywordKind::Num), meta: str_kwd.meta },
                    ],
                ),
                meta: TypeMeta {
                    span: t.meta.span,
                    frozen: false,
                    prevent_converting_to_children: false,
                },
            },
        }
    }
}

impl Analyzer {
    /// Compute the element type a `for`-in head binds; see
    /// [`for_in_elem_v`].
    pub fn get_element_type_of_for_in(&self, rhs: &Type, extract_name: Id) -> (r: Type)
        ensures
            r@ == for_in_elem_v(rhs@, extract_name),
    {
        let span = rhs.span();
        let str_kwd = Type::keyword(KeywordKind::Str, span);
        if rhs.is_kwd(KeywordKind::Object) || rhs.is_array() || rhs.is_tuple() {
            return str_kwd;
        }
        match &rhs.kind {
            TypeKind::Mapped { param } => match &param.constraint {
                Some(c) => {
                    if matches!(c.kind, TypeKind::Keyof(..)) {
                        let mut args: Vec<Type> = Vec::new();
                        args.push(clone_type(c));
                        args.push(str_kwd);
                        let r = Type {
                            kind: TypeKind::Ref { name: extract_name, args },
                            meta: TypeMeta::at(span),
                        };
                        proof {
                            let av = r.kind->Ref_args@;
                            assert(av.len() == 2);
                            assert(av[0]@ == (**c)@);
                            assert(av.drop_last().drop_last() =~= Seq::<Type>::empty());
                            assert(view_ty_list(Seq::<Type>::empty()) =~= Seq::<TyV>::empty());
                            assert(av.drop_last() =~= seq![av[0]]);
                            assert(view_ty_list(av.drop_last()) =~= seq![(**c)@]);
                            assert(view_ty_list(av) =~= seq![(**c)@, av[1]@]);
                            let pv = crate::types::view_param(rhs.kind->Mapped_param);
                            assert(rhs@.kind == TyKindV::Mapped { param: pv });
                            assert(pv.constraint == Some(Box::new((**c)@)));
                            assert(*pv.constraint->0 == (**c)@);
                            assert(r@.kind =~~= for_in_elem_v(rhs@, extract_name).kind);
                            assert(r@ == for_in_elem_v(rhs@, extract_name));
                        }
                        r
                    } else {
                        let constraint = Some(Box::new(clone_type(c)));
                        let r = Type {
                            kind: TypeKind::Param(TypeParamDecl { name: param.name, constraint }),
                            meta: rhs.meta(),
                        };
                        proof {
                            let pv = crate::types::view_param(rhs.kind->Mapped_param);
                            assert(rhs@.kind == TyKindV::Mapped { param: pv });
                            assert(crate::types::view_param(r.kind->Param_0) == pv);
                            assert(r@.kind =~~= for_in_elem_v(rhs@, extract_name).kind);
                            assert(r@ == for_in_elem_v(rhs@, extract_name));
                        }
                        r
                    }
                }
                None => str_num_union(span),
            },
            _ => str_num_union(span),
        }
    }

    /// The element type a `for`-of head binds: the array's element, the
    /// union of a tuple's elements, a string's characters (`string`), `any`
    /// over `any`; anything else is not iterable.
    pub fn get_iterator_element_type(&self, span: Span, ty: &Type) -> (r: Result<Type, ErrorKind>)
        ensures
            match r {
                Ok(t) => match ty@.kind {
                    TyKindV::Array(elem) => t@ == *elem,
                    TyKindV::Tuple(elems) => t@ == new_union_v(span, elems),
                    TyKindV::Keyword(KeywordKind::Any) => t@ == ty@,
                    TyKindV::Keyword(KeywordKind::Str) => t@ == ty@,
                    _ => false,
                },
                Err(e) => !(ty@.kind is Array || ty@.kind is Tuple || ty@.is_any() || ty@.is_kwd(
                    KeywordKind::Str,
                )) && e == (ErrorKind::NotArrayType { span }),
            },
    {
        match &ty.kind {
            TypeKind::Array(elem) => Ok(clone_type(elem)),
            TypeKind::Tuple(elems) => {
                proof {
                    lemma_view_ty_list(elems@);
                }
                let mut copies: Vec<Type> = Vec::new();
                let n = elems.len();
                for i in 0..n
                    invariant
                        n == elems@.len(),
                        copies@.len() == i,
                        forall|k: int| 0 <= k < i ==> (#[trigger] copies@[k])@ == elems@[k]@,
                {
                    copies.push(clone_type(&elems[i]));
                }
                proof {
                    crate::types::lemma_view_list_congruence(copies@, elems@);
                }
                Ok(new_union(span, copies))
            }
            TypeKind::Keyword(KeywordKind::Any) => Ok(clone_type(ty)),
            TypeKind::Keyword(KeywordKind::Str) => Ok(clone_type(ty)),
            _ => Err(ErrorKind::NotArrayType { span }),
        }
    }

    /// The element type a `for await`-of head binds.  The model collapses
    /// the async iteration protocol onto the synchronous one: the awaited
    /// element of a stream of `T` is `T`.
    pub fn get_async_iterator_element_type(&self, span: Span, ty: &Type) -> (r: Result<
        Type,
        ErrorKind,
    >)
        ensures
            match r {
                Ok(t) => match ty@.kind {
                    TyKindV::Array(elem) => t@ == *elem,
                    TyKindV::Tuple(elems) => t@ == new_union_v(span, elems),
                    TyKindV::Keyword(KeywordKind::Any) => t@ == ty@,
                    TyKindV::Keyword(KeywordKind::Str) => t@ == ty@,
                    _ => false,
                },
                Err(e) => !(ty@.kind is Array || ty@.kind is Tuple || ty@.is_any() || ty@.is_kwd(
                    KeywordKind::Str,
                )) && e == (ErrorKind::NotArrayType { span }),
            },
    {
        self.get_iterator_element_type(span, ty)
    }

    /// Syntactic legality of a `for`-in/of head binding.
    pub fn validate_lhs_of_for_in_of_loop(&self, e: &VarDeclOrPat, kind: ForHeadKind) -> (r:
        Result<(), ErrorKind>)
        ensures
            r == for_lhs_verdict(*e, kind),
    {
        match e {
            VarDeclOrPat::VarDecl(v) => {
                if v.decls.len() > 0 {
                    self.validate_lhs_of_for_in_of_loop_pat(&v.decls[0].name, kind)
                } else {
                    Ok(())
                }
            }
            VarDeclOrPat::Pat(p) => self.validate_lhs_of_for_in_of_loop_pat(p, kind),
        }
    }

    /// Destructuring patterns are forbidden as a `for`-in head; expression
    /// heads have their own rules.
    pub fn validate_lhs_of_for_in_of_loop_pat(&self, p: &Pat, kind: ForHeadKind) -> (r: Result<
        (),
        ErrorKind,
    >)
        ensures
            r == for_lhs_pat_verdict(*p, kind),
    {
        match &p.kind {
            PatKind::Object { props } => match kind {
                ForHeadKind::In => Err(
                    ErrorKind::DestructuringBindingNotAllowedInLhsOfForIn { span: p.span },
                ),
                ForHeadKind::Of { is_awaited } => Ok(()),
            },
            PatKind::Array { elems } => match kind {
                ForHeadKind::In => Err(
                    ErrorKind::DestructuringBindingNotAllowedInLhsOfForIn { span: p.span },
                ),
                ForHeadKind::Of { is_awaited } => Ok(()),
            },
            PatKind::Expr { expr, lvalue_ty } => self.validate_lhs_of_for_in_of_loop_expr(
                expr,
                kind,
            ),
            _ => Ok(()),
        }
    }

    /// An optional-chain head is always rejected; identifiers, `this`,
    /// member accesses, parenthesized and assignment expressions pass;
    /// everything else is an invalid head expression.
    pub fn validate_lhs_of_for_in_of_loop_expr(&self, e: &Expr, kind: ForHeadKind) -> (r: Result<
        (),
        ErrorKind,
    >)
        ensures
            r == for_lhs_expr_verdict(*e, kind),
    {
        if crate::ast::is_obj_opt_chaining(e) {
            return match kind {
                ForHeadKind::In => Err(ErrorKind::InvalidRestPatternInForIn { span: e.span }),
                ForHeadKind::Of { is_awaited } => Err(
                    ErrorKind::InvalidRestPatternInForOf { span: e.span },
                ),
            };
        }
        match &e.kind {
            ExprKind::Ident(..) => Ok(()),
            ExprKind::This => Ok(()),
            ExprKind::Member { obj, prop } => Ok(()),
            ExprKind::Paren(..) => Ok(()),
            ExprKind::Assign(..) => Ok(()),
            _ => match kind {
                ForHeadKind::In => Err(ErrorKind::InvalidExprOfLhsOfForIn { span: e.span }),
                ForHeadKind::Of { is_awaited } => Err(
                    ErrorKind::InvalidExprOfLhsOfForOf { span: e.span },
                ),
            },
        }
    }

    /// Install the element type into the head binding: check the head's
    /// legality (reporting a violation), then assign the element type
    /// through the pattern, turning an assignability failure under a
    /// `for`-in head into its dedicated error.  A declaration head's
    /// declarators are installed by the surrounding visitor.
    pub fn validate_lhs_of_for_loop(
        &mut self,
        e: &VarDeclOrPat,
        elem_ty: &Type,
        kind: ForHeadKind,
    )
        requires
            old(self).wf(),
            stored_ok(elem_ty@),
            e matches VarDeclOrPat::Pat(p) ==> pat_wf(*p),
        ensures
            final(self).wf(),
            final(self).cur_facts == old(self).cur_facts,
            final(self).ctx == old(self).ctx,
            final(self).scope@.parent == old(self).scope@.parent,
            final(self).scope@.declaring == old(self).scope@.declaring,
            final(self).scope@.in_loop_body == old(self).scope@.in_loop_body,
            errors_extended(old(self).storage@, final(self).storage@),
            e matches VarDeclOrPat::Pat(p) ==> forall|k: Seq<Id>|
                !binds(*p, k) ==> #[trigger] frame_at(
                    old(self).scope@.vars,
                    final(self).scope@.vars,
                    k,
                ),
            e is VarDecl ==> final(self).scope == old(self).scope && final(self).storage@ == (
            match for_lhs_verdict(*e, kind) {
                Ok(u) => old(self).storage@,
                Err(v) => old(self).storage@.push(v),
            }),
            for_lhs_verdict(*e, kind) matches Err(v) ==> final(self).storage@.len() > old(
                self,
            ).storage@.len() && final(self).storage@[old(self).storage@.len() as int] == v,
            e matches VarDeclOrPat::Pat(p) ==> (p.kind matches PatKind::Array { elems } ==> (
            ident_elems_only(elems@) ==> {
                let base = match for_lhs_verdict(*e, kind) {
                    Ok(u) => old(self).storage@,
                    Err(v) => old(self).storage@.push(v),
                };
                let folded = array_ident_fold(
                    old(self).scope@,
                    if elem_ty@.kind is Tuple || elem_ty@.kind is Array || elem_ty@.is_any() {
                        base
                    } else {
                        base.push(ErrorKind::NotArrayType { span: p.span })
                    },
                    elems@,
                    array_iter_v(elem_ty@, p.span),
                    p.span,
                    false,
                    old(self).ctx.allow_ref_declaring,
                    elems@.len() as int,
                );
                final(self).scope@.vars == folded.0 && final(self).storage@ == folded.1
            })),
            e matches VarDeclOrPat::Pat(p) ==> (p.kind matches PatKind::Object { props } ==> (
            foldable_props_only(props@) ==> {
                let base = match for_lhs_verdict(*e, kind) {
                    Ok(u) => old(self).storage@,
                    Err(v) => old(self).storage@.push(v),
                };
                let folded = object_props_fold(
                    old(self).scope@,
                    base,
                    props@,
                    elem_ty@,
                    p.span,
                    false,
                    old(self).ctx.allow_ref_declaring,
                    props@.len() as int,
                );
                final(self).scope@.vars == folded.0 && final(self).storage@ == folded.1
            })),
            e matches VarDeclOrPat::Pat(p) ==> (p.kind matches PatKind::Ident {
                id,
                has_type_ann,
            } ==> {
                &&& final(self).scope@.vars == crate::assign::ident_assign_v(
                    old(self).scope@,
                    id,
                    p.span,
                    elem_ty@,
                    false,
                    old(self).ctx.allow_ref_declaring,
                ).vars
                &&& final(self).storage@ == (match crate::assign::ident_assign_v(
                    old(self).scope@,
                    id,
                    p.span,
                    elem_ty@,
                    false,
                    old(self).ctx.allow_ref_declaring,
                ).result {
                    Ok(u) => match for_lhs_verdict(*e, kind) {
                        Ok(u2) => old(self).storage@,
                        Err(v) => old(self).storage@.push(v),
                    },
                    Err(err) => (match for_lhs_verdict(*e, kind) {
                        Ok(u2) => old(self).storage@,
                        Err(v) => old(self).storage@.push(v),
                    }).push(
                        match (kind, err) {
                            (ForHeadKind::In, ErrorKind::AssignFailed { span: es }) => {
                                ErrorKind::WrongTypeForLhsOfForInLoop { span: es }
                            },
                            _ => err,
                        },
                    ),
                })
            }),
    {
        let span = match e {
            VarDeclOrPat::VarDecl(v) => {
                if v.decls.len() > 0 {
                    v.decls[0].span
                } else {
                    Span::dummy()
                }
            }
            VarDeclOrPat::Pat(p) => p.span,
        };
        proof {
            crate::assign::lemma_errors_extended_refl(self.storage@);
        }
        match self.validate_lhs_of_for_in_of_loop(e, kind) {
            Ok(()) => {}
            Err(err) => {
                self.storage.report(err);
                proof {
                    crate::assign::lemma_errors_extended_push(old(self).storage@, err);
                }
            }
        }
        let ghost st1 = self.storage@;
        match e {
            VarDeclOrPat::VarDecl(v) => {}
            VarDeclOrPat::Pat(pat) => {
                let r = self.try_assign_pat_with_opts(
                    span,
                    pat,
                    elem_ty,
                    crate::assign::PatAssignOpts::default(),
                );
                proof {
                    match &pat.kind {
                        PatKind::Array { elems } => {
                            if ident_elems_only(elems@) {
                                assert(!crate::assign::has_rest_elem(elems@)) by {
                                    if crate::assign::has_rest_elem(elems@) {
                                        let w = choose|w: int|
                                            0 <= w < elems@.len() && (#[trigger] elems@[w]
                                                matches Some(p2) && p2.kind is Rest);
                                        assert(elems@[w] matches Some(p3) ==> p3.kind
                                            is Ident);
                                    }
                                }
                                assert(r is Ok);
                            }
                        }
                        PatKind::Object { props } => {
                            if foldable_props_only(props@) {
                                assert(!crate::assign::has_chain_rest(props@)) by {
                                    if crate::assign::has_chain_rest(props@) {
                                        let w = choose|w: int|
                                            0 <= w < props@.len()
                                                && crate::assign::is_chain_rest(
                                                #[trigger] props@[w],
                                            );
                                    }
                                }
                                assert(r is Ok);
                            }
                        }
                        _ => {}
                    }
                }
                match r {
                    Ok(()) => {}
                    Err(err) => {
                        let converted = match (kind, err) {
                            (ForHeadKind::In, ErrorKind::AssignFailed { span: es }) => {
                                ErrorKind::WrongTypeForLhsOfForInLoop { span: es }
                            }
                            _ => err,
                        };
                        let ghost stp = self.storage@;
                        self.storage.report(converted);
                        proof {
                            crate::assign::lemma_errors_extended_snoc(st1, stp, converted);
                        }
                    }
                }
                proof {
                    crate::assign::lemma_errors_extended_trans(
                        old(self).storage@,
                        st1,
                        self.storage@,
                    );
                }
            }
        }
        proof {
            crate::assign::lemma_errors_extended_refl(self.storage@);
            if for_lhs_verdict(*e, kind) is Err {
                let v = for_lhs_verdict(*e, kind)->Err_0;
                let base = old(self).storage@.len() as int;
                assert(st1 == old(self).storage@.push(v));
                assert(errors_extended(st1, self.storage@));
                assert(st1[base] == v);
                assert(self.storage@.take(st1.len() as int)[base] == v);
                assert(self.storage@[base] == v);
            }
        }
    }
}

fn str_num_union(span: Span) -> (r: Type)
    ensures
        r@.kind == TyKindV::Union(
            seq![
                TyV {
                    kind: TyKindV::Keyword(KeywordKind::Str),
                    meta: TypeMeta { span, frozen: false, prevent_converting_to_children: false },
                },
                TyV {
                    kind: TyKindV::Keyword(KeywordKind::Num),
                    meta: TypeMeta { span, frozen: false, prevent_converting_to_children: false },
                },
            ],
        ),
        r@.meta == (TypeMeta { span, frozen: false, prevent_converting_to_children: false }),
{
    let mut members: Vec<Type> = Vec::new();
    members.push(Type::keyword(KeywordKind::Str, span));
    members.push(Type::keyword(KeywordKind::Num, span));
    let r = Type { kind: TypeKind::Union(members), meta: TypeMeta::at(span) };
    proof {
        let mv = r.kind->Union_0@;
        assert(mv.drop_last().drop_last() =~= Seq::<Type>::empty());
        assert(view_ty_list(Seq::<Type>::empty()) =~= Seq::<TyV>::empty());
        assert(view_ty_list(mv.drop_last()) =~= seq![mv[0]@]);
        assert(view_ty_list(mv) =~= seq![mv[0]@, mv[1]@]);
        assert(r@.kind =~~= TyKindV::Union(
            seq![
                TyV {
                    kind: TyKindV::Keyword(KeywordKind::Str),
                    meta: TypeMeta { span, frozen: false, prevent_converting_to_children: false },
                },
                TyV {
                    kind: TyKindV::Keyword(KeywordKind::Num),
                    meta: TypeMeta { span, frozen: false, prevent_converting_to_children: false },
                },
            ],
        ));
    }
    r
}

/// The verdict on a head binding.
pub open spec fn for_lhs_verdict(e: VarDeclOrPat, kind: ForHeadKind) -> Result<(), ErrorKind> {
    match e {
        VarDeclOrPat::VarDecl(v) => if v.decls@.len() > 0 {
            for_lhs_pat_verdict(v.decls@[0].name, kind)
        } else {
            Ok(())
        },
        VarDeclOrPat::Pat(p) => for_lhs_pat_verdict(p, kind),
    }
}

pub open spec fn for_lhs_pat_verdict(p: Pat, kind: ForHeadKind) -> Result<(), ErrorKind> {
    match p.kind {
        PatKind::Object { props } => if kind is In {
            Err(ErrorKind::DestructuringBindingNotAllowedInLhsOfForIn { span: p.span })
        } else {
            Ok(())
        },
        PatKind::Array { elems } => if kind is In {
            Err(ErrorKind::DestructuringBindingNotAllowedInLhsOfForIn { span: p.span })
        } else {
            Ok(())
        },
        PatKind::Expr { expr, lvalue_ty } => for_lhs_expr_verdict(expr, kind),
        _ => Ok(()),
    }
}

pub open spec fn for_lhs_expr_verdict(e: Expr, kind: ForHeadKind) -> Result<(), ErrorKind> {
    if crate::ast::obj_opt_chaining(e) {
        if kind is In {
            Err(ErrorKind::InvalidRestPatternInForIn { span: e.span })
        } else {
            Err(ErrorKind::InvalidRestPatternInForOf { span: e.span })
        }
    } else {
        match e.kind {
            ExprKind::Ident(..) => Ok(()),
            ExprKind::This => Ok(()),
            ExprKind::Member { obj, prop } => Ok(()),
            ExprKind::Paren(..) => Ok(()),
            ExprKind::Assign(..) => Ok(()),
            _ => if kind is In {
                Err(ErrorKind::InvalidExprOfLhsOfForIn { span: e.span })
            } else {
                Err(ErrorKind::InvalidExprOfLhsOfForOf { span: e.span })
            },
        }
    }
}

impl Analyzer {
    /// Report a type annotation on the head declaration of a `for`-in/of
    /// loop; annotations there are invalid.
    pub fn check_type_ann_on_for_lhs(&mut self, e: &VarDeclOrPat, kind: ForHeadKind)
        requires
            old(self).wf(),
        ensures
            final(self).wf(),
            final(self).scope == old(self).scope,
            final(self).cur_facts == old(self).cur_facts,
            final(self).ctx == old(self).ctx,
            errors_extended(old(self).storage@, final(self).storage@),
            head_has_type_ann(*e) ==> final(self).storage@ == old(self).storage@.push(
                match kind {
                    ForHeadKind::In => ErrorKind::TypeAnnOnLhsOfForInLoops {
                        span: head_decl_span(*e),
                    },
                    ForHeadKind::Of { is_awaited } => ErrorKind::TypeAnnOnLhsOfForOfLoops {
                        span: head_decl_span(*e),
                    },
                },
            ),
            !head_has_type_ann(*e) ==> final(self).storage == old(self).storage,
    {
        proof {
            crate::assign::lemma_errors_extended_refl(self.storage@);
        }
        match e {
            VarDeclOrPat::VarDecl(v) => {
                if v.decls.len() > 0 {
                    let has_ann = match &v.decls[0].name.kind {
                        PatKind::Ident { id, has_type_ann } => *has_type_ann,
                        PatKind::Rest { arg, has_type_ann } => *has_type_ann,
                        _ => false,
                    };
                    if has_ann {
                        let err = match kind {
                            ForHeadKind::In => ErrorKind::TypeAnnOnLhsOfForInLoops {
                                span: v.decls[0].span,
                            },
                            ForHeadKind::Of { is_awaited } => ErrorKind::TypeAnnOnLhsOfForOfLoops {
                                span: v.decls[0].span,
                            },
                        };
                        self.storage.report(err);
                        proof {
                            crate::assign::lemma_errors_extended_push(old(self).storage@, err);
                        }
                    }
                }
            }
            VarDeclOrPat::Pat(p) => {}
        }
    }

    /// Report a string iterated by a plain `for`-of when the compilation
    /// target predates the version that learned to (the caller hands the
    /// numeric target in).
    pub fn check_es3_for_of_string(
        &mut self,
        span: Span,
        rty: &Type,
        kind: ForHeadKind,
        target_supports_string_iteration: bool,
    )
        requires
            old(self).wf(),
        ensures
            final(self).wf(),
            final(self).scope == old(self).scope,
            final(self).cur_facts == old(self).cur_facts,
            final(self).ctx == old(self).ctx,
            errors_extended(old(self).storage@, final(self).storage@),
            (kind == ForHeadKind::Of { is_awaited: false } && !target_supports_string_iteration
                && exists|i: int|
                0 <= i < umembers(rty@).len() && crate::union::str_or_union(
                    #[trigger] umembers(rty@)[i],
                )) <==> final(self).storage@ == old(self).storage@.push(
                ErrorKind::ForOfStringUsedInEs3 { span },
            ),
            final(self).storage@ != old(self).storage@.push(
                ErrorKind::ForOfStringUsedInEs3 { span },
            ) ==> final(self).storage == old(self).storage,
    {
        proof {
            crate::assign::lemma_errors_extended_refl(self.storage@);
        }
        let applies = matches!(kind, ForHeadKind::Of { is_awaited: false })
            && !target_supports_string_iteration;
        if !applies {
            proof {
                assert(final(self).storage@ != old(self).storage@.push(
                    ErrorKind::ForOfStringUsedInEs3 { span },
                )) by {
                    assert(self.storage@.len() != old(self).storage@.len() + 1);
                }
            }
            return;
        }
        let members = crate::union::flatten_members(rty);
        proof {
            lemma_view_ty_list(members@);
        }
        let ghost ms = umembers(rty@);
        let n = members.len();
        let mut found = false;
        for i in 0..n
            invariant
                n == members@.len(),
                ms == umembers(rty@),
                view_ty_list(members@) == ms,
                ms.len() == n,
                forall|k: int| 0 <= k < members@.len() ==> #[trigger] members@[k]@ == ms[k],
                found ==> exists|k: int|
                    0 <= k < ms.len() && crate::union::str_or_union(#[trigger] ms[k]),
                !found ==> forall|k: int| 0 <= k < i ==> !crate::union::str_or_union(
                    #[trigger] ms[k],
                ),
                self == old(self),
        {
            if !found && crate::union::is_str_or_union(&members[i]) {
                found = true;
            }
        }
        if found {
            let err = ErrorKind::ForOfStringUsedInEs3 { span };
            self.storage.report(err);
            proof {
                crate::assign::lemma_errors_extended_push(old(self).storage@, err);
            }
        } else {
            proof {
                assert(forall|i: int|
                    0 <= i < umembers(rty@).len() ==> !crate::union::str_or_union(
                        #[trigger] umembers(rty@)[i],
                    ));
                assert(self.storage@ != old(self).storage@.push(
                    ErrorKind::ForOfStringUsedInEs3 { span },
                )) by {
                    assert(self.storage@.len() != old(self).storage@.len() + 1);
                }
            }
        }
    }
}

/// The element a `for`-of head draws from its right side, when it is
/// iterable at all.
pub open spec fn for_of_elem_v(t: TyV, span: Span) -> Option<TyV> {
    match t.kind {
        TyKindV::Array(elem) => Some(*elem),
        TyKindV::Tuple(elems) => Some(new_union_v(span, elems)),
        TyKindV::Keyword(KeywordKind::Any) => Some(t),
        TyKindV::Keyword(KeywordKind::Str) => Some(t),
        _ => None,
    }
}

impl Analyzer {
    /// The element type the head binding of a `for`-in/of loop receives,
    /// canonicalized: the for-in key type, or the element the right side
    /// yields under iteration.  A right side that cannot be iterated is
    /// reported — for a plain `for`-of over a literal with the sharper
    /// error — and the binding falls back to `any`.
    pub fn element_type_for_head(
        &mut self,
        span: Span,
        rty: &Type,
        kind: ForHeadKind,
        extract_name: Id,
        rhs_is_literal: bool,
    ) -> (elem: Type)
        requires
            old(self).wf(),
        ensures
            final(self).wf(),
            final(self).scope == old(self).scope,
            final(self).cur_facts == old(self).cur_facts,
            final(self).ctx == old(self).ctx,
            crate::cond_facts::stored_ok(elem@),
            kind is In ==> elem@ == crate::typeops::sanitized_v(
                for_in_elem_v(rty@, extract_name),
            ) && final(self).storage == old(self).storage,
            kind is Of ==> (match for_of_elem_v(rty@, span) {
                Some(t) => elem@ == crate::typeops::sanitized_v(t) && final(self).storage == old(
                    self,
                ).storage,
                None => elem@ == (TyV {
                    kind: TyKindV::Keyword(KeywordKind::Any),
                    meta: TypeMeta { span, frozen: true, prevent_converting_to_children: false },
                }) && final(self).storage@ == old(self).storage@.push(
                    if kind == (ForHeadKind::Of { is_awaited: false }) && rhs_is_literal {
                        ErrorKind::NotArrayTypeNorStringType { span }
                    } else {
                        ErrorKind::NotArrayType { span }
                    },
                ),
            }),
    {
        match kind {
            ForHeadKind::In => {
                let raw = self.get_element_type_of_for_in(rty, extract_name);
                crate::typeops::sanitize(&raw)
            }
            ForHeadKind::Of { is_awaited } => {
                let res = if is_awaited {
                    self.get_async_iterator_element_type(span, rty)
                } else {
                    self.get_iterator_element_type(span, rty)
                };
                match res {
                    Ok(t) => crate::typeops::sanitize(&t),
                    Err(e) => {
                        let err = if !is_awaited {
                            convert_for_of_iterator_error(e, rhs_is_literal)
                        } else {
                            e
                        };
                        self.storage.report(err);
                        Type::any(span).freezed()
                    }
                }
            }
        }
    }
}

/// The span of the head declaration's first declarator.
pub open spec fn head_decl_span(e: VarDeclOrPat) -> Span {
    match e {
        VarDeclOrPat::VarDecl(v) => if v.decls@.len() > 0 {
            v.decls@[0].span
        } else {
            Span { lo: 0, hi: 0 }
        },
        VarDeclOrPat::Pat(p) => p.span,
    }
}

/// Does the head declaration carry a type annotation on its binding?
pub open spec fn head_has_type_ann(e: VarDeclOrPat) -> bool {
    e matches VarDeclOrPat::VarDecl(v) && v.decls@.len() > 0 && (match v.decls@[0].name.kind {
        PatKind::Ident { id, has_type_ann } => has_type_ann,
        PatKind::Rest { arg, has_type_ann } => has_type_ann,
        _ => false,
    })
}

/// Convert the iterator error of a `for`-of over a literal right side: a
/// literal that is not an array is not a string either.
pub fn convert_for_of_iterator_error(err: ErrorKind, rhs_is_literal: bool) -> (r: ErrorKind)
    ensures
        r == (match err {
            ErrorKind::NotArrayType { span } => if rhs_is_literal {
                ErrorKind::NotArrayTypeNorStringType { span }
            } else {
                err
            },
            _ => err,
        }),
{
    match err {
        ErrorKind::NotArrayType { span } => {
            if rhs_is_literal {
                ErrorKind::NotArrayTypeNorStringType { span }
            } else {
                err
            }
        }
        _ => err,
    }
}


} // verus!
