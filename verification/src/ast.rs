use vstd::prelude::*;
use crate::name::Id;
use crate::span::Span;
use crate::types::{LitValue, Type};

verus! {

/// Assignment operators, collapsed to the three behaviours the core
/// distinguishes: plain assignment, nullish assignment (`??=`), and the
/// other compound operators, which all defer to the external
/// compound-assignability check.
#[derive(Clone, Copy, PartialEq, Eq, Structural, Debug)]
pub enum AssignOp {
    Assign,
    NullishAssign,
    OtherCompound,
}

/// Left-hand-side expression shapes.  The surrounding visitor evaluates
/// expressions; the core only inspects their shape.
#[derive(Debug)]
pub enum ExprKind {
    Ident(Id),
    Member { obj: Box<Expr>, prop: Id },
    This,
    Paren(Box<Expr>),
    Assign(Box<Expr>),
    Lit(LitValue),
    /// An optional-chaining access (`a?.b`), on the given base.
    OptChain(Box<Expr>),
    Other,
}

#[derive(Debug)]
pub struct Expr {
    pub kind: ExprKind,
    pub span: Span,
}

/// Is the expression an optional-chaining access, possibly behind member
/// accesses or parentheses?
pub open spec fn obj_opt_chaining(e: Expr) -> bool
    decreases e,
{
    match e.kind {
        ExprKind::OptChain(..) => true,
        ExprKind::Member { obj, prop } => obj_opt_chaining(*obj),
        ExprKind::Paren(inner) => obj_opt_chaining(*inner),
        _ => false,
    }
}

/// Decide [`obj_opt_chaining`].
pub fn is_obj_opt_chaining(e: &Expr) -> (r: bool)
    ensures
        r == obj_opt_chaining(*e),
    decreases *e,
{
    match &e.kind {
        ExprKind::OptChain(..) => true,
        ExprKind::Member { obj, prop } => is_obj_opt_chaining(obj),
        ExprKind::Paren(inner) => is_obj_opt_chaining(inner),
        _ => false,
    }
}

/// A property name in an object pattern or literal.  A numeric name carries
/// its interned decimal spelling beside its value, as the interning table
/// does, so that names compare across the three spellable forms.
#[derive(Clone, Copy, PartialEq, Eq, Structural, Debug)]
pub enum PropName {
    Ident(Id),
    Str(Id),
    Num { value: i64, sym: Id },
    Computed,
}

/// Binding pattern shapes.  Where a pattern embeds an expression, the node
/// carries what the collaborating evaluator said about it — the core never
/// evaluates expressions itself:
/// - a default (`lhs = default`) carries the evaluated type of the default
///   expression, `None` when its evaluation failed;
/// - an expression target carries its evaluated lvalue type, `None` when
///   evaluation failed.
#[derive(Debug)]
pub enum PatKind {
    /// A pattern the parser already rejected.
    Invalid,
    Ident { id: Id, has_type_ann: bool },
    Assign { left: Box<Pat>, default_ty: Option<Type> },
    Array { elems: Vec<Option<Pat>> },
    Object { props: Vec<ObjectPatProp> },
    Rest { arg: Box<Pat>, has_type_ann: bool },
    Expr { expr: Expr, lvalue_ty: Option<Type> },
}

#[derive(Debug)]
pub struct Pat {
    pub kind: PatKind,
    pub span: Span,
}

#[derive(Debug)]
pub enum ObjectPatProp {
    /// `{ key: pat }`.
    KeyValue { key: PropName, value: Box<Pat> },
    /// Shorthand `{ key }`, possibly with a default.
    Assign { key_id: Id, key_span: Span },
    /// `{ ...rest }`.
    Rest { arg: Box<Pat>, has_type_ann: bool, span: Span },
}

/// The target of an assignment statement: a pattern or an expression.
#[derive(Debug)]
pub enum PatOrExpr {
    Pat(Box<Pat>),
    Expr { expr: Expr, lvalue_ty: Option<Type> },
}

#[derive(Clone, Copy, PartialEq, Eq, Structural, Debug)]
pub enum VarDeclKind {
    Var,
    Let,
    Const,
}

#[derive(Debug)]
pub struct VarDeclarator {
    pub name: Pat,
    pub span: Span,
}

#[derive(Debug)]
pub struct VarDecl {
    pub kind: VarDeclKind,
    pub decls: Vec<VarDeclarator>,
}

/// The head binding of a `for`-in/of loop.
#[derive(Debug)]
pub enum VarDeclOrPat {
    VarDecl(VarDecl),
    Pat(Pat),
}

/// The identifiers a pattern binds, in source order.
pub open spec fn pat_ids(p: Pat) -> Seq<Id>
    decreases p,
{
    match p.kind {
        PatKind::Ident { id, has_type_ann } => seq![id],
        PatKind::Assign { left, default_ty } => pat_ids(*left),
        PatKind::Array { elems } => pat_opt_list_ids(elems@),
        PatKind::Object { props } => prop_list_ids(props@),
        PatKind::Rest { arg, has_type_ann } => pat_ids(*arg),
        _ => Seq::empty(),
    }
}

pub open spec fn pat_opt_list_ids(s: Seq<Option<Pat>>) -> Seq<Id>
    decreases s,
{
    if s.len() == 0 {
        Seq::empty()
    } else {
        pat_opt_list_ids(s.drop_last()) + (match s.last() {
            Some(p) => pat_ids(p),
            None => Seq::empty(),
        })
    }
}

pub open spec fn prop_list_ids(s: Seq<ObjectPatProp>) -> Seq<Id>
    decreases s,
{
    if s.len() == 0 {
        Seq::empty()
    } else {
        prop_list_ids(s.drop_last()) + prop_ids(s.last())
    }
}

pub open spec fn prop_ids(p: ObjectPatProp) -> Seq<Id>
    decreases p,
{
    match p {
        ObjectPatProp::KeyValue { key, value } => pat_ids(*value),
        ObjectPatProp::Assign { key_id, key_span } => seq![key_id],
        ObjectPatProp::Rest { arg, has_type_ann, span } => pat_ids(*arg),
    }
}

/// Collect the identifiers a pattern binds, in source order.
pub fn find_ids_in_pat(p: &Pat) -> (r: Vec<Id>)
    ensures
        r@ == pat_ids(*p),
    decreases *p, 1int,
{
    match &p.kind {
        PatKind::Ident { id, has_type_ann } => {
            let mut out: Vec<Id> = Vec::new();
            out.push(*id);
            proof {
                assert(out@ =~= seq![*id]);
            }
            out
        }
        PatKind::Assign { left, default_ty } => find_ids_in_pat(left),
        PatKind::Array { elems } => {
            let mut out: Vec<Id> = Vec::new();
            let n = elems.len();
            proof {
                assert(out@ =~= pat_opt_list_ids(elems@.take(0)));
            }
            for i in 0..n
                invariant
                    n == elems@.len(),
                    forall|k: int| 0 <= k < elems@.len() ==> decreases_to!(*p => elems@[k]),
                    out@ == pat_opt_list_ids(elems@.take(i as int)),
            {
                proof {
                    assert(elems@.take(i + 1).drop_last() =~= elems@.take(i as int));
                    assert(elems@.take(i + 1).last() == elems@[i as int]);
                }
                match &elems[i] {
                    Some(ep) => {
                        let mut sub = find_ids_in_pat(ep);
                        proof {
                            assert(pat_opt_list_ids(elems@.take(i + 1)) =~= pat_opt_list_ids(
                                elems@.take(i as int),
                            ) + pat_ids(*ep));
                        }
                        out.append(&mut sub);
                    }
                    None => {
                        proof {
                            assert(out@ + Seq::<Id>::empty() =~= out@);
                        }
                    }
                }
            }
            proof {
                assert(elems@.take(n as int) =~= elems@);
            }
            out
        }
        PatKind::Object { props } => {
            let mut out: Vec<Id> = Vec::new();
            let n = props.len();
            proof {
                assert(out@ =~= prop_list_ids(props@.take(0)));
            }
            for i in 0..n
                invariant
                    n == props@.len(),
                    forall|k: int| 0 <= k < props@.len() ==> decreases_to!(*p => props@[k]),
                    out@ == prop_list_ids(props@.take(i as int)),
            {
                proof {
                    assert(props@.take(i + 1).drop_last() =~= props@.take(i as int));
                    assert(props@.take(i + 1).last() == props@[i as int]);
                }
                match &props[i] {
                    ObjectPatProp::KeyValue { key, value } => {
                        let mut sub = find_ids_in_pat(value);
                        proof {
                            let cur = props@[i as int];
                            assert(prop_ids(cur) == pat_ids(**value));
                            assert(prop_list_ids(props@.take(i + 1)) =~= prop_list_ids(
                                props@.take(i as int),
                            ) + prop_ids(cur));
                        }
                        out.append(&mut sub);
                    }
                    ObjectPatProp::Assign { key_id, key_span } => {
                        out.push(*key_id);
                        proof {
                            let cur = props@[i as int];
                            assert(cur == ObjectPatProp::Assign {
                                key_id: *key_id,
                                key_span: *key_span,
                            });
                            assert(prop_ids(cur) =~= seq![*key_id]);
                            assert(prop_list_ids(props@.take(i + 1)) =~= prop_list_ids(
                                props@.take(i as int),
                            ) + prop_ids(cur));
                            assert(out@ =~= prop_list_ids(props@.take(i + 1)));
                        }
                    }
                    ObjectPatProp::Rest { arg, has_type_ann, span } => {
                        let mut sub = find_ids_in_pat(arg);
                        proof {
                            let cur = props@[i as int];
                            assert(prop_ids(cur) == pat_ids(**arg));
                            assert(prop_list_ids(props@.take(i + 1)) =~= prop_list_ids(
                                props@.take(i as int),
                            ) + prop_ids(cur));
                        }
                        out.append(&mut sub);
                    }
                }
            }
            proof {
                assert(props@.take(n as int) =~= props@);
            }
            out
        }
        PatKind::Rest { arg, has_type_ann } => find_ids_in_pat(arg),
        _ => {
            let out: Vec<Id> = Vec::new();
            out
        }
    }
}

} // verus!
