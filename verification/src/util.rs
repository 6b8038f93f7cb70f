use vstd::prelude::*;
use crate::ast::PropName;
use crate::span::Span;
use crate::types::{Type, TypeKind, TypeMeta};

verus! {

/// A pair to check `(l, r)` and `(r, l)` with the same code.
#[derive(Debug, Clone, Copy)]
pub struct Comparator<T> {
    pub left: T,
    pub right: T,
}

impl<T: Copy> Comparator<T> {
    /// Try `op` on `(left, right)`, then on `(right, left)`, keeping the
    /// first answer.
    pub fn take_if_any_matches<F: Fn(T, T) -> Option<R>, R>(&self, op: F) -> (r: Option<R>)
        requires
            op.requires((self.left, self.right)),
            op.requires((self.right, self.left)),
        ensures
            r is Some ==> (exists|v: Option<R>|
                op.ensures((self.left, self.right), v) && v == r) || (exists|v: Option<R>|
                op.ensures((self.right, self.left), v) && v == r),
            r is None ==> exists|v: Option<R>, w: Option<R>|
                #![trigger op.ensures((self.left, self.right), v), op.ensures((self.right, self.left), w)]
                op.ensures((self.left, self.right), v) && v is None && op.ensures(
                    (self.right, self.left),
                    w,
                ) && w is None,
    {
        match op(self.left, self.right) {
            Some(v) => Some(v),
            None => op(self.right, self.left),
        }
    }

    /// Does `op` hold of both sides?
    pub fn both<F: Fn(T) -> bool>(&self, op: F) -> (r: bool)
        requires
            op.requires((self.left,)),
            op.requires((self.right,)),
        ensures
            r ==> exists|bl: bool, br: bool|
                #![trigger op.ensures((self.left,), bl), op.ensures((self.right,), br)]
                op.ensures((self.left,), bl) && bl && op.ensures((self.right,), br) && br,
            !r ==> (exists|bl: bool| op.ensures((self.left,), bl) && !bl) || (exists|br: bool|
                op.ensures((self.right,), br) && !br),
    {
        op(self.left) && op(self.right)
    }

    /// Does `op` hold of either side?
    pub fn any<F: Fn(T) -> bool>(&self, op: F) -> (r: bool)
        requires
            op.requires((self.left,)),
            op.requires((self.right,)),
        ensures
            r ==> (exists|bl: bool| op.ensures((self.left,), bl) && bl) || (exists|br: bool|
                op.ensures((self.right,), br) && br),
            !r ==> exists|bl: bool, br: bool|
                #![trigger op.ensures((self.left,), bl), op.ensures((self.right,), br)]
                op.ensures((self.left,), bl) && !bl && op.ensures((self.right,), br) && !br,
    {
        op(self.left) || op(self.right)
    }
}

/// Equality of property names across their spellable forms: identifier and
/// string names compare by their interned symbol, and a numeric name
/// carries the interned symbol of its decimal spelling, which the other two
/// forms compare against.  Computed names never compare equal, and neither
/// do two numeric names.
pub open spec fn prop_name_eq(l: PropName, r: PropName) -> bool {
    match (l, r) {
        (PropName::Ident(a), PropName::Ident(b)) => a == b,
        (PropName::Ident(a), PropName::Str(b)) => a == b,
        (PropName::Str(a), PropName::Ident(b)) => a == b,
        (PropName::Str(a), PropName::Str(b)) => a == b,
        (PropName::Ident(a), PropName::Num { value, sym }) => a == sym,
        (PropName::Str(a), PropName::Num { value, sym }) => a == sym,
        (PropName::Num { value, sym }, PropName::Ident(b)) => sym == b,
        (PropName::Num { value, sym }, PropName::Str(b)) => sym == b,
        _ => false,
    }
}

/// Decide [`prop_name_eq`].
pub fn is_prop_name_eq(l: &PropName, r: &PropName) -> (res: bool)
    ensures
        res == prop_name_eq(*l, *r),
{
    match (l, r) {
        (PropName::Ident(a), PropName::Ident(b)) => a == b,
        (PropName::Ident(a), PropName::Str(b)) => a == b,
        (PropName::Str(a), PropName::Ident(b)) => a == b,
        (PropName::Str(a), PropName::Str(b)) => a == b,
        (PropName::Ident(a), PropName::Num { value: _, sym }) => a == sym,
        (PropName::Str(a), PropName::Num { value: _, sym }) => a == sym,
        (PropName::Num { value: _, sym }, PropName::Ident(b)) => sym == b,
        (PropName::Num { value: _, sym }, PropName::Str(b)) => sym == b,
        _ => false,
    }
}

/// The union of two optional types: one side alone passes through, two sides
/// join in a union at the given span.
pub fn opt_union(span: Span, opt1: Option<Type>, opt2: Option<Type>) -> (r: Option<Type>)
    ensures
        opt1 is None && opt2 is None ==> r is None,
        opt1 is None ==> (opt2 matches Some(t) ==> r == Some(t)),
        opt2 is None ==> (opt1 matches Some(t) ==> r == Some(t)),
        opt1 matches Some(t1) ==> (opt2 matches Some(t2) ==> r matches Some(u) && u@
            == crate::union::fix_v(
            crate::types::TyV {
                kind: crate::types::TyKindV::Union(seq![t1@, t2@]),
                meta: TypeMeta { span, frozen: false, prevent_converting_to_children: false },
            },
        )),
{
    match (opt1, opt2) {
        (None, None) => None,
        (None, Some(v)) => Some(v),
        (Some(v), None) => Some(v),
        (Some(t1), Some(t2)) => {
            let ghost t1v = t1@;
            let ghost t2v = t2@;
            let mut members: Vec<Type> = Vec::new();
            members.push(t1);
            members.push(t2);
            let u = Type { kind: TypeKind::Union(members), meta: TypeMeta::at(span) };
            proof {
                assert(members@.drop_last().drop_last() =~= Seq::<Type>::empty());
                assert(crate::types::view_ty_list(Seq::<Type>::empty())
                    =~= Seq::<crate::types::TyV>::empty());
                assert(crate::types::view_ty_list(members@.drop_last()) =~= seq![t1v]);
                assert(crate::types::view_ty_list(members@) =~= seq![t1v, t2v]);
            }
            Some(u.fixed())
        }
    }
}

} // verus!
