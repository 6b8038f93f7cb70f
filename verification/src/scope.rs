use vstd::prelude::*;
use crate::assoc::AMap;
use crate::cond_facts::stored_ok;
use crate::name::{Id, Name};
use crate::span::Span;
use crate::types::{clone_type, KeywordKind, TyKindV, TyV, Type, TypeMeta};

verus! {

/// What the scope records about one variable: its declared type (immutable
/// after declaration), the narrowed type at this program point, and flags.
#[derive(Debug)]
pub struct VarInfo {
    /// The declared type, if the declaration had one.
    pub ty: Option<Type>,
    /// The narrowed ("actual") type at this program point.
    pub actual_ty: Option<Type>,
    /// This entry shadows one of a parent scope.
    pub copied: bool,
    pub initialized: bool,
    pub is_actual_type_modified_in_loop: bool,
}

/// The mathematical value of a [`VarInfo`].
#[verifier::ext_equal]
pub struct VarInfoV {
    pub ty: Option<TyV>,
    pub actual_ty: Option<TyV>,
    pub copied: bool,
    pub initialized: bool,
    pub is_actual_type_modified_in_loop: bool,
}

impl View for VarInfo {
    type V = VarInfoV;

    open spec fn view(&self) -> VarInfoV {
        VarInfoV {
            ty: match self.ty {
                Some(t) => Some(t@),
                None => None,
            },
            actual_ty: match self.actual_ty {
                Some(t) => Some(t@),
                None => None,
            },
            copied: self.copied,
            initialized: self.initialized,
            is_actual_type_modified_in_loop: self.is_actual_type_modified_in_loop,
        }
    }
}

pub open spec fn opt_stored_ok(o: Option<TyV>) -> bool {
    match o {
        Some(t) => stored_ok(t),
        None => true,
    }
}

/// Both recorded types are fit to store.
pub open spec fn var_info_ok(v: VarInfoV) -> bool {
    opt_stored_ok(v.ty) && opt_stored_ok(v.actual_ty)
}

impl Clone for VarInfo {
    fn clone(&self) -> (r: Self)
        ensures
            r@ == self@,
    {
        VarInfo {
            ty: match &self.ty {
                Some(t) => Some(clone_type(t)),
                None => None,
            },
            actual_ty: match &self.actual_ty {
                Some(t) => Some(clone_type(t)),
                None => None,
            },
            copied: self.copied,
            initialized: self.initialized,
            is_actual_type_modified_in_loop: self.is_actual_type_modified_in_loop,
        }
    }
}

/// The mathematical value of a [`Scope`] and its ancestors.
#[verifier::ext_equal]
pub struct ScopeV {
    pub vars: Map<Seq<Id>, VarInfoV>,
    pub declaring: Seq<Id>,
    pub in_loop_body: bool,
    pub parent: Option<Box<ScopeV>>,
}

/// One lexical scope: its variables, the identifiers currently being
/// declared, and its parent.  Variables are keyed by length-1 names.
#[derive(Debug)]
pub struct Scope {
    pub vars: AMap<VarInfo>,
    pub declaring: Vec<Id>,
    pub in_loop_body: bool,
    pub parent: Option<Box<Scope>>,
}

pub open spec fn view_scope(s: Scope) -> ScopeV
    decreases s,
{
    ScopeV {
        vars: s.vars@,
        declaring: s.declaring@,
        in_loop_body: s.in_loop_body,
        parent: match s.parent {
            Some(p) => Some(Box::new(view_scope(*p))),
            None => None,
        },
    }
}

impl View for Scope {
    type V = ScopeV;

    open spec fn view(&self) -> ScopeV {
        view_scope(*self)
    }
}

/// Well-formed scope chain: association vectors well formed, stored types
/// fit, all the way up.
pub open spec fn scope_wf(s: Scope) -> bool
    decreases s,
{
    &&& s.vars.wf()
    &&& forall|k: Seq<Id>| s.vars@.dom().contains(k) ==> var_info_ok(#[trigger] s.vars@[k])
    &&& match s.parent {
        Some(p) => scope_wf(*p),
        None => true,
    }
}

/// Look `id` up in the ancestors of `s`, nearest first.
pub open spec fn parent_lookup(s: ScopeV, id: Id) -> Option<VarInfoV>
    decreases s,
{
    match s.parent {
        Some(p) => if p.vars.dom().contains(seq![id]) {
            Some(p.vars[seq![id]])
        } else {
            parent_lookup(*p, id)
        },
        None => None,
    }
}

/// The type under which a variable is read: its narrowed actual type if one
/// is recorded, else its declared type, else `any` at the reading span.
pub open spec fn read_type_v(vi: VarInfoV, span: Span) -> TyV {
    match vi.actual_ty {
        Some(a) => a,
        None => match vi.ty {
            Some(d) => d,
            None => TyV {
                kind: TyKindV::Keyword(KeywordKind::Any),
                meta: TypeMeta { span, frozen: false, prevent_converting_to_children: false },
            },
        },
    }
}

/// Look `id` up here, then in the ancestors.
pub open spec fn scope_lookup(s: ScopeV, id: Id) -> Option<VarInfoV> {
    if s.vars.dom().contains(seq![id]) {
        Some(s.vars[seq![id]])
    } else {
        parent_lookup(s, id)
    }
}

/// Looked-up entries of a well-formed scope chain are well formed.
pub proof fn lemma_parent_lookup_ok(s: Scope, id: Id)
    requires
        scope_wf(s),
    ensures
        parent_lookup(s@, id) matches Some(vi) ==> var_info_ok(vi),
    decreases s,
{
    match s.parent {
        Some(p) => {
            lemma_parent_lookup_ok(*p, id);
        }
        None => {}
    }
}

impl Scope {
    pub open spec fn wf(self) -> bool {
        scope_wf(self)
    }

    pub fn root() -> (r: Scope)
        ensures
            r.wf(),
            r@.vars == Map::<Seq<Id>, VarInfoV>::empty(),
            r@.declaring == Seq::<Id>::empty(),
            !r@.in_loop_body,
            r@.parent is None,
    {
        Scope { vars: AMap::new(), declaring: Vec::new(), in_loop_body: false, parent: None }
    }

    /// A fresh child scope of this one.
    pub fn child_of(self, in_loop_body: bool) -> (r: Scope)
        ensures
            r@.vars == Map::<Seq<Id>, VarInfoV>::empty(),
            r@.declaring == Seq::<Id>::empty(),
            r@.in_loop_body == in_loop_body,
            r@.parent == Some(Box::new(self@)),
            self.wf() ==> r.wf(),
    {
        Scope {
            vars: AMap::new(),
            declaring: Vec::new(),
            in_loop_body,
            parent: Some(Box::new(self)),
        }
    }

    /// The variable as this scope itself records it, parents not consulted.
    pub fn get_var(&self, id: Id) -> (r: Option<&VarInfo>)
        requires
            self.wf(),
        ensures
            match r {
                Some(v) => self@.vars.dom().contains(seq![id]) && v@ == self@.vars[seq![id]],
                None => !self@.vars.dom().contains(seq![id]),
            },
    {
        let k = Name::of_id(id);
        proof {
            assert(k@ =~= seq![id]);
        }
        self.vars.get(&k)
    }

    /// The variable as the nearest ancestor records it.
    pub fn search_parent(&self, id: Id) -> (r: Option<&VarInfo>)
        requires
            self.wf(),
        ensures
            match r {
                Some(v) => parent_lookup(self@, id) == Some(v@),
                None => parent_lookup(self@, id) is None,
            },
        decreases *self,
    {
        match &self.parent {
            Some(p) => {
                match p.get_var(id) {
                    Some(v) => Some(v),
                    None => p.search_parent(id),
                }
            }
            None => None,
        }
    }

    /// Record `info` for `id` in this scope, replacing any earlier entry.
    pub fn insert_var(&mut self, id: Id, info: VarInfo)
        requires
            old(self).wf(),
            var_info_ok(info@),
        ensures
            final(self).wf(),
            final(self)@.vars == old(self)@.vars.insert(seq![id], info@),
            final(self)@.declaring == old(self)@.declaring,
            final(self)@.in_loop_body == old(self)@.in_loop_body,
            final(self)@.parent == old(self)@.parent,
    {
        let k = Name::of_id(id);
        proof {
            assert(k@ =~= seq![id]);
        }
        let ghost pre = self.vars@;
        self.vars.set(k, info);
        proof {
            assert forall|q: Seq<Id>|
                #[trigger] self.vars@.dom().contains(q) implies var_info_ok(self.vars@[q]) by {
                if q == seq![id] {
                } else {
                    assert(self.vars@[q] == pre[q]);
                }
            }
        }
    }


    /// A copy of this scope's own variables, for the loop analyzer to
    /// restore after its final pass, so that variables mutated only during
    /// the analysis do not leak.
    pub fn snapshot_vars(&self) -> (r: AMap<VarInfo>)
        requires
            self.wf(),
        ensures
            r.wf(),
            r@ == self@.vars,
            forall|k: Seq<Id>| r@.dom().contains(k) ==> var_info_ok(#[trigger] r@[k]),
    {
        let mut entries: Vec<(Name, VarInfo)> = Vec::new();
        let n = self.vars.len();
        for i in 0..n
            invariant
                n == self.vars.spec_len(),
                self.wf(),
                entries@.len() == i,
                forall|j: int| 0 <= j < i ==> (#[trigger] entries@[j]).0@ == self.vars.entries@[j].0@,
                forall|j: int| 0 <= j < i ==> (#[trigger] entries@[j]).1@ == self.vars.entries@[j].1@,
                forall|j: int| 0 <= j < i ==> (#[trigger] entries@[j]).0.wf(),
        {
            let k = self.vars.key_at(i).clone();
            let v = self.vars.value_at(i).clone();
            entries.push((k, v));
        }
        proof {
            crate::assoc::lemma_as_map_congruence(self.vars.entries@, entries@);
            assert forall|j: int|
                0 <= j < entries@.len() implies (#[trigger] entries@[j]).0.wf() by {
                assert(entries@[j].0@ == self.vars.entries@[j].0@);
            }
        }
        let r = AMap { entries };
        proof {
            assert forall|k: Seq<Id>|
                r@.dom().contains(k) implies var_info_ok(#[trigger] r@[k]) by {
                assert(r@[k] == self@.vars[k]);
            }
        }
        r
    }

    /// Reinstall a variable snapshot taken by [`Scope::snapshot_vars`].
    pub fn restore_vars(&mut self, saved: AMap<VarInfo>)
        requires
            old(self).wf(),
            saved.wf(),
            forall|k: Seq<Id>| saved@.dom().contains(k) ==> var_info_ok(#[trigger] saved@[k]),
        ensures
            final(self).wf(),
            final(self)@.vars == saved@,
            final(self)@.declaring == old(self)@.declaring,
            final(self)@.in_loop_body == old(self)@.in_loop_body,
            final(self)@.parent == old(self)@.parent,
    {
        self.vars = saved;
    }

    pub fn is_in_loop_body(&self) -> (r: bool)
        ensures
            r == self@.in_loop_body,
    {
        self.in_loop_body
    }

    /// Is `id` currently being declared?
    pub fn is_declaring(&self, id: Id) -> (r: bool)
        ensures
            r == self@.declaring.contains(id),
    {
        let n = self.declaring.len();
        for i in 0..n
            invariant
                n == self.declaring@.len(),
                forall|j: int| 0 <= j < i ==> self.declaring@[j] != id,
        {
            if self.declaring[i] == id {
                return true;
            }
        }
        false
    }
}

} // verus!
