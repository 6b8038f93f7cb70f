use vstd::prelude::*;
use crate::assoc::{entries_as_map, lemma_as_map_contains, lemma_as_map_index, AMap};
use crate::name::{Id, Name};
use crate::type_facts::TypeFacts;
use crate::types::{
    clone_type, lemma_type_eq_refl, lemma_view_ty_list, lemma_view_list_congruence, type_eq,
    view_ty_list, TyKindV, TyV, Type, TypeMeta, valid,
};
use crate::union::{
    cheap_stored, covered_by, covers, lemma_cheap_stored_members, lemma_covers_refl,
    lemma_tequiv_refl, lemma_umembers_list_flat, lemma_umembers_valid,
    lemma_view_ty_list_concat, tequiv, umembers, umembers_list,
};

verus! {

/// A list of types, viewed as the sequence of its members' values.  Used for
/// the per-name excluded-type lists.
#[derive(Debug)]
pub struct TypeList {
    pub list: Vec<Type>,
}

impl View for TypeList {
    type V = Seq<TyV>;

    open spec fn view(&self) -> Seq<TyV> {
        view_ty_list(self.list@)
    }
}

impl TypeList {
    pub fn new() -> (r: Self)
        ensures
            r@ == Seq::<TyV>::empty(),
    {
        TypeList { list: Vec::new() }
    }

    pub fn len(&self) -> (r: usize)
        ensures
            r == self@.len(),
    {
        proof {
            lemma_view_ty_list(self.list@);
        }
        self.list.len()
    }

    pub fn at(&self, i: usize) -> (r: &Type)
        requires
            i < self@.len(),
        ensures
            r@ == self@[i as int],
    {
        proof {
            lemma_view_ty_list(self.list@);
        }
        &self.list[i]
    }

    pub fn push(&mut self, t: Type)
        ensures
            final(self)@ == old(self)@.push(t@),
    {
        proof {
            assert(old(self).list@.push(t).drop_last() =~= old(self).list@);
        }
        self.list.push(t);
    }

    /// Append the other list's members, in order.
    pub fn extend(&mut self, other: TypeList)
        ensures
            final(self)@ == old(self)@ + other@,
    {
        let mut other = other;
        proof {
            lemma_view_ty_list_concat(self.list@, other.list@);
        }
        self.list.append(&mut other.list);
    }
}

impl Clone for TypeList {
    fn clone(&self) -> (r: Self)
        ensures
            r@ == self@,
    {
        let mut out: Vec<Type> = Vec::new();
        let n = self.list.len();
        for i in 0..n
            invariant
                n == self.list@.len(),
                out@.len() == i,
                forall|j: int| 0 <= j < i ==> (#[trigger] out@[j])@ == self.list@[j]@,
        {
            out.push(clone_type(&self.list[i]));
        }
        proof {
            lemma_view_list_congruence(out@, self.list@);
        }
        TypeList { list: out }
    }
}

/// The mathematical value of a [`CondFacts`]: four maps from key paths to
/// value views.
#[verifier::ext_equal]
pub struct CondFactsV {
    pub facts: Map<Seq<Id>, TypeFacts>,
    pub vars: Map<Seq<Id>, TyV>,
    pub excludes: Map<Seq<Id>, Seq<TyV>>,
    pub types: Map<Seq<Id>, TyV>,
}

impl CondFactsV {
    /// The empty fact store.
    pub open spec fn empty() -> CondFactsV {
        CondFactsV {
            facts: Map::empty(),
            vars: Map::empty(),
            excludes: Map::empty(),
            types: Map::empty(),
        }
    }
}

/// A type value fit to be stored in a fact store: valid, and cheap to clone
/// unless it is a union of cheap members.
pub open spec fn stored_ok(t: TyV) -> bool {
    valid(t) && cheap_stored(t)
}

pub open spec fn all_stored_ok(s: Seq<TyV>) -> bool {
    forall|i: int| 0 <= i < s.len() ==> stored_ok(#[trigger] s[i])
}

/// Every type value held in the store is fit to be stored.
pub open spec fn values_wf(v: CondFactsV) -> bool {
    &&& forall|k: Seq<Id>| v.vars.dom().contains(k) ==> stored_ok(#[trigger] v.vars[k])
    &&& forall|k: Seq<Id>| v.types.dom().contains(k) ==> stored_ok(#[trigger] v.types[k])
    &&& forall|k: Seq<Id>| v.excludes.dom().contains(k) ==> all_stored_ok(#[trigger] v.excludes[k])
}

/// Accumulated predicates: bitwise-or.
pub open spec fn or_facts(x: TypeFacts, y: TypeFacts) -> TypeFacts {
    TypeFacts { bits: x.bits | y.bits }
}

/// The widened binding sequential composition installs when both sides bind
/// a name: the flattened union of both sides' members, frozen, at the
/// previous binding's span.
pub open spec fn compose_var(p: TyV, q: TyV) -> TyV {
    TyV {
        kind: TyKindV::Union(umembers(p) + umembers(q)),
        meta: TypeMeta { span: p.meta.span, frozen: true, prevent_converting_to_children: false },
    }
}

/// The merged binding a parallel join installs when both sides bind a name:
/// the two-member union, at the left binding's span.
pub open spec fn or_var(p: TyV, q: TyV) -> TyV {
    TyV {
        kind: TyKindV::Union(seq![p, q]),
        meta: TypeMeta { span: p.meta.span, frozen: false, prevent_converting_to_children: false },
    }
}

/// Merge two predicate maps: keys union, values or-ed where both are bound.
pub open spec fn join_facts_maps(
    a: Map<Seq<Id>, TypeFacts>,
    b: Map<Seq<Id>, TypeFacts>,
) -> Map<Seq<Id>, TypeFacts> {
    Map::new(
        |k: Seq<Id>| a.dom().contains(k) || b.dom().contains(k),
        |k: Seq<Id>|
            if a.dom().contains(k) && b.dom().contains(k) {
                or_facts(a[k], b[k])
            } else if b.dom().contains(k) {
                b[k]
            } else {
                a[k]
            },
    )
}

/// Merge two binding maps sequentially: keys union, both bound composing by
/// [`compose_var`].
pub open spec fn compose_vars_maps(
    a: Map<Seq<Id>, TyV>,
    b: Map<Seq<Id>, TyV>,
) -> Map<Seq<Id>, TyV> {
    Map::new(
        |k: Seq<Id>| a.dom().contains(k) || b.dom().contains(k),
        |k: Seq<Id>|
            if a.dom().contains(k) && b.dom().contains(k) {
                compose_var(a[k], b[k])
            } else if b.dom().contains(k) {
                b[k]
            } else {
                a[k]
            },
    )
}

/// Merge two binding maps in parallel: keys union, both bound merging by
/// [`or_var`].
pub open spec fn or_vars_maps(a: Map<Seq<Id>, TyV>, b: Map<Seq<Id>, TyV>) -> Map<Seq<Id>, TyV> {
    Map::new(
        |k: Seq<Id>| a.dom().contains(k) || b.dom().contains(k),
        |k: Seq<Id>|
            if a.dom().contains(k) && b.dom().contains(k) {
                or_var(a[k], b[k])
            } else if b.dom().contains(k) {
                b[k]
            } else {
                a[k]
            },
    )
}

/// Merge two exclusion maps: keys union, lists concatenated where both are
/// bound.
pub open spec fn join_excl_maps(
    a: Map<Seq<Id>, Seq<TyV>>,
    b: Map<Seq<Id>, Seq<TyV>>,
) -> Map<Seq<Id>, Seq<TyV>> {
    Map::new(
        |k: Seq<Id>| a.dom().contains(k) || b.dom().contains(k),
        |k: Seq<Id>|
            if a.dom().contains(k) && b.dom().contains(k) {
                a[k] + b[k]
            } else if b.dom().contains(k) {
                b[k]
            } else {
                a[k]
            },
    )
}

/// Sequential composition of two fact stores: "this branch, then that one".
/// Predicates accumulate, later type bindings win, bindings of both sides
/// widen to their union, exclusions concatenate.
pub open spec fn compose_v(a: CondFactsV, b: CondFactsV) -> CondFactsV {
    CondFactsV {
        facts: join_facts_maps(a.facts, b.facts),
        vars: compose_vars_maps(a.vars, b.vars),
        excludes: join_excl_maps(a.excludes, b.excludes),
        types: a.types.union_prefer_right(b.types),
    }
}

/// Parallel join of two fact stores: "either branch may have executed".
pub open spec fn join_v(a: CondFactsV, b: CondFactsV) -> CondFactsV {
    CondFactsV {
        facts: join_facts_maps(a.facts, b.facts),
        vars: or_vars_maps(a.vars, b.vars),
        excludes: join_excl_maps(a.excludes, b.excludes),
        types: or_vars_maps(a.types, b.types),
    }
}

pub proof fn lemma_join_facts_insert(
    a: Map<Seq<Id>, TypeFacts>,
    m: Map<Seq<Id>, TypeFacts>,
    k: Seq<Id>,
    v: TypeFacts,
)
    requires
        !m.dom().contains(k),
    ensures
        join_facts_maps(a, m.insert(k, v)) == join_facts_maps(a, m).insert(
            k,
            if a.dom().contains(k) {
                or_facts(a[k], v)
            } else {
                v
            },
        ),
{
    assert(join_facts_maps(a, m.insert(k, v)) =~= join_facts_maps(a, m).insert(
        k,
        if a.dom().contains(k) {
            or_facts(a[k], v)
        } else {
            v
        },
    ));
}

pub proof fn lemma_compose_vars_insert(
    a: Map<Seq<Id>, TyV>,
    m: Map<Seq<Id>, TyV>,
    k: Seq<Id>,
    v: TyV,
)
    requires
        !m.dom().contains(k),
    ensures
        compose_vars_maps(a, m.insert(k, v)) == compose_vars_maps(a, m).insert(
            k,
            if a.dom().contains(k) {
                compose_var(a[k], v)
            } else {
                v
            },
        ),
{
    assert(compose_vars_maps(a, m.insert(k, v)) =~= compose_vars_maps(a, m).insert(
        k,
        if a.dom().contains(k) {
            compose_var(a[k], v)
        } else {
            v
        },
    ));
}

pub proof fn lemma_or_vars_insert(a: Map<Seq<Id>, TyV>, m: Map<Seq<Id>, TyV>, k: Seq<Id>, v: TyV)
    requires
        !m.dom().contains(k),
    ensures
        or_vars_maps(a, m.insert(k, v)) == or_vars_maps(a, m).insert(
            k,
            if a.dom().contains(k) {
                or_var(a[k], v)
            } else {
                v
            },
        ),
{
    assert(or_vars_maps(a, m.insert(k, v)) =~= or_vars_maps(a, m).insert(
        k,
        if a.dom().contains(k) {
            or_var(a[k], v)
        } else {
            v
        },
    ));
}

pub proof fn lemma_join_excl_insert(
    a: Map<Seq<Id>, Seq<TyV>>,
    m: Map<Seq<Id>, Seq<TyV>>,
    k: Seq<Id>,
    v: Seq<TyV>,
)
    requires
        !m.dom().contains(k),
    ensures
        join_excl_maps(a, m.insert(k, v)) == join_excl_maps(a, m).insert(
            k,
            if a.dom().contains(k) {
                a[k] + v
            } else {
                v
            },
        ),
{
    assert(join_excl_maps(a, m.insert(k, v)) =~= join_excl_maps(a, m).insert(
        k,
        if a.dom().contains(k) {
            a[k] + v
        } else {
            v
        },
    ));
}

/// Sequential composition keeps stored bindings fit.
pub proof fn lemma_compose_var_stored(p: TyV, q: TyV)
    requires
        stored_ok(p),
        stored_ok(q),
    ensures
        stored_ok(compose_var(p, q)),
{
    lemma_umembers_valid(p);
    lemma_umembers_valid(q);
    lemma_cheap_stored_members(p);
    lemma_cheap_stored_members(q);
    let ms = umembers(p) + umembers(q);
    let c = compose_var(p, q);
    assert(valid(c));
    lemma_umembers_list_flat(ms);
    assert(umembers(c) == ms);
    assert forall|i: int| 0 <= i < umembers(c).len() implies (
    #[trigger] umembers(c)[i]).is_clone_cheap() by {
        if i < umembers(p).len() {
            assert(umembers(c)[i] == umembers(p)[i]);
        } else {
            assert(umembers(c)[i] == umembers(q)[i - umembers(p).len()]);
        }
    }
}

/// Parallel merging keeps stored bindings fit.
pub proof fn lemma_or_var_stored(p: TyV, q: TyV)
    requires
        stored_ok(p),
        stored_ok(q),
    ensures
        stored_ok(or_var(p, q)),
{
    lemma_cheap_stored_members(p);
    lemma_cheap_stored_members(q);
    let c = or_var(p, q);
    let pq = seq![p, q];
    assert(valid(c)) by {
        assert forall|i: int| 0 <= i < pq.len() implies valid(#[trigger] pq[i]) by {
            assert(pq[0] == p && pq[1] == q);
        }
    }
    assert(seq![p, q].drop_last() =~= seq![p]);
    assert(seq![p].drop_last() =~= Seq::<TyV>::empty());
    assert(umembers_list(Seq::<TyV>::empty()) =~= Seq::<TyV>::empty());
    assert(umembers_list(seq![p]) =~= umembers(p));
    assert(umembers(c) =~= umembers(p) + umembers(q));
    assert forall|i: int| 0 <= i < umembers(c).len() implies (
    #[trigger] umembers(c)[i]).is_clone_cheap() by {
        if i < umembers(p).len() {
            assert(umembers(c)[i] == umembers(p)[i]);
        } else {
            assert(umembers(c)[i] == umembers(q)[i - umembers(p).len()]);
        }
    }
}

/// The fact store for one branch side: predicates asserted about names,
/// direct narrowed bindings, excluded types, and locally bound type names.
#[derive(Debug)]
pub struct CondFacts {
    /// Predicates asserted about each name.
    pub facts: AMap<TypeFacts>,
    /// Direct narrowed binding for each name; overrides the scope's actual
    /// type.
    pub vars: AMap<Type>,
    /// Types removed from each name's candidate set.
    pub excludes: AMap<TypeList>,
    /// Locally introduced type bindings, keyed by length-1 names.
    pub types: AMap<Type>,
}

impl View for CondFacts {
    type V = CondFactsV;

    open spec fn view(&self) -> CondFactsV {
        CondFactsV {
            facts: self.facts@,
            vars: self.vars@,
            excludes: self.excludes@,
            types: self.types@,
        }
    }
}

impl CondFacts {
    /// Association vectors well formed, and every stored type value fit.
    pub open spec fn wf(self) -> bool {
        &&& self.facts.wf()
        &&& self.vars.wf()
        &&& self.excludes.wf()
        &&& self.types.wf()
        &&& values_wf(self@)
    }

    pub fn new() -> (r: Self)
        ensures
            r.wf(),
            r@ == CondFactsV::empty(),
    {
        CondFacts {
            facts: AMap::new(),
            vars: AMap::new(),
            excludes: AMap::new(),
            types: AMap::new(),
        }
    }

    /// Move the whole store out, leaving this one empty.
    pub fn take(&mut self) -> (r: Self)
        ensures
            r == *old(self),
            final(self).wf(),
            final(self)@ == CondFactsV::empty(),
    {
        let r = CondFacts {
            facts: self.facts.take(),
            vars: self.vars.take(),
            excludes: self.excludes.take(),
            types: self.types.take(),
        };
        proof {
            assert(self@ =~= CondFactsV::empty());
        }
        r
    }

    /// Transfer `r`'s narrowed bindings into this store, replacing
    /// unconditionally, and drain them from `r`.  Afterwards every key of
    /// `old(r).vars` maps here to exactly its binding in `old(r).vars`, and
    /// every other key keeps its old binding.
    pub fn override_vars_using(&mut self, r: &mut CondFacts)
        requires
            old(self).wf(),
            old(r).wf(),
        ensures
            final(self).wf(),
            final(r).wf(),
            final(self)@.vars == old(self)@.vars.union_prefer_right(old(r)@.vars),
            final(self)@.facts == old(self)@.facts,
            final(self)@.excludes == old(self)@.excludes,
            final(self)@.types == old(self)@.types,
            final(r)@.vars == Map::<Seq<Id>, TyV>::empty(),
            final(r)@.facts == old(r)@.facts,
            final(r)@.excludes == old(r)@.excludes,
            final(r)@.types == old(r)@.types,
    {
        let moved = r.vars.take();
        let ghost ms = moved.entries@;
        let ghost a0 = self.vars@;
        proof {
            assert(entries_as_map(ms.take(0)) =~= Map::<Seq<Id>, TyV>::empty());
            assert(a0.union_prefer_right(entries_as_map(ms.take(0))) =~= a0);
            assert(moved@ == old(r)@.vars);
            assert forall|k: Seq<Id>|
                #[trigger] self.vars@.dom().contains(k) implies stored_ok(self.vars@[k]) by {
                assert(self.vars@[k] == old(self)@.vars[k]);
            }
            assert forall|j: int| 0 <= j < ms.len() implies stored_ok(#[trigger] ms[j].1@) by {
                lemma_as_map_index(ms, j);
                assert(old(r)@.vars[ms[j].0@] == ms[j].1@);
            }
        }
        let n = moved.len();
        for i in 0..n
            invariant
                n == moved.spec_len(),
                ms == moved.entries@,
                moved.wf(),
                forall|j: int| 0 <= j < ms.len() ==> stored_ok(#[trigger] ms[j].1@),
                self.vars.wf(),
                self.vars@ == a0.union_prefer_right(entries_as_map(ms.take(i as int))),
                forall|k: Seq<Id>|
                    #[trigger] self.vars@.dom().contains(k) ==> stored_ok(self.vars@[k]),
                self.facts == old(self).facts,
                self.excludes == old(self).excludes,
                self.types == old(self).types,
        {
            let k = moved.key_at(i).clone();
            let v = clone_type(moved.value_at(i));
            let ghost pre = self.vars@;
            proof {
                lemma_as_map_index(ms, i as int);
                assert(v@ == ms[i as int].1@);
                assert(stored_ok(v@));
                assert(ms.take(i + 1).drop_last() =~= ms.take(i as int));
                assert(a0.union_prefer_right(entries_as_map(ms.take(i + 1))) =~= a0
                    .union_prefer_right(entries_as_map(ms.take(i as int))).insert(k@, v@));
            }
            self.vars.set(k, v);
            proof {
                assert forall|q: Seq<Id>|
                    #[trigger] self.vars@.dom().contains(q) implies stored_ok(self.vars@[q]) by {
                    if q == k@ {
                        assert(self.vars@[q] == v@);
                    } else {
                        assert(self.vars@[q] == pre[q]);
                    }
                }
            }
        }
        proof {
            assert(ms.take(n as int) =~= ms);
            assert(self@.vars == old(self)@.vars.union_prefer_right(old(r)@.vars));
            assert(values_wf(self@)) by {
                assert forall|k: Seq<Id>|
                    self@.types.dom().contains(k) implies stored_ok(#[trigger] self@.types[k]) by {
                    assert(self@.types[k] == old(self)@.types[k]);
                }
                assert forall|k: Seq<Id>|
                    self@.excludes.dom().contains(k) implies all_stored_ok(
                    #[trigger] self@.excludes[k],
                ) by {
                    assert(self@.excludes[k] == old(self)@.excludes[k]);
                }
            }
            assert(values_wf(r@)) by {
                assert forall|k: Seq<Id>|
                    r@.types.dom().contains(k) implies stored_ok(#[trigger] r@.types[k]) by {
                    assert(r@.types[k] == old(r)@.types[k]);
                }
                assert forall|k: Seq<Id>|
                    r@.excludes.dom().contains(k) implies all_stored_ok(
                    #[trigger] r@.excludes[k],
                ) by {
                    assert(r@.excludes[k] == old(r)@.excludes[k]);
                }
            }
        }
    }

    /// Bind `name` directly to `ty`, replacing any earlier binding.
    pub fn set_var(&mut self, name: Name, ty: Type)
        requires
            old(self).wf(),
            name.wf(),
            stored_ok(ty@),
        ensures
            final(self).wf(),
            final(self)@.vars == old(self)@.vars.insert(name@, ty@),
            final(self)@.facts == old(self)@.facts,
            final(self)@.excludes == old(self)@.excludes,
            final(self)@.types == old(self)@.types,
    {
        let ghost pre = self.vars@;
        let ghost key = name@;
        self.vars.set(name, ty);
        proof {
            assert forall|q: Seq<Id>|
                #[trigger] self.vars@.dom().contains(q) implies stored_ok(self.vars@[q]) by {
                if q == key {
                    assert(self.vars@[q] == ty@);
                } else {
                    assert(self.vars@[q] == pre[q]);
                    assert(pre[q] == old(self)@.vars[q]);
                }
            }
            assert forall|q: Seq<Id>|
                self@.types.dom().contains(q) implies stored_ok(#[trigger] self@.types[q]) by {
                assert(self@.types[q] == old(self)@.types[q]);
            }
            assert forall|q: Seq<Id>|
                self@.excludes.dom().contains(q) implies all_stored_ok(
                #[trigger] self@.excludes[q],
            ) by {
                assert(self@.excludes[q] == old(self)@.excludes[q]);
            }
        }
    }

    /// Append `exclude` to the list of types removed from `name`'s
    /// candidates.
    pub fn add_exclude(&mut self, name: Name, exclude: Type)
        requires
            old(self).wf(),
            name.wf(),
            stored_ok(exclude@),
        ensures
            final(self).wf(),
            final(self)@.excludes == old(self)@.excludes.insert(
                name@,
                if old(self)@.excludes.dom().contains(name@) {
                    old(self)@.excludes[name@].push(exclude@)
                } else {
                    seq![exclude@]
                },
            ),
            final(self)@.facts == old(self)@.facts,
            final(self)@.vars == old(self)@.vars,
            final(self)@.types == old(self)@.types,
    {
        let ghost pre = self.excludes@;
        let ghost key = name@;
        let mut cur = match self.excludes.get(&name) {
            Some(l) => l.clone(),
            None => TypeList::new(),
        };
        let ghost cur0 = cur@;
        cur.push(exclude);
        proof {
            if !pre.dom().contains(key) {
                assert(cur@ =~= seq![exclude@]);
            } else {
                assert(cur0 == pre[key]);
                assert(pre[key] == old(self)@.excludes[key]);
            }
            assert forall|j: int| 0 <= j < cur@.len() implies stored_ok(#[trigger] cur@[j]) by {
                if j < cur0.len() {
                    assert(cur@[j] == cur0[j]);
                    assert(all_stored_ok(pre[key]));
                } else {
                    assert(cur@[j] == exclude@);
                }
            }
        }
        self.excludes.set(name, cur);
        proof {
            assert forall|q: Seq<Id>|
                #[trigger] self.excludes@.dom().contains(q) implies all_stored_ok(
                self.excludes@[q],
            ) by {
                if q == key {
                    assert(self.excludes@[q] == cur@);
                } else {
                    assert(self.excludes@[q] == pre[q]);
                    assert(pre[q] == old(self)@.excludes[q]);
                }
            }
            assert forall|q: Seq<Id>|
                self@.types.dom().contains(q) implies stored_ok(#[trigger] self@.types[q]) by {
                assert(self@.types[q] == old(self)@.types[q]);
            }
            assert forall|q: Seq<Id>|
                self@.vars.dom().contains(q) implies stored_ok(#[trigger] self@.vars[q]) by {
                assert(self@.vars[q] == old(self)@.vars[q]);
            }
        }
    }

    /// Sequential composition: record that this branch executed, then `rhs`.
    /// Predicates accumulate, later type bindings win, bindings present on
    /// both sides widen to their flattened union, exclusions concatenate.
    pub fn compose(&mut self, rhs: CondFacts)
        requires
            old(self).wf(),
            rhs.wf(),
        ensures
            final(self).wf(),
            final(self)@ == compose_v(old(self)@, rhs@),
    {
        let CondFacts { facts: rf, vars: rv, excludes: re, types: rt } = rhs;
        let ghost rfs = rf.entries@;
        let ghost f0 = self.facts@;
        proof {
            assert(entries_as_map(rfs.take(0)) =~= Map::<Seq<Id>, TypeFacts>::empty());
            assert(join_facts_maps(f0, entries_as_map(rfs.take(0))) =~= f0);
        }
        let nf = rf.len();
        for i in 0..nf
            invariant
                nf == rf.spec_len(),
                rfs == rf.entries@,
                rf.wf(),
                self.facts.wf(),
                self.facts@ == join_facts_maps(f0, entries_as_map(rfs.take(i as int))),
                self.vars == old(self).vars,
                self.excludes == old(self).excludes,
                self.types == old(self).types,
        {
            let k = rf.key_at(i).clone();
            let v = *rf.value_at(i);
            proof {
                lemma_as_map_index(rfs, i as int);
                assert(rfs.take(i + 1).drop_last() =~= rfs.take(i as int));
                lemma_as_map_contains(rfs.take(i as int), k@);
                assert(forall|j: int| 0 <= j < i ==> rfs.take(i as int)[j] == rfs[j]);
                assert(!entries_as_map(rfs.take(i as int)).dom().contains(k@));
                lemma_join_facts_insert(f0, entries_as_map(rfs.take(i as int)), k@, v);
            }
            let nv = match self.facts.get(&k) {
                Some(prev) => prev.or(v),
                None => v,
            };
            self.facts.set(k, nv);
        }
        proof {
            assert(rfs.take(nf as int) =~= rfs);
        }
        let ghost rvs = rv.entries@;
        let ghost v0 = self.vars@;
        proof {
            assert(entries_as_map(rvs.take(0)) =~= Map::<Seq<Id>, TyV>::empty());
            assert(compose_vars_maps(v0, entries_as_map(rvs.take(0))) =~= v0);
            assert forall|j: int| 0 <= j < rvs.len() implies stored_ok(#[trigger] rvs[j].1@) by {
                lemma_as_map_index(rvs, j);
                assert(rhs@.vars[rvs[j].0@] == rvs[j].1@);
            }
            assert forall|k: Seq<Id>|
                #[trigger] self.vars@.dom().contains(k) implies stored_ok(self.vars@[k]) by {
                assert(self.vars@[k] == old(self)@.vars[k]);
            }
        }
        let nv2 = rv.len();
        for i in 0..nv2
            invariant
                nv2 == rv.spec_len(),
                rvs == rv.entries@,
                rv.wf(),
                forall|j: int| 0 <= j < rvs.len() ==> stored_ok(#[trigger] rvs[j].1@),
                self.vars.wf(),
                self.vars@ == compose_vars_maps(v0, entries_as_map(rvs.take(i as int))),
                forall|k: Seq<Id>|
                    #[trigger] self.vars@.dom().contains(k) ==> stored_ok(self.vars@[k]),
                self.facts.wf(),
                self.facts@ == join_facts_maps(f0, entries_as_map(rfs)),
                self.excludes == old(self).excludes,
                self.types == old(self).types,
        {
            let k = rv.key_at(i).clone();
            let v = clone_type(rv.value_at(i));
            let ghost pre = self.vars@;
            proof {
                lemma_as_map_index(rvs, i as int);
                assert(stored_ok(v@));
                assert(rvs.take(i + 1).drop_last() =~= rvs.take(i as int));
                lemma_as_map_contains(rvs.take(i as int), k@);
                assert(forall|j: int| 0 <= j < i ==> rvs.take(i as int)[j] == rvs[j]);
                assert(!entries_as_map(rvs.take(i as int)).dom().contains(k@));
                lemma_compose_vars_insert(v0, entries_as_map(rvs.take(i as int)), k@, v@);
            }
            let merged = match self.vars.get(&k) {
                Some(prev) => {
                    let ghost pv = prev@;
                    let pc = clone_type(prev);
                    proof {
                        lemma_umembers_valid(pv);
                        lemma_umembers_valid(v@);
                        lemma_compose_var_stored(pv, v@);
                    }
                    let m = crate::union::or_type(pc, v).fixed().freezed();
                    proof {
                        assert(m@ == compose_var(pv, v@));
                    }
                    m
                }
                None => v,
            };
            proof {
                assert(stored_ok(merged@));
            }
            self.vars.set(k, merged);
            proof {
                assert forall|q: Seq<Id>|
                    #[trigger] self.vars@.dom().contains(q) implies stored_ok(self.vars@[q]) by {
                    if q != k@ {
                        assert(self.vars@[q] == pre[q]);
                    }
                }
            }
        }
        proof {
            assert(rvs.take(nv2 as int) =~= rvs);
        }
        let ghost res = re.entries@;
        let ghost e0 = self.excludes@;
        proof {
            assert(entries_as_map(res.take(0)) =~= Map::<Seq<Id>, Seq<TyV>>::empty());
            assert(join_excl_maps(e0, entries_as_map(res.take(0))) =~= e0);
            assert forall|j: int| 0 <= j < res.len() implies all_stored_ok(#[trigger] res[j].1@) by {
                lemma_as_map_index(res, j);
                assert(rhs@.excludes[res[j].0@] == res[j].1@);
            }
            assert forall|k: Seq<Id>|
                #[trigger] self.excludes@.dom().contains(k) implies all_stored_ok(
                self.excludes@[k],
            ) by {
                assert(self.excludes@[k] == old(self)@.excludes[k]);
            }
        }
        let ne = re.len();
        for i in 0..ne
            invariant
                ne == re.spec_len(),
                res == re.entries@,
                re.wf(),
                forall|j: int| 0 <= j < res.len() ==> all_stored_ok(#[trigger] res[j].1@),
                self.excludes.wf(),
                self.excludes@ == join_excl_maps(e0, entries_as_map(res.take(i as int))),
                forall|k: Seq<Id>|
                    #[trigger] self.excludes@.dom().contains(k) ==> all_stored_ok(
                        self.excludes@[k],
                    ),
                self.facts.wf(),
                self.facts@ == join_facts_maps(f0, entries_as_map(rfs)),
                self.vars.wf(),
                self.vars@ == compose_vars_maps(v0, entries_as_map(rvs)),
                forall|k: Seq<Id>|
                    #[trigger] self.vars@.dom().contains(k) ==> stored_ok(self.vars@[k]),
                self.types == old(self).types,
        {
            let k = re.key_at(i).clone();
            let v = re.value_at(i).clone();
            let ghost pre = self.excludes@;
            proof {
                lemma_as_map_index(res, i as int);
                assert(all_stored_ok(v@));
                assert(res.take(i + 1).drop_last() =~= res.take(i as int));
                lemma_as_map_contains(res.take(i as int), k@);
                assert(forall|j: int| 0 <= j < i ==> res.take(i as int)[j] == res[j]);
                assert(!entries_as_map(res.take(i as int)).dom().contains(k@));
                lemma_join_excl_insert(e0, entries_as_map(res.take(i as int)), k@, v@);
            }
            let merged = match self.excludes.get(&k) {
                Some(prev) => {
                    let ghost pv = prev@;
                    let mut cur = prev.clone();
                    cur.extend(v);
                    proof {
                        assert forall|j: int|
                            0 <= j < cur@.len() implies stored_ok(#[trigger] cur@[j]) by {
                            if j < pv.len() {
                                assert(cur@[j] == pv[j]);
                            }
                        }
                    }
                    cur
                }
                None => v,
            };
            proof {
                assert(all_stored_ok(merged@));
            }
            self.excludes.set(k, merged);
            proof {
                assert forall|q: Seq<Id>|
                    #[trigger] self.excludes@.dom().contains(q) implies all_stored_ok(
                    self.excludes@[q],
                ) by {
                    if q != k@ {
                        assert(self.excludes@[q] == pre[q]);
                    }
                }
            }
        }
        proof {
            assert(res.take(ne as int) =~= res);
        }
        let ghost rts = rt.entries@;
        let ghost t0 = self.types@;
        proof {
            assert(entries_as_map(rts.take(0)) =~= Map::<Seq<Id>, TyV>::empty());
            assert(t0.union_prefer_right(entries_as_map(rts.take(0))) =~= t0);
            assert forall|j: int| 0 <= j < rts.len() implies stored_ok(#[trigger] rts[j].1@) by {
                lemma_as_map_index(rts, j);
                assert(rhs@.types[rts[j].0@] == rts[j].1@);
            }
            assert forall|k: Seq<Id>|
                #[trigger] self.types@.dom().contains(k) implies stored_ok(self.types@[k]) by {
                assert(self.types@[k] == old(self)@.types[k]);
            }
        }
        let nt = rt.len();
        for i in 0..nt
            invariant
                nt == rt.spec_len(),
                rts == rt.entries@,
                rt.wf(),
                forall|j: int| 0 <= j < rts.len() ==> stored_ok(#[trigger] rts[j].1@),
                self.types.wf(),
                self.types@ == t0.union_prefer_right(entries_as_map(rts.take(i as int))),
                forall|k: Seq<Id>|
                    #[trigger] self.types@.dom().contains(k) ==> stored_ok(self.types@[k]),
                self.facts.wf(),
                self.facts@ == join_facts_maps(f0, entries_as_map(rfs)),
                self.vars.wf(),
                self.vars@ == compose_vars_maps(v0, entries_as_map(rvs)),
                forall|k: Seq<Id>|
                    #[trigger] self.vars@.dom().contains(k) ==> stored_ok(self.vars@[k]),
                self.excludes.wf(),
                self.excludes@ == join_excl_maps(e0, entries_as_map(res)),
                forall|k: Seq<Id>|
                    #[trigger] self.excludes@.dom().contains(k) ==> all_stored_ok(
                        self.excludes@[k],
                    ),
        {
            let k = rt.key_at(i).clone();
            let v = clone_type(rt.value_at(i));
            let ghost pre = self.types@;
            proof {
                lemma_as_map_index(rts, i as int);
                assert(stored_ok(v@));
                assert(rts.take(i + 1).drop_last() =~= rts.take(i as int));
                assert(t0.union_prefer_right(entries_as_map(rts.take(i + 1))) =~= t0
                    .union_prefer_right(entries_as_map(rts.take(i as int))).insert(k@, v@));
            }
            self.types.set(k, v);
            proof {
                assert forall|q: Seq<Id>|
                    #[trigger] self.types@.dom().contains(q) implies stored_ok(self.types@[q]) by {
                    if q != k@ {
                        assert(self.types@[q] == pre[q]);
                    }
                }
            }
        }
        proof {
            assert(rts.take(nt as int) =~= rts);
            assert(self@ =~= compose_v(old(self)@, rhs@));
        }
    }

    /// Parallel join: either this branch or `rhs` may have executed.
    /// Predicates accumulate; bindings and type bindings present on both
    /// sides merge to their union; exclusions concatenate.
    pub fn join(self, rhs: CondFacts) -> (r: CondFacts)
        requires
            self.wf(),
            rhs.wf(),
        ensures
            r.wf(),
            r@ == join_v(self@, rhs@),
    {
        let mut out = self;
        let CondFacts { facts: rf, vars: rv, excludes: re, types: rt } = rhs;
        let ghost rfs = rf.entries@;
        let ghost f0 = out.facts@;
        proof {
            assert(entries_as_map(rfs.take(0)) =~= Map::<Seq<Id>, TypeFacts>::empty());
            assert(join_facts_maps(f0, entries_as_map(rfs.take(0))) =~= f0);
        }
        let nf = rf.len();
        for i in 0..nf
            invariant
                nf == rf.spec_len(),
                rfs == rf.entries@,
                rf.wf(),
                out.facts.wf(),
                out.facts@ == join_facts_maps(f0, entries_as_map(rfs.take(i as int))),
                out.vars == self.vars,
                out.excludes == self.excludes,
                out.types == self.types,
        {
            let k = rf.key_at(i).clone();
            let v = *rf.value_at(i);
            proof {
                lemma_as_map_index(rfs, i as int);
                assert(rfs.take(i + 1).drop_last() =~= rfs.take(i as int));
                lemma_as_map_contains(rfs.take(i as int), k@);
                assert(forall|j: int| 0 <= j < i ==> rfs.take(i as int)[j] == rfs[j]);
                assert(!entries_as_map(rfs.take(i as int)).dom().contains(k@));
                lemma_join_facts_insert(f0, entries_as_map(rfs.take(i as int)), k@, v);
            }
            let nv = match out.facts.get(&k) {
                Some(prev) => prev.or(v),
                None => v,
            };
            out.facts.set(k, nv);
        }
        proof {
            assert(rfs.take(nf as int) =~= rfs);
        }
        let ghost rvs = rv.entries@;
        let ghost v0 = out.vars@;
        proof {
            assert(entries_as_map(rvs.take(0)) =~= Map::<Seq<Id>, TyV>::empty());
            assert(or_vars_maps(v0, entries_as_map(rvs.take(0))) =~= v0);
            assert forall|j: int| 0 <= j < rvs.len() implies stored_ok(#[trigger] rvs[j].1@) by {
                lemma_as_map_index(rvs, j);
                assert(rhs@.vars[rvs[j].0@] == rvs[j].1@);
            }
            assert forall|k: Seq<Id>|
                #[trigger] out.vars@.dom().contains(k) implies stored_ok(out.vars@[k]) by {
                assert(out.vars@[k] == self@.vars[k]);
            }
        }
        let nv2 = rv.len();
        for i in 0..nv2
            invariant
                nv2 == rv.spec_len(),
                rvs == rv.entries@,
                rv.wf(),
                forall|j: int| 0 <= j < rvs.len() ==> stored_ok(#[trigger] rvs[j].1@),
                out.vars.wf(),
                out.vars@ == or_vars_maps(v0, entries_as_map(rvs.take(i as int))),
                forall|k: Seq<Id>|
                    #[trigger] out.vars@.dom().contains(k) ==> stored_ok(out.vars@[k]),
                out.facts.wf(),
                out.facts@ == join_facts_maps(f0, entries_as_map(rfs)),
                out.excludes == self.excludes,
                out.types == self.types,
        {
            let k = rv.key_at(i).clone();
            let v = clone_type(rv.value_at(i));
            let ghost pre = out.vars@;
            proof {
                lemma_as_map_index(rvs, i as int);
                assert(stored_ok(v@));
                assert(rvs.take(i + 1).drop_last() =~= rvs.take(i as int));
                lemma_as_map_contains(rvs.take(i as int), k@);
                assert(forall|j: int| 0 <= j < i ==> rvs.take(i as int)[j] == rvs[j]);
                assert(!entries_as_map(rvs.take(i as int)).dom().contains(k@));
                lemma_or_vars_insert(v0, entries_as_map(rvs.take(i as int)), k@, v@);
            }
            let merged = match out.vars.get(&k) {
                Some(prev) => {
                    let ghost pv = prev@;
                    let pc = clone_type(prev);
                    proof {
                        lemma_or_var_stored(pv, v@);
                    }
                    let m = crate::union::or_type(pc, v);
                    proof {
                        assert(m@ == or_var(pv, v@));
                    }
                    m
                }
                None => v,
            };
            proof {
                assert(stored_ok(merged@));
            }
            out.vars.set(k, merged);
            proof {
                assert forall|q: Seq<Id>|
                    #[trigger] out.vars@.dom().contains(q) implies stored_ok(out.vars@[q]) by {
                    if q != k@ {
                        assert(out.vars@[q] == pre[q]);
                    }
                }
            }
        }
        proof {
            assert(rvs.take(nv2 as int) =~= rvs);
        }
        let ghost res = re.entries@;
        let ghost e0 = out.excludes@;
        proof {
            assert(entries_as_map(res.take(0)) =~= Map::<Seq<Id>, Seq<TyV>>::empty());
            assert(join_excl_maps(e0, entries_as_map(res.take(0))) =~= e0);
            assert forall|j: int| 0 <= j < res.len() implies all_stored_ok(#[trigger] res[j].1@) by {
                lemma_as_map_index(res, j);
                assert(rhs@.excludes[res[j].0@] == res[j].1@);
            }
            assert forall|k: Seq<Id>|
                #[trigger] out.excludes@.dom().contains(k) implies all_stored_ok(
                out.excludes@[k],
            ) by {
                assert(out.excludes@[k] == self@.excludes[k]);
            }
        }
        let ne = re.len();
        for i in 0..ne
            invariant
                ne == re.spec_len(),
                res == re.entries@,
                re.wf(),
                forall|j: int| 0 <= j < res.len() ==> all_stored_ok(#[trigger] res[j].1@),
                out.excludes.wf(),
                out.excludes@ == join_excl_maps(e0, entries_as_map(res.take(i as int))),
                forall|k: Seq<Id>|
                    #[trigger] out.excludes@.dom().contains(k) ==> all_stored_ok(
                        out.excludes@[k],
                    ),
                out.facts.wf(),
                out.facts@ == join_facts_maps(f0, entries_as_map(rfs)),
                out.vars.wf(),
                out.vars@ == or_vars_maps(v0, entries_as_map(rvs)),
                forall|k: Seq<Id>|
                    #[trigger] out.vars@.dom().contains(k) ==> stored_ok(out.vars@[k]),
                out.types == self.types,
        {
            let k = re.key_at(i).clone();
            let v = re.value_at(i).clone();
            let ghost pre = out.excludes@;
            proof {
                lemma_as_map_index(res, i as int);
                assert(all_stored_ok(v@));
                assert(res.take(i + 1).drop_last() =~= res.take(i as int));
                lemma_as_map_contains(res.take(i as int), k@);
                assert(forall|j: int| 0 <= j < i ==> res.take(i as int)[j] == res[j]);
                assert(!entries_as_map(res.take(i as int)).dom().contains(k@));
                lemma_join_excl_insert(e0, entries_as_map(res.take(i as int)), k@, v@);
            }
            let merged = match out.excludes.get(&k) {
                Some(prev) => {
                    let ghost pv = prev@;
                    let mut cur = prev.clone();
                    cur.extend(v);
                    proof {
                        assert forall|j: int|
                            0 <= j < cur@.len() implies stored_ok(#[trigger] cur@[j]) by {
                            if j < pv.len() {
                                assert(cur@[j] == pv[j]);
                            }
                        }
                    }
                    cur
                }
                None => v,
            };
            proof {
                assert(all_stored_ok(merged@));
            }
            out.excludes.set(k, merged);
            proof {
                assert forall|q: Seq<Id>|
                    #[trigger] out.excludes@.dom().contains(q) implies all_stored_ok(
                    out.excludes@[q],
                ) by {
                    if q != k@ {
                        assert(out.excludes@[q] == pre[q]);
                    }
                }
            }
        }
        proof {
            assert(res.take(ne as int) =~= res);
        }
        let ghost rts = rt.entries@;
        let ghost t0 = out.types@;
        proof {
            assert(entries_as_map(rts.take(0)) =~= Map::<Seq<Id>, TyV>::empty());
            assert(or_vars_maps(t0, entries_as_map(rts.take(0))) =~= t0);
            assert forall|j: int| 0 <= j < rts.len() implies stored_ok(#[trigger] rts[j].1@) by {
                lemma_as_map_index(rts, j);
                assert(rhs@.types[rts[j].0@] == rts[j].1@);
            }
            assert forall|k: Seq<Id>|
                #[trigger] out.types@.dom().contains(k) implies stored_ok(out.types@[k]) by {
                assert(out.types@[k] == self@.types[k]);
            }
        }
        let nt = rt.len();
        for i in 0..nt
            invariant
                nt == rt.spec_len(),
                rts == rt.entries@,
                rt.wf(),
                forall|j: int| 0 <= j < rts.len() ==> stored_ok(#[trigger] rts[j].1@),
                out.types.wf(),
                out.types@ == or_vars_maps(t0, entries_as_map(rts.take(i as int))),
                forall|k: Seq<Id>|
                    #[trigger] out.types@.dom().contains(k) ==> stored_ok(out.types@[k]),
                out.facts.wf(),
                out.facts@ == join_facts_maps(f0, entries_as_map(rfs)),
                out.vars.wf(),
                out.vars@ == or_vars_maps(v0, entries_as_map(rvs)),
                forall|k: Seq<Id>|
                    #[trigger] out.vars@.dom().contains(k) ==> stored_ok(out.vars@[k]),
                out.excludes.wf(),
                out.excludes@ == join_excl_maps(e0, entries_as_map(res)),
                forall|k: Seq<Id>|
                    #[trigger] out.excludes@.dom().contains(k) ==> all_stored_ok(
                        out.excludes@[k],
                    ),
        {
            let k = rt.key_at(i).clone();
            let v = clone_type(rt.value_at(i));
            let ghost pre = out.types@;
            proof {
                lemma_as_map_index(rts, i as int);
                assert(stored_ok(v@));
                assert(rts.take(i + 1).drop_last() =~= rts.take(i as int));
                lemma_as_map_contains(rts.take(i as int), k@);
                assert(forall|j: int| 0 <= j < i ==> rts.take(i as int)[j] == rts[j]);
                assert(!entries_as_map(rts.take(i as int)).dom().contains(k@));
                lemma_or_vars_insert(t0, entries_as_map(rts.take(i as int)), k@, v@);
            }
            let merged = match out.types.get(&k) {
                Some(prev) => {
                    let ghost pv = prev@;
                    let pc = clone_type(prev);
                    proof {
                        lemma_or_var_stored(pv, v@);
                    }
                    let m = crate::union::or_type(pc, v);
                    proof {
                        assert(m@ == or_var(pv, v@));
                    }
                    m
                }
                None => v,
            };
            proof {
                assert(stored_ok(merged@));
            }
            out.types.set(k, merged);
            proof {
                assert forall|q: Seq<Id>|
                    #[trigger] out.types@.dom().contains(q) implies stored_ok(out.types@[q]) by {
                    if q != k@ {
                        assert(out.types@[q] == pre[q]);
                    }
                }
            }
        }
        proof {
            assert(rts.take(nt as int) =~= rts);
            assert(out@ =~= join_v(self@, rhs@));
        }
        out
    }
}

/// Two binding maps with the same keys, pointwise equivalent.
pub open spec fn vars_equiv(a: Map<Seq<Id>, TyV>, b: Map<Seq<Id>, TyV>) -> bool {
    &&& a.dom() == b.dom()
    &&& forall|k: Seq<Id>| a.dom().contains(k) ==> tequiv(#[trigger] a[k], b[k])
}

/// Two exclusion maps with the same keys, the lists mutually covering.
pub open spec fn excl_equiv(a: Map<Seq<Id>, Seq<TyV>>, b: Map<Seq<Id>, Seq<TyV>>) -> bool {
    &&& a.dom() == b.dom()
    &&& forall|k: Seq<Id>|
        a.dom().contains(k) ==> covers(#[trigger] a[k], b[k]) && covers(b[k], a[k])
}

/// Equivalence of fact stores, up to type-equality of union members.
pub open spec fn cf_equiv(a: CondFactsV, b: CondFactsV) -> bool {
    &&& a.facts == b.facts
    &&& vars_equiv(a.vars, b.vars)
    &&& excl_equiv(a.excludes, b.excludes)
    &&& vars_equiv(a.types, b.types)
}

/// Swapping the operands of a concatenation keeps coverage.
pub proof fn lemma_covers_concat_comm(p: Seq<TyV>, q: Seq<TyV>)
    ensures
        covers(p + q, q + p),
{
    let pq = p + q;
    let qp = q + p;
    assert forall|i: int| 0 <= i < pq.len() implies covered_by(#[trigger] pq[i], qp) by {
        lemma_type_eq_refl(pq[i]);
        if i < p.len() {
            assert(pq[i] == qp[q.len() + i]);
            assert(type_eq(pq[i], qp[q.len() + i]));
        } else {
            assert(pq[i] == qp[i - p.len()]);
            assert(type_eq(pq[i], qp[i - p.len()]));
        }
    }
}

/// A list and its self-concatenation cover each other.
pub proof fn lemma_covers_concat_dup(p: Seq<TyV>)
    ensures
        covers(p + p, p),
        covers(p, p + p),
{
    let pp = p + p;
    assert forall|i: int| 0 <= i < pp.len() implies covered_by(#[trigger] pp[i], p) by {
        lemma_type_eq_refl(pp[i]);
        if i < p.len() {
            assert(type_eq(pp[i], p[i]));
        } else {
            assert(pp[i] == p[i - p.len()]);
            assert(type_eq(pp[i], p[i - p.len()]));
        }
    }
    assert forall|i: int| 0 <= i < p.len() implies covered_by(#[trigger] p[i], pp) by {
        lemma_type_eq_refl(p[i]);
        assert(p[i] == pp[i]);
        assert(type_eq(p[i], pp[i]));
    }
}

/// The members of a parallel-join binding are both sides' members in order.
pub proof fn lemma_umembers_or_var(p: TyV, q: TyV)
    ensures
        umembers(or_var(p, q)) == umembers(p) + umembers(q),
{
    assert(seq![p, q].drop_last() =~= seq![p]);
    assert(seq![p].drop_last() =~= Seq::<TyV>::empty());
    assert(umembers_list(Seq::<TyV>::empty()) =~= Seq::<TyV>::empty());
    assert(umembers_list(seq![p]) =~= umembers(p));
    assert(umembers(or_var(p, q)) =~= umembers(p) + umembers(q));
}

/// Parallel merging of two bindings is commutative up to equivalence.
pub proof fn lemma_or_var_comm(x: TyV, y: TyV)
    ensures
        tequiv(or_var(x, y), or_var(y, x)),
{
    lemma_umembers_or_var(x, y);
    lemma_umembers_or_var(y, x);
    lemma_covers_concat_comm(umembers(x), umembers(y));
    lemma_covers_concat_comm(umembers(y), umembers(x));
}

/// Parallel merging of a binding with itself is equivalent to the binding.
pub proof fn lemma_or_var_idem(x: TyV)
    ensures
        tequiv(or_var(x, x), x),
{
    lemma_umembers_or_var(x, x);
    lemma_covers_concat_dup(umembers(x));
}

/// Sequential composition identity: composing with the empty store, on
/// either side, changes nothing.
pub proof fn lemma_compose_identity(a: CondFactsV)
    ensures
        compose_v(a, CondFactsV::empty()) == a,
        compose_v(CondFactsV::empty(), a) == a,
{
    assert(join_facts_maps(a.facts, Map::empty()) =~= a.facts);
    assert(compose_vars_maps(a.vars, Map::empty()) =~= a.vars);
    assert(join_excl_maps(a.excludes, Map::empty()) =~= a.excludes);
    assert(a.types.union_prefer_right(Map::<Seq<Id>, TyV>::empty()) =~= a.types);
    assert(compose_v(a, CondFactsV::empty()) =~= a);
    assert(join_facts_maps(Map::empty(), a.facts) =~= a.facts);
    assert(compose_vars_maps(Map::empty(), a.vars) =~= a.vars);
    assert(join_excl_maps(Map::empty(), a.excludes) =~= a.excludes);
    assert(Map::<Seq<Id>, TyV>::empty().union_prefer_right(a.types) =~= a.types);
    assert(compose_v(CondFactsV::empty(), a) =~= a);
}

/// Parallel join commutativity, up to type-equality of union members.
pub proof fn lemma_join_commutative(a: CondFactsV, b: CondFactsV)
    ensures
        cf_equiv(join_v(a, b), join_v(b, a)),
{
    let ab = join_v(a, b);
    let ba = join_v(b, a);
    assert(ab.facts =~= ba.facts) by {
        assert forall|k: Seq<Id>|
            ab.facts.dom().contains(k) implies ab.facts[k] == ba.facts[k] by {
            if a.facts.dom().contains(k) && b.facts.dom().contains(k) {
                let x = a.facts[k].bits;
                let y = b.facts[k].bits;
                assert(x | y == y | x) by (bit_vector);
            }
        }
    }
    assert(ab.vars.dom() =~= ba.vars.dom());
    assert forall|k: Seq<Id>|
        ab.vars.dom().contains(k) implies tequiv(#[trigger] ab.vars[k], ba.vars[k]) by {
        if a.vars.dom().contains(k) && b.vars.dom().contains(k) {
            lemma_or_var_comm(a.vars[k], b.vars[k]);
        } else {
            lemma_tequiv_refl(ab.vars[k]);
        }
    }
    assert(ab.excludes.dom() =~= ba.excludes.dom());
    assert forall|k: Seq<Id>|
        ab.excludes.dom().contains(k) implies covers(#[trigger] ab.excludes[k], ba.excludes[k])
        && covers(ba.excludes[k], ab.excludes[k]) by {
        if a.excludes.dom().contains(k) && b.excludes.dom().contains(k) {
            lemma_covers_concat_comm(a.excludes[k], b.excludes[k]);
            lemma_covers_concat_comm(b.excludes[k], a.excludes[k]);
        } else {
            lemma_covers_refl(ab.excludes[k]);
        }
    }
    assert(ab.types.dom() =~= ba.types.dom());
    assert forall|k: Seq<Id>|
        ab.types.dom().contains(k) implies tequiv(#[trigger] ab.types[k], ba.types[k]) by {
        if a.types.dom().contains(k) && b.types.dom().contains(k) {
            lemma_or_var_comm(a.types[k], b.types[k]);
        } else {
            lemma_tequiv_refl(ab.types[k]);
        }
    }
}

/// Parallel join idempotence, up to type-equality of union members.
pub proof fn lemma_join_idempotent(a: CondFactsV)
    ensures
        cf_equiv(join_v(a, a), a),
{
    let aa = join_v(a, a);
    assert(aa.facts =~= a.facts) by {
        assert forall|k: Seq<Id>| aa.facts.dom().contains(k) implies aa.facts[k] == a.facts[k] by {
            let x = a.facts[k].bits;
            assert(x | x == x) by (bit_vector);
        }
    }
    assert(aa.vars.dom() =~= a.vars.dom());
    assert forall|k: Seq<Id>|
        aa.vars.dom().contains(k) implies tequiv(#[trigger] aa.vars[k], a.vars[k]) by {
        lemma_or_var_idem(a.vars[k]);
    }
    assert(aa.excludes.dom() =~= a.excludes.dom());
    assert forall|k: Seq<Id>|
        aa.excludes.dom().contains(k) implies covers(#[trigger] aa.excludes[k], a.excludes[k])
        && covers(a.excludes[k], aa.excludes[k]) by {
        lemma_covers_concat_dup(a.excludes[k]);
    }
    assert(aa.types.dom() =~= a.types.dom());
    assert forall|k: Seq<Id>|
        aa.types.dom().contains(k) implies tequiv(#[trigger] aa.types[k], a.types[k]) by {
        lemma_or_var_idem(a.types[k]);
    }
}

fn clone_facts_amap(m: &AMap<TypeFacts>) -> (r: AMap<TypeFacts>)
    ensures
        r@ == m@,
        m.wf() ==> r.wf(),
{
    let mut entries: Vec<(Name, TypeFacts)> = Vec::new();
    let n = m.len();
    for i in 0..n
        invariant
            n == m.spec_len(),
            entries@.len() == i,
            forall|j: int| 0 <= j < i ==> (#[trigger] entries@[j]).0@ == m.entries@[j].0@,
            forall|j: int| 0 <= j < i ==> (#[trigger] entries@[j]).1@ == m.entries@[j].1@,
            m.wf() ==> forall|j: int| 0 <= j < i ==> (#[trigger] entries@[j]).0.wf(),
    {
        let k = m.key_at(i).clone();
        let v = *m.value_at(i);
        proof {
            if m.wf() {
            }
        }
        entries.push((k, v));
    }
    proof {
        crate::assoc::lemma_as_map_congruence(m.entries@, entries@);
        if m.wf() {
            assert forall|j: int|
                0 <= j < entries@.len() implies (#[trigger] entries@[j]).0.wf() by {
                assert(entries@[j].0@ == m.entries@[j].0@);
            }
        }
    }
    AMap { entries }
}

fn clone_type_amap(m: &AMap<Type>) -> (r: AMap<Type>)
    ensures
        r@ == m@,
        m.wf() ==> r.wf(),
{
    let mut entries: Vec<(Name, Type)> = Vec::new();
    let n = m.len();
    for i in 0..n
        invariant
            n == m.spec_len(),
            entries@.len() == i,
            forall|j: int| 0 <= j < i ==> (#[trigger] entries@[j]).0@ == m.entries@[j].0@,
            forall|j: int| 0 <= j < i ==> (#[trigger] entries@[j]).1@ == m.entries@[j].1@,
            m.wf() ==> forall|j: int| 0 <= j < i ==> (#[trigger] entries@[j]).0.wf(),
    {
        let k = m.key_at(i).clone();
        let v = clone_type(m.value_at(i));
        entries.push((k, v));
    }
    proof {
        crate::assoc::lemma_as_map_congruence(m.entries@, entries@);
        if m.wf() {
            assert forall|j: int|
                0 <= j < entries@.len() implies (#[trigger] entries@[j]).0.wf() by {
                assert(entries@[j].0@ == m.entries@[j].0@);
            }
        }
    }
    AMap { entries }
}

fn clone_list_amap(m: &AMap<TypeList>) -> (r: AMap<TypeList>)
    ensures
        r@ == m@,
        m.wf() ==> r.wf(),
{
    let mut entries: Vec<(Name, TypeList)> = Vec::new();
    let n = m.len();
    for i in 0..n
        invariant
            n == m.spec_len(),
            entries@.len() == i,
            forall|j: int| 0 <= j < i ==> (#[trigger] entries@[j]).0@ == m.entries@[j].0@,
            forall|j: int| 0 <= j < i ==> (#[trigger] entries@[j]).1@ == m.entries@[j].1@,
            m.wf() ==> forall|j: int| 0 <= j < i ==> (#[trigger] entries@[j]).0.wf(),
    {
        let k = m.key_at(i).clone();
        let v = m.value_at(i).clone();
        entries.push((k, v));
    }
    proof {
        crate::assoc::lemma_as_map_congruence(m.entries@, entries@);
        if m.wf() {
            assert forall|j: int|
                0 <= j < entries@.len() implies (#[trigger] entries@[j]).0.wf() by {
                assert(entries@[j].0@ == m.entries@[j].0@);
            }
        }
    }
    AMap { entries }
}

impl Clone for CondFacts {
    /// Deep copy; the clone denotes the same store.
    fn clone(&self) -> (r: Self)
        ensures
            r@ == self@,
            self.wf() ==> r.wf(),
    {
        CondFacts {
            facts: clone_facts_amap(&self.facts),
            vars: clone_type_amap(&self.vars),
            excludes: clone_list_amap(&self.excludes),
            types: clone_type_amap(&self.types),
        }
    }
}

/// Two binding maps record the same narrowings: the same names, bound to
/// structurally equal types.
pub open spec fn vars_same(a: Map<Seq<Id>, TyV>, b: Map<Seq<Id>, TyV>) -> bool {
    a.dom() == b.dom() && forall|k: Seq<Id>| a.dom().contains(k) ==> type_eq(#[trigger] a[k], b[k])
}

/// Two exclusion maps record the same lists of structurally equal types.
pub open spec fn excl_same(a: Map<Seq<Id>, Seq<TyV>>, b: Map<Seq<Id>, Seq<TyV>>) -> bool {
    &&& a.dom() == b.dom()
    &&& forall|k: Seq<Id>|
        a.dom().contains(k) ==> ((#[trigger] a[k]).len() == b[k].len() && forall|i: int|
            0 <= i < a[k].len() ==> type_eq(#[trigger] a[k][i], b[k][i]))
}

/// The fixed-point stability test: both stores assert the same predicates
/// and record structurally equal bindings, exclusions and type bindings.
pub open spec fn cf_same(a: CondFactsV, b: CondFactsV) -> bool {
    &&& a.facts == b.facts
    &&& vars_same(a.vars, b.vars)
    &&& excl_same(a.excludes, b.excludes)
    &&& vars_same(a.types, b.types)
}

fn eq_facts_amap(a: &AMap<TypeFacts>, b: &AMap<TypeFacts>) -> (r: bool)
    requires
        a.wf(),
        b.wf(),
    ensures
        r == (a@ == b@),
{
    let na = a.len();
    let nb = b.len();
    for i in 0..na
        invariant
            na == a.spec_len(),
            a.wf(),
            b.wf(),
            forall|j: int|
                0 <= j < i ==> b@.dom().contains(#[trigger] a.entries@[j].0@) && b@[a.entries@[j].0@]
                    == a.entries@[j].1@,
    {
        let k = a.key_at(i);
        let v = *a.value_at(i);
        match b.get(k) {
            Some(w) => {
                if !(v.bits == w.bits) {
                    proof {
                        lemma_as_map_index(a.entries@, i as int);
                        assert(a@[a.entries@[i as int].0@] != b@[a.entries@[i as int].0@]);
                    }
                    return false;
                }
            }
            None => {
                proof {
                    lemma_as_map_index(a.entries@, i as int);
                }
                return false;
            }
        }
    }
    for i in 0..nb
        invariant
            nb == b.spec_len(),
            a.wf(),
            b.wf(),
            forall|j: int|
                0 <= j < a.spec_len() ==> b@.dom().contains(#[trigger] a.entries@[j].0@)
                    && b@[a.entries@[j].0@] == a.entries@[j].1@,
            forall|j: int| 0 <= j < i ==> a@.dom().contains(#[trigger] b.entries@[j].0@),
    {
        let k = b.key_at(i);
        if !a.contains_key(k) {
            proof {
                lemma_as_map_index(b.entries@, i as int);
            }
            return false;
        }
    }
    proof {
        assert forall|k: Seq<Id>| #[trigger] a@.dom().contains(k) implies b@.dom().contains(k)
            && b@[k] == a@[k] by {
            lemma_as_map_contains(a.entries@, k);
            let j = choose|j: int| 0 <= j < a.entries@.len() && a.entries@[j].0@ == k;
            lemma_as_map_index(a.entries@, j);
        }
        assert forall|k: Seq<Id>| #[trigger] b@.dom().contains(k) implies a@.dom().contains(
            k,
        ) by {
            lemma_as_map_contains(b.entries@, k);
            let j = choose|j: int| 0 <= j < b.entries@.len() && b.entries@[j].0@ == k;
            lemma_as_map_index(b.entries@, j);
        }
        assert(a@.dom() =~= b@.dom());
        assert(a@ =~= b@);
    }
    true
}

fn sim_type_amap(a: &AMap<Type>, b: &AMap<Type>) -> (r: bool)
    requires
        a.wf(),
        b.wf(),
    ensures
        r == vars_same(a@, b@),
{
    let na = a.len();
    let nb = b.len();
    for i in 0..na
        invariant
            na == a.spec_len(),
            a.wf(),
            b.wf(),
            forall|j: int|
                0 <= j < i ==> b@.dom().contains(#[trigger] a.entries@[j].0@) && type_eq(
                    a.entries@[j].1@,
                    b@[a.entries@[j].0@],
                ),
    {
        let k = a.key_at(i);
        let v = a.value_at(i);
        match b.get(k) {
            Some(w) => {
                if !crate::types::eq_type(v, w) {
                    proof {
                        lemma_as_map_index(a.entries@, i as int);
                    }
                    return false;
                }
            }
            None => {
                proof {
                    lemma_as_map_index(a.entries@, i as int);
                }
                return false;
            }
        }
    }
    for i in 0..nb
        invariant
            nb == b.spec_len(),
            a.wf(),
            b.wf(),
            forall|j: int|
                0 <= j < a.spec_len() ==> b@.dom().contains(#[trigger] a.entries@[j].0@)
                    && type_eq(a.entries@[j].1@, b@[a.entries@[j].0@]),
            forall|j: int| 0 <= j < i ==> a@.dom().contains(#[trigger] b.entries@[j].0@),
    {
        let k = b.key_at(i);
        if !a.contains_key(k) {
            proof {
                lemma_as_map_index(b.entries@, i as int);
            }
            return false;
        }
    }
    proof {
        assert(a@.dom() =~= b@.dom()) by {
            assert forall|k: Seq<Id>| a@.dom().contains(k) implies b@.dom().contains(k) by {
                lemma_as_map_contains(a.entries@, k);
                let j = choose|j: int| 0 <= j < a.entries@.len() && a.entries@[j].0@ == k;
            }
            assert forall|k: Seq<Id>| b@.dom().contains(k) implies a@.dom().contains(k) by {
                lemma_as_map_contains(b.entries@, k);
                let j = choose|j: int| 0 <= j < b.entries@.len() && b.entries@[j].0@ == k;
                lemma_as_map_index(b.entries@, j);
            }
        }
        assert forall|k: Seq<Id>| a@.dom().contains(k) implies type_eq(#[trigger] a@[k], b@[k]) by {
            lemma_as_map_contains(a.entries@, k);
            let j = choose|j: int| 0 <= j < a.entries@.len() && a.entries@[j].0@ == k;
            lemma_as_map_index(a.entries@, j);
        }
    }
    true
}

fn sim_excl_amap(a: &AMap<TypeList>, b: &AMap<TypeList>) -> (r: bool)
    requires
        a.wf(),
        b.wf(),
    ensures
        r == excl_same(a@, b@),
{
    let na = a.len();
    let nb = b.len();
    for i in 0..na
        invariant
            na == a.spec_len(),
            a.wf(),
            b.wf(),
            forall|j: int|
                0 <= j < i ==> b@.dom().contains(#[trigger] a.entries@[j].0@) && (
                a.entries@[j].1@.len() == b@[a.entries@[j].0@].len() && forall|q: int|
                    0 <= q < a.entries@[j].1@.len() ==> type_eq(
                        #[trigger] a.entries@[j].1@[q],
                        b@[a.entries@[j].0@][q],
                    )),
    {
        let k = a.key_at(i);
        let v = a.value_at(i);
        let ok: bool = match b.get(k) {
            Some(w) => {
                if v.len() != w.len() {
                    false
                } else {
                    let mut all = true;
                    let ln = v.len();
                    for q in 0..ln
                        invariant
                            ln == v@.len(),
                            ln == w@.len(),
                            all ==> forall|t: int| 0 <= t < q ==> type_eq(#[trigger] v@[t], w@[t]),
                            !all ==> exists|t: int| 0 <= t < v@.len() && !type_eq(#[trigger] v@[t], w@[t]),
                    {
                        if all && !crate::types::eq_type(v.at(q), w.at(q)) {
                            all = false;
                        }
                    }
                    all
                }
            }
            None => false,
        };
        proof {
            lemma_as_map_index(a.entries@, i as int);
        }
        if !ok {
            return false;
        }
    }
    for i in 0..nb
        invariant
            nb == b.spec_len(),
            a.wf(),
            b.wf(),
            forall|j: int|
                0 <= j < a.spec_len() ==> b@.dom().contains(#[trigger] a.entries@[j].0@) && (
                a.entries@[j].1@.len() == b@[a.entries@[j].0@].len() && forall|q: int|
                    0 <= q < a.entries@[j].1@.len() ==> type_eq(
                        #[trigger] a.entries@[j].1@[q],
                        b@[a.entries@[j].0@][q],
                    )),
            forall|j: int| 0 <= j < i ==> a@.dom().contains(#[trigger] b.entries@[j].0@),
    {
        let k = b.key_at(i);
        if !a.contains_key(k) {
            proof {
                lemma_as_map_index(b.entries@, i as int);
            }
            return false;
        }
    }
    proof {
        assert(a@.dom() =~= b@.dom()) by {
            assert forall|k: Seq<Id>| a@.dom().contains(k) implies b@.dom().contains(k) by {
                lemma_as_map_contains(a.entries@, k);
                let j = choose|j: int| 0 <= j < a.entries@.len() && a.entries@[j].0@ == k;
            }
            assert forall|k: Seq<Id>| b@.dom().contains(k) implies a@.dom().contains(k) by {
                lemma_as_map_contains(b.entries@, k);
                let j = choose|j: int| 0 <= j < b.entries@.len() && b.entries@[j].0@ == k;
                lemma_as_map_index(b.entries@, j);
            }
        }
        assert forall|k: Seq<Id>| a@.dom().contains(k) implies ((#[trigger] a@[k]).len()
            == b@[k].len() && forall|q: int|
            0 <= q < a@[k].len() ==> type_eq(#[trigger] a@[k][q], b@[k][q])) by {
            lemma_as_map_contains(a.entries@, k);
            let j = choose|j: int| 0 <= j < a.entries@.len() && a.entries@[j].0@ == k;
            lemma_as_map_index(a.entries@, j);
        }
    }
    true
}

impl CondFacts {
    /// Decide the stability test [`cf_same`] between this store and `other`.
    pub fn same_as(&self, other: &CondFacts) -> (r: bool)
        requires
            self.wf(),
            other.wf(),
        ensures
            r == cf_same(self@, other@),
    {
        eq_facts_amap(&self.facts, &other.facts) && sim_type_amap(&self.vars, &other.vars)
            && sim_excl_amap(&self.excludes, &other.excludes) && sim_type_amap(
            &self.types,
            &other.types,
        )
    }

    /// Forget all exclusions (loop passes must not accumulate them).
    pub fn clear_excludes(&mut self)
        requires
            old(self).wf(),
        ensures
            final(self).wf(),
            final(self)@ == (CondFactsV { excludes: Map::empty(), ..old(self)@ }),
    {
        self.excludes = AMap::new();
        proof {
            assert(self@ =~= (CondFactsV { excludes: Map::empty(), ..old(self)@ }));
        }
    }
}


} // verus!
