use vstd::prelude::*;
use crate::analyzer::Analyzer;
use crate::cond_facts::stored_ok;
use crate::error::ErrorKind;
use crate::name::{Id, Name};
use crate::span::Span;
use crate::type_facts::TypeFacts;
use crate::typeops::{
    access_property, access_property_v, apply_facts_v, apply_type_facts_to_type, sanitize,
};
use crate::types::{
    clone_type, eq_type, lemma_view_ty_list, view_ty_list, KeywordKind, TyKindV, TyV, Type,
    TypeKind, TypeMeta,
};
use crate::union::{
    dedup_types, dedup_v, flatten_members, new_union, new_union_v, umembers,
};

verus! {

/// What `'prop' in obj` (no predicate) or `if (obj.prop)` (with a
/// predicate) learns about one union member: a member without the property
/// is ruled out (`never`); with a predicate, a member whose property the
/// predicate empties is ruled out too; otherwise the member stands.
pub open spec fn narrow_member_v(m: TyV, prop: Id, facts: Option<TypeFacts>) -> TyV {
    match access_property_v(m, prop) {
        None => TyV {
            kind: TyKindV::Keyword(KeywordKind::Never),
            meta: TypeMeta {
                span: m.meta.span,
                frozen: false,
                prevent_converting_to_children: false,
            },
        },
        Some(pt) => match facts {
            Some(f) => if apply_facts_v(f, pt).is_never() {
                TyV {
                    kind: TyKindV::Keyword(KeywordKind::Never),
                    meta: TypeMeta {
                        span: m.meta.span,
                        frozen: false,
                        prevent_converting_to_children: false,
                    },
                }
            } else {
                m
            },
            None => m,
        },
    }
}

/// The narrowed members that survive, in order.
pub open spec fn narrow_members_v(ms: Seq<TyV>, prop: Id, facts: Option<TypeFacts>) -> Seq<TyV>
    decreases ms,
{
    if ms.len() == 0 {
        Seq::empty()
    } else {
        narrow_members_v(ms.drop_last(), prop, facts) + (if narrow_member_v(
            ms.last(),
            prop,
            facts,
        ).is_never() {
            Seq::<TyV>::empty()
        } else {
            seq![narrow_member_v(ms.last(), prop, facts)]
        })
    }
}

/// The value property narrowing yields: over a union, the surviving members
/// de-duplicated (one survivor stands alone, none leaves `never`); over
/// anything else, the member rule itself.
pub open spec fn narrow_types_v(src: TyV, prop: Id, facts: Option<TypeFacts>) -> TyV {
    if src.kind is Union {
        new_union_v(src.meta.span, dedup_v(narrow_members_v(umembers(src), prop, facts)))
    } else {
        narrow_member_v(src, prop, facts)
    }
}

/// The union members whose `field` is structurally the observed type, in
/// order.
pub open spec fn field_matching_members(ms: Seq<TyV>, field: Id, t: TyV) -> Seq<TyV>
    decreases ms,
{
    if ms.len() == 0 {
        Seq::empty()
    } else {
        field_matching_members(ms.drop_last(), field, t) + (
        match access_property_v(ms.last(), field) {
            Some(pt) => if crate::types::type_eq(t, pt) {
                seq![ms.last()]
            } else {
                Seq::<TyV>::empty()
            },
            None => Seq::<TyV>::empty(),
        })
    }
}

/// What the field-fact analysis decides for `name` observed at type `t`:
/// for a two-part name whose base reads as a union, the base refined to the
/// members whose field carries `t` (canonicalized and frozen); nothing for
/// any other shape, base, or when no member matches.
pub open spec fn determine_v(
    s: crate::scope::ScopeV,
    span: Span,
    name: Seq<Id>,
    t: TyV,
) -> Option<(Seq<Id>, TyV)> {
    if name.len() != 2 {
        None
    } else {
        match crate::scope::scope_lookup(s, name[0]) {
            None => None,
            Some(vi) => {
                let obj = crate::scope::read_type_v(vi, span);
                if !(obj.kind is Union) {
                    None
                } else {
                    let mm = field_matching_members(umembers(obj), name[1], t);
                    if mm.len() == 0 {
                        None
                    } else {
                        Some(
                            (
                                seq![name[0]],
                                crate::typeops::sanitized_v(
                                    crate::union::fix_v(new_union_v(span, mm)),
                                ),
                            ),
                        )
                    }
                }
            },
        }
    }
}

fn exec_narrow_member(span: Span, m: &Type, prop: Id, facts: Option<TypeFacts>) -> (r: Type)
    ensures
        r@ == narrow_member_v(m@, prop, facts),
{
    match access_property(span, m, prop) {
        Err(_) => Type { kind: TypeKind::Keyword(KeywordKind::Never), meta: TypeMeta::at(m.span()) },
        Ok(pt) => match facts {
            Some(f) => {
                let refined = apply_type_facts_to_type(f, pt);
                if refined.is_never() {
                    Type {
                        kind: TypeKind::Keyword(KeywordKind::Never),
                        meta: TypeMeta::at(m.span()),
                    }
                } else {
                    clone_type(m)
                }
            }
            None => clone_type(m),
        },
    }
}

impl Analyzer {
    /// Narrow a source type by the presence (and, with a predicate set, the
    /// refined shape) of one of its properties; see [`narrow_types_v`].
    pub fn narrow_types_with_property(
        &self,
        span: Span,
        src: &Type,
        property: Id,
        type_facts: Option<TypeFacts>,
    ) -> (r: Type)
        ensures
            r@ == narrow_types_v(src@, property, type_facts),
    {
        if !src.is_union() {
            return exec_narrow_member(span, src, property, type_facts);
        }
        let members = flatten_members(src);
        proof {
            lemma_view_ty_list(members@);
        }
        let ghost ms = umembers(src@);
        let mut kept: Vec<Type> = Vec::new();
        let n = members.len();
        proof {
            assert(view_ty_list(kept@) =~= narrow_members_v(ms.take(0), property, type_facts));
        }
        for i in 0..n
            invariant
                n == members@.len(),
                ms == umembers(src@),
                view_ty_list(members@) == ms,
                ms.len() == n,
                forall|k: int| 0 <= k < members@.len() ==> #[trigger] members@[k]@ == ms[k],
                view_ty_list(kept@) == narrow_members_v(ms.take(i as int), property, type_facts),
        {
            proof {
                assert(ms.take(i + 1).drop_last() =~= ms.take(i as int));
                assert(ms.take(i + 1).last() == ms[i as int]);
            }
            let narrowed = exec_narrow_member(span, &members[i], property, type_facts);
            if !narrowed.is_never() {
                let ghost pre = kept@;
                kept.push(narrowed);
                proof {
                    assert(kept@.drop_last() =~= pre);
                    assert(view_ty_list(kept@) =~= view_ty_list(pre).push(
                        narrow_member_v(ms[i as int], property, type_facts),
                    ));
                }
            }
        }
        proof {
            assert(ms.take(n as int) =~= ms);
        }
        let deduped = dedup_types(kept);
        new_union(src.span(), deduped)
    }

    /// For a two-part name `obj.field` whose base is a union: the members
    /// whose `field` is structurally the given type.  A refined binding for
    /// the base is returned when some member matches; longer or shorter
    /// names, non-union bases, or no matching member yield nothing.
    pub fn determine_type_fact_by_field_fact(&self, span: Span, name: &Name, ty: &Type) -> (r:
        Result<Option<(Name, Type)>, ErrorKind>)
        requires
            self.wf(),
        ensures
            r is Err <==> (name@.len() == 2 && crate::scope::scope_lookup(
                self.scope@,
                name@[0],
            ) is None),
            r matches Err(e) ==> e == (ErrorKind::NoSuchVar { span, name: name@[0] }),
            r matches Ok(o) ==> {
                &&& (o is None <==> determine_v(self.scope@, span, name@, ty@) is None)
                &&& (o matches Some((n2, t2)) ==> (determine_v(self.scope@, span, name@, ty@)
                    matches Some(d) && n2@ == d.0 && t2@ == d.1 && stored_ok(t2@)))
            },
    {
        if name.len() != 2 {
            return Ok(None);
        }
        let base = name.part(0);
        let field = name.part(1);
        let obj = match self.type_of_var(span, base) {
            Ok(t) => t,
            Err(e) => {
                return Err(e);
            }
        };
        if !obj.is_union() {
            return Ok(None);
        }
        let members = flatten_members(&obj);
        proof {
            lemma_view_ty_list(members@);
        }
        let ghost ms = umembers(obj@);
        let mut matching: Vec<Type> = Vec::new();
        let n = members.len();
        proof {
            assert(view_ty_list(matching@) =~= field_matching_members(ms.take(0), field, ty@));
        }
        for i in 0..n
            invariant
                n == members@.len(),
                ms == umembers(obj@),
                view_ty_list(members@) == ms,
                ms.len() == n,
                forall|k: int| 0 <= k < members@.len() ==> #[trigger] members@[k]@ == ms[k],
                view_ty_list(matching@) == field_matching_members(ms.take(i as int), field, ty@),
        {
            proof {
                assert(ms.take(i + 1).drop_last() =~= ms.take(i as int));
                assert(ms.take(i + 1).last() == ms[i as int]);
            }
            match access_property(span, &members[i], field) {
                Ok(pt) => {
                    if eq_type(ty, &pt) {
                        let ghost pre = matching@;
                        matching.push(clone_type(&members[i]));
                        proof {
                            assert(matching@.drop_last() =~= pre);
                            assert(view_ty_list(matching@) =~= view_ty_list(pre).push(
                                ms[i as int],
                            ));
                        }
                    }
                }
                Err(_) => {}
            }
        }
        proof {
            assert(ms.take(n as int) =~= ms);
        }
        if matching.len() == 0 {
            proof {
                lemma_view_ty_list(matching@);
            }
            return Ok(None);
        }
        proof {
            lemma_view_ty_list(matching@);
        }
        let refined = new_union(span, matching).fixed();
        let refined = sanitize(&refined);
        let key = Name::of_id(base);
        proof {
            assert(key@ =~= seq![name@[0]]);
        }
        Ok(Some((key, refined)))
    }

    /// Record that while this fact is in scope the variable `sym` is `ty` on
    /// the true side, with `exclude` removed from its candidates on the
    /// false side.
    pub fn add_type_fact(&mut self, sym: Id, ty: Type, exclude: Type)
        requires
            old(self).wf(),
            stored_ok(ty@),
            stored_ok(exclude@),
        ensures
            final(self).wf(),
            final(self).scope == old(self).scope,
            final(self).storage == old(self).storage,
            final(self).ctx == old(self).ctx,
            final(self).cur_facts@.true_facts.vars == old(
                self,
            ).cur_facts@.true_facts.vars.insert(seq![sym], ty@),
            final(self).cur_facts@.false_facts.excludes == old(
                self,
            ).cur_facts@.false_facts.excludes.insert(
                seq![sym],
                crate::facts::appended_excludes(
                    old(self).cur_facts@.false_facts,
                    seq![sym],
                    exclude@,
                ),
            ),
            final(self).cur_facts@.true_facts.facts == old(self).cur_facts@.true_facts.facts,
            final(self).cur_facts@.true_facts.excludes == old(
                self,
            ).cur_facts@.true_facts.excludes,
            final(self).cur_facts@.true_facts.types == old(self).cur_facts@.true_facts.types,
            final(self).cur_facts@.false_facts.facts == old(self).cur_facts@.false_facts.facts,
            final(self).cur_facts@.false_facts.vars == old(self).cur_facts@.false_facts.vars,
            final(self).cur_facts@.false_facts.types == old(self).cur_facts@.false_facts.types,
    {
        let name = Name::of_id(sym);
        proof {
            assert(name@ =~= seq![sym]);
        }
        self.cur_facts.insert_var(name, ty, exclude, false);
    }

    /// Record a fact about a projected name, upgraded to a fact about its
    /// base variable where the base is a union and some members carry the
    /// projected type on the field (see [`determine_v`]); otherwise the
    /// binding is recorded under the projected name itself.  The binding
    /// lands in the true or the false side as `is_for_true` says; a failed
    /// base lookup is reported and the projected name still recorded.
    pub fn add_deep_type_fact(&mut self, span: Span, name: Name, ty: Type, is_for_true: bool)
        requires
            old(self).wf(),
            name.wf(),
            stored_ok(ty@),
        ensures
            final(self).wf(),
            final(self).scope == old(self).scope,
            final(self).ctx == old(self).ctx,
            final(self).storage@ == (if name@.len() == 2 && crate::scope::scope_lookup(
                old(self).scope@,
                name@[0],
            ) is None {
                old(self).storage@.push(ErrorKind::NoSuchVar { span, name: name@[0] })
            } else {
                old(self).storage@
            }),
            installed_deep(
                old(self).cur_facts@,
                final(self).cur_facts@,
                deep_fact_target(old(self).scope@, span, name@, ty@).0,
                deep_fact_target(old(self).scope@, span, name@, ty@).1,
                is_for_true,
            ),
    {
        let outcome = self.determine_type_fact_by_field_fact(span, &name, &ty);
        match outcome {
            Ok(Some((n2, t2))) => {
                let ghost n2v = n2@;
                let ghost t2v = t2@;
                if is_for_true {
                    self.cur_facts.true_facts.set_var(n2, t2);
                } else {
                    self.cur_facts.false_facts.set_var(n2, t2);
                }
                proof {
                    assert(installed_deep(
                        old(self).cur_facts@,
                        self.cur_facts@,
                        n2v,
                        t2v,
                        is_for_true,
                    ));
                }
            }
            Ok(None) => {
                let ghost nv = name@;
                let ghost tv = ty@;
                if is_for_true {
                    self.cur_facts.true_facts.set_var(name, ty);
                } else {
                    self.cur_facts.false_facts.set_var(name, ty);
                }
                proof {
                    assert(installed_deep(
                        old(self).cur_facts@,
                        self.cur_facts@,
                        nv,
                        tv,
                        is_for_true,
                    ));
                }
            }
            Err(e) => {
                self.storage.report(e);
                let ghost nv = name@;
                let ghost tv = ty@;
                if is_for_true {
                    self.cur_facts.true_facts.set_var(name, ty);
                } else {
                    self.cur_facts.false_facts.set_var(name, ty);
                }
                proof {
                    assert(installed_deep(
                        old(self).cur_facts@,
                        self.cur_facts@,
                        nv,
                        tv,
                        is_for_true,
                    ));
                }
            }
        }
    }
}

/// The binding a deep fact installs: what the field-fact analysis refined,
/// or the projected name with the observed type itself.
pub open spec fn deep_fact_target(
    s: crate::scope::ScopeV,
    span: Span,
    name: Seq<Id>,
    t: TyV,
) -> (Seq<Id>, TyV) {
    match determine_v(s, span, name, t) {
        Some(d) => d,
        None => (name, t),
    }
}

/// The facts pair `b` is `a` with one binding installed on the chosen side.
pub open spec fn installed_deep(
    a: crate::facts::FactsV,
    b: crate::facts::FactsV,
    n: Seq<Id>,
    t: TyV,
    is_for_true: bool,
) -> bool {
    if is_for_true {
        b.true_facts.vars == a.true_facts.vars.insert(n, t) && b.false_facts == a.false_facts
            && b.true_facts.facts == a.true_facts.facts && b.true_facts.excludes
            == a.true_facts.excludes && b.true_facts.types == a.true_facts.types
    } else {
        b.false_facts.vars == a.false_facts.vars.insert(n, t) && b.true_facts == a.true_facts
            && b.false_facts.facts == a.false_facts.facts && b.false_facts.excludes
            == a.false_facts.excludes && b.false_facts.types == a.false_facts.types
    }
}

} // verus!
