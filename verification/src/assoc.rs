use vstd::prelude::*;
use crate::name::{Id, Name};
use vstd::pervasive::VecAdditionalExecFns;

verus! {

/// A finite map keyed by [`Name`], stored as an association vector with
/// pairwise-distinct keys.  The view is the abstract `Map` from key paths to
/// the *views* of the stored values; every operation is specified against
/// that view.
#[derive(Debug)]
pub struct AMap<T> {
    pub entries: Vec<(Name, T)>,
}

/// The abstract map denoted by an entry sequence: later entries win.
pub open spec fn entries_as_map<T: View>(s: Seq<(Name, T)>) -> Map<Seq<Id>, T::V>
    decreases s.len(),
{
    if s.len() == 0 {
        Map::empty()
    } else {
        entries_as_map(s.drop_last()).insert(s.last().0@, s.last().1@)
    }
}

/// Keys are pairwise distinct.
pub open spec fn entries_wf<T>(s: Seq<(Name, T)>) -> bool {
    forall|i: int, j: int| 0 <= i < j < s.len() ==> s[i].0@ != s[j].0@
}

/// A key is in the abstract map exactly when some entry carries it.
pub proof fn lemma_as_map_contains<T: View>(s: Seq<(Name, T)>, k: Seq<Id>)
    ensures
        entries_as_map(s).dom().contains(k) <==> exists|i: int|
            0 <= i < s.len() && s[i].0@ == k,
    decreases s.len(),
{
    if s.len() > 0 {
        lemma_as_map_contains(s.drop_last(), k);
        if s.last().0@ == k {
            assert(s[s.len() - 1].0@ == k);
        } else {
            if exists|i: int| 0 <= i < s.len() && s[i].0@ == k {
                let i = choose|i: int| 0 <= i < s.len() && s[i].0@ == k;
                assert(s.drop_last()[i] == s[i]);
            }
        }
    }
}

/// With distinct keys, the entry at any index gives the map's value there.
pub proof fn lemma_as_map_index<T: View>(s: Seq<(Name, T)>, i: int)
    requires
        entries_wf(s),
        0 <= i < s.len(),
    ensures
        entries_as_map(s).dom().contains(s[i].0@),
        entries_as_map(s)[s[i].0@] == s[i].1@,
    decreases s.len(),
{
    if i == s.len() - 1 {
    } else {
        assert(entries_wf(s.drop_last())) by {
            assert(forall|a: int, b: int|
                0 <= a < b < s.len() - 1 ==> s.drop_last()[a].0@ != s.drop_last()[b].0@);
        }
        assert(s.drop_last()[i] == s[i]);
        lemma_as_map_index(s.drop_last(), i);
        assert(s[i].0@ != s.last().0@);
    }
}

/// Replacing the entry at index `i` by a pair with the same key path updates
/// the abstract map at that key.
pub proof fn lemma_as_map_update<T: View>(s: Seq<(Name, T)>, i: int, p: (Name, T))
    requires
        entries_wf(s),
        0 <= i < s.len(),
        p.0@ == s[i].0@,
    ensures
        entries_wf(s.update(i, p)),
        entries_as_map(s.update(i, p)) == entries_as_map(s).insert(p.0@, p.1@),
    decreases s.len(),
{
    let t = s.update(i, p);
    assert(entries_wf(t)) by {
        assert(forall|a: int, b: int| 0 <= a < b < t.len() ==> t[a].0@ != t[b].0@) by {
            assert(forall|a: int| 0 <= a < t.len() ==> t[a].0@ == s[a].0@);
        }
    }
    if i == s.len() - 1 {
        assert(t.drop_last() =~= s.drop_last());
        assert(entries_as_map(t) =~= entries_as_map(s).insert(p.0@, p.1@));
    } else {
        assert(entries_wf(s.drop_last())) by {
            assert(forall|a: int, b: int|
                0 <= a < b < s.len() - 1 ==> s.drop_last()[a].0@ != s.drop_last()[b].0@);
        }
        lemma_as_map_update(s.drop_last(), i, p);
        assert(t.drop_last() =~= s.drop_last().update(i, p));
        assert(t.last() == s.last());
        assert(s[i].0@ != s.last().0@);
        assert(entries_as_map(t) =~= entries_as_map(s).insert(p.0@, p.1@));
    }
}

/// Appending an entry inserts its key into the abstract map.
pub proof fn lemma_as_map_push<T: View>(s: Seq<(Name, T)>, p: (Name, T))
    ensures
        entries_as_map(s.push(p)) == entries_as_map(s).insert(p.0@, p.1@),
{
    assert(s.push(p).drop_last() =~= s);
}

/// Entry lists with pointwise equal key paths and value views denote the
/// same map, and well-formedness carries over.
pub proof fn lemma_as_map_congruence<T: View>(a: Seq<(Name, T)>, b: Seq<(Name, T)>)
    requires
        a.len() == b.len(),
        forall|i: int| 0 <= i < a.len() ==> (#[trigger] a[i]).0@ == b[i].0@,
        forall|i: int| 0 <= i < a.len() ==> (#[trigger] a[i]).1@ == b[i].1@,
    ensures
        entries_as_map(a) == entries_as_map(b),
        entries_wf(a) ==> entries_wf(b),
    decreases a.len(),
{
    if a.len() > 0 {
        lemma_as_map_congruence(a.drop_last(), b.drop_last());
        assert(forall|i: int| 0 <= i < a.len() - 1 ==> #[trigger] a.drop_last()[i] == a[i]);
        assert(forall|i: int| 0 <= i < b.len() - 1 ==> #[trigger] b.drop_last()[i] == b[i]);
        assert(entries_as_map(a) =~= entries_as_map(b));
        if entries_wf(a) {
            assert forall|i: int, j: int| 0 <= i < j < b.len() implies b[i].0@ != b[j].0@ by {
                assert(a[i].0@ != a[j].0@);
            }
        }
    } else {
        assert(entries_as_map(a) =~= entries_as_map(b));
        if entries_wf(a) {
            assert(entries_wf(b));
        }
    }
}

impl<T: View> View for AMap<T> {
    type V = Map<Seq<Id>, T::V>;

    open spec fn view(&self) -> Map<Seq<Id>, T::V> {
        entries_as_map(self.entries@)
    }
}

impl<T: View> AMap<T> {
    /// Keys are pairwise distinct and every key is a well-formed name.
    pub open spec fn wf(self) -> bool {
        &&& entries_wf(self.entries@)
        &&& forall|i: int| 0 <= i < self.entries@.len() ==> (#[trigger] self.entries@[i].0).wf()
    }

    pub open spec fn spec_len(self) -> nat {
        self.entries@.len()
    }

    pub fn new() -> (r: Self)
        ensures
            r.wf(),
            r@ == Map::<Seq<Id>, T::V>::empty(),
            r.spec_len() == 0,
    {
        AMap { entries: Vec::new() }
    }

    pub fn len(&self) -> (r: usize)
        ensures
            r == self.spec_len(),
    {
        self.entries.len()
    }

    pub fn is_empty(&self) -> (r: bool)
        ensures
            r == (self.spec_len() == 0),
    {
        self.entries.len() == 0
    }

    /// The key of the entry at position `i` (iteration order is insertion
    /// order of first occurrence).
    pub fn key_at(&self, i: usize) -> (r: &Name)
        requires
            i < self.spec_len(),
        ensures
            r == self.entries@[i as int].0,
    {
        &self.entries[i].0
    }

    /// The value of the entry at position `i`.
    pub fn value_at(&self, i: usize) -> (r: &T)
        requires
            i < self.spec_len(),
        ensures
            *r == self.entries@[i as int].1,
            self.wf() ==> self@.dom().contains(self.entries@[i as int].0@)
                && self@[self.entries@[i as int].0@] == self.entries@[i as int].1@,
    {
        proof {
            if self.wf() {
                lemma_as_map_index(self.entries@, i as int);
            }
        }
        &self.entries[i].1
    }

    fn index_of(&self, k: &Name) -> (r: Option<usize>)
        ensures
            match r {
                Some(i) => i < self.spec_len() && self.entries@[i as int].0@ == k@,
                None => forall|i: int|
                    0 <= i < self.spec_len() ==> self.entries@[i].0@ != k@,
            },
    {
        let n = self.entries.len();
        for i in 0..n
            invariant
                n == self.spec_len(),
                forall|j: int| 0 <= j < i ==> self.entries@[j].0@ != k@,
        {
            if self.entries[i].0.same(k) {
                return Some(i);
            }
        }
        None
    }

    pub fn contains_key(&self, k: &Name) -> (r: bool)
        ensures
            r == self@.dom().contains(k@),
    {
        proof {
            lemma_as_map_contains(self.entries@, k@);
        }
        self.index_of(k).is_some()
    }

    pub fn get(&self, k: &Name) -> (r: Option<&T>)
        requires
            self.wf(),
        ensures
            match r {
                Some(v) => self@.dom().contains(k@) && v@ == self@[k@],
                None => !self@.dom().contains(k@),
            },
    {
        proof {
            lemma_as_map_contains(self.entries@, k@);
        }
        match self.index_of(k) {
            Some(i) => {
                proof {
                    lemma_as_map_index(self.entries@, i as int);
                }
                Some(&self.entries[i].1)
            }
            None => None,
        }
    }

    /// Insert or replace: afterwards `k` maps to `v` and nothing else moved.
    pub fn set(&mut self, k: Name, v: T)
        requires
            old(self).wf(),
            k.wf(),
        ensures
            final(self).wf(),
            final(self)@ == old(self)@.insert(k@, v@),
    {
        match self.index_of(&k) {
            Some(i) => {
                proof {
                    lemma_as_map_update(self.entries@, i as int, (k, v));
                }
                self.entries.set(i, (k, v));
            }
            None => {
                proof {
                    lemma_as_map_push(self.entries@, (k, v));
                    assert(entries_wf(self.entries@.push((k, v))));
                }
                self.entries.push((k, v));
            }
        }
    }

    /// Move the whole map out, leaving this one empty.
    pub fn take(&mut self) -> (r: Self)
        ensures
            r == *old(self),
            final(self).wf(),
            final(self)@ == Map::<Seq<Id>, T::V>::empty(),
            final(self).spec_len() == 0,
    {
        let mut r: AMap<T> = AMap { entries: Vec::new() };
        core::mem::swap(&mut r, self);
        r
    }
}

} // verus!
