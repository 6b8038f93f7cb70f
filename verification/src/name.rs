use vstd::prelude::*;

verus! {

/// An interned identifier.  The surrounding checker owns the interning table;
/// the core only ever compares identifiers, so a number is all it keeps.
pub type Id = u64;

/// A dotted path `base.field1.field2...` identifying a refinable location.
/// Always non-empty; order is significant (`a.b` differs from `b.a`).
/// Length-1 names denote bare variables, longer names projected accesses.
#[derive(Debug)]
pub struct Name {
    pub parts: Vec<Id>,
}

impl View for Name {
    type V = Seq<Id>;

    open spec fn view(&self) -> Seq<Id> {
        self.parts@
    }
}

impl Name {
    /// A name is well formed when it has at least one part.
    pub open spec fn wf(self) -> bool {
        self@.len() >= 1
    }

    /// The name of a bare variable.
    pub fn of_id(id: Id) -> (r: Name)
        ensures
            r@ =~= seq![id],
            r.wf(),
    {
        let mut parts: Vec<Id> = Vec::new();
        parts.push(id);
        Name { parts }
    }

    /// A projected access `base.field`.
    pub fn of_member(base: Id, field: Id) -> (r: Name)
        ensures
            r@ =~= seq![base, field],
            r.wf(),
    {
        let mut parts: Vec<Id> = Vec::new();
        parts.push(base);
        parts.push(field);
        Name { parts }
    }

    pub fn from_parts(parts: Vec<Id>) -> (r: Name)
        ensures
            r@ == parts@,
    {
        Name { parts }
    }

    pub fn len(&self) -> (r: usize)
        ensures
            r == self@.len(),
    {
        self.parts.len()
    }

    pub fn part(&self, i: usize) -> (r: Id)
        requires
            i < self@.len(),
        ensures
            r == self@[i as int],
    {
        self.parts[i]
    }

    /// Structural equality of paths.
    pub fn same(&self, other: &Name) -> (r: bool)
        ensures
            r == (self@ == other@),
    {
        if self.parts.len() != other.parts.len() {
            assert(self@ != other@);
            return false;
        }
        let n = self.parts.len();
        for i in 0..n
            invariant
                n == self@.len(),
                n == other@.len(),
                forall|j: int| 0 <= j < i ==> self@[j] == other@[j],
        {
            if self.parts[i] != other.parts[i] {
                assert(self@ != other@);
                return false;
            }
        }
        assert(self@ =~= other@);
        true
    }
}

impl Clone for Name {
    fn clone(&self) -> (r: Self)
        ensures
            r@ == self@,
    {
        let mut parts: Vec<Id> = Vec::new();
        let n = self.parts.len();
        for i in 0..n
            invariant
                n == self.parts@.len(),
                parts@ =~= self.parts@.take(i as int),
        {
            parts.push(self.parts[i]);
        }
        assert(parts@ =~= self.parts@);
        Name { parts }
    }
}

} // verus!
