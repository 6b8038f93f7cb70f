use vstd::prelude::*;

verus! {

/// A source location, carried through for error reporting; no logic reads it
/// except to re-attach it to derived values.
#[derive(Clone, Copy, PartialEq, Eq, Structural, Debug)]
pub struct Span {
    pub lo: u32,
    pub hi: u32,
}

impl Span {
    /// The placeholder span of synthesized nodes.
    pub fn dummy() -> (r: Span)
        ensures
            r.lo == 0 && r.hi == 0,
    {
        Span { lo: 0, hi: 0 }
    }

    pub fn new(lo: u32, hi: u32) -> (r: Span)
        ensures
            r.lo == lo && r.hi == hi,
    {
        Span { lo, hi }
    }
}

} // verus!
