use vstd::prelude::*;
use crate::ast::AssignOp;
use crate::name::Id;
use crate::span::Span;

verus! {

/// The flat error taxonomy of the narrowing core, each kind with the span it
/// is attached to.
#[derive(Clone, Copy, PartialEq, Eq, Structural, Debug)]
pub enum ErrorKind {
    UndefinedSymbol { span: Span, sym: Id },
    NoSuchVar { span: Span, name: Id },
    NotVariable { span: Span, left: Span },
    InvalidLhsOfAssign { span: Span },
    InvalidOperatorForLhs { span: Span, op: AssignOp },
    NotArrayType { span: Span },
    NotArrayTypeNorStringType { span: Span },
    BindingPatNotAllowedInRestPatArg { span: Span },
    RestArgMustBeVarOrMemberAccess { span: Span },
    InvalidRestPatternInOptionalChain { span: Span },
    InvalidRestPatternInForIn { span: Span },
    InvalidRestPatternInForOf { span: Span },
    DestructuringBindingNotAllowedInLhsOfForIn { span: Span },
    TypeAnnOnLhsOfForInLoops { span: Span },
    TypeAnnOnLhsOfForOfLoops { span: Span },
    InvalidExprOfLhsOfForIn { span: Span },
    InvalidExprOfLhsOfForOf { span: Span },
    WrongTypeForLhsOfForInLoop { span: Span },
    ForOfStringUsedInEs3 { span: Span },
    NoSuchProperty { span: Span, prop: Id },
    NoNewSignature { span: Span },
    AssignFailed { span: Span },
    TupleIndexOutOfBounds { span: Span, index: usize, len: usize },
}

/// The append-only error sink.  Reporters must not assume a position: only
/// that what was reported stays, in order.
#[derive(Debug)]
pub struct Storage {
    pub errors: Vec<ErrorKind>,
}

impl View for Storage {
    type V = Seq<ErrorKind>;

    open spec fn view(&self) -> Seq<ErrorKind> {
        self.errors@
    }
}

impl Storage {
    pub fn new() -> (r: Self)
        ensures
            r@ == Seq::<ErrorKind>::empty(),
    {
        Storage { errors: Vec::new() }
    }

    /// Record an error.
    pub fn report(&mut self, err: ErrorKind)
        ensures
            final(self)@ == old(self)@.push(err),
    {
        self.errors.push(err);
    }

    pub fn error_count(&self) -> (r: usize)
        ensures
            r == self@.len(),
    {
        self.errors.len()
    }

    pub fn error_at(&self, i: usize) -> (r: ErrorKind)
        requires
            i < self@.len(),
        ensures
            r == self@[i as int],
    {
        self.errors[i]
    }
}

/// Report-and-continue plumbing for fallible results.
pub trait ResultExt<T>: Sized {
    spec fn as_result(self) -> Result<T, ErrorKind>;

    /// Keep the value; push the error into a plain error list.
    fn store(self, to: &mut Vec<ErrorKind>) -> (r: Option<T>)
        ensures
            match self.as_result() {
                Ok(v) => r == Some(v) && final(to)@ == old(to)@,
                Err(e) => r is None && final(to)@ == old(to)@.push(e),
            },
    ;

    /// Keep the value; report the error to the sink.
    fn report(self, storage: &mut Storage) -> (r: Option<T>)
        ensures
            match self.as_result() {
                Ok(v) => r == Some(v) && final(storage)@ == old(storage)@,
                Err(e) => r is None && final(storage)@ == old(storage)@.push(e),
            },
    ;
}

impl<T> ResultExt<T> for Result<T, ErrorKind> {
    open spec fn as_result(self) -> Result<T, ErrorKind> {
        self
    }

    fn store(self, to: &mut Vec<ErrorKind>) -> (r: Option<T>) {
        match self {
            Ok(v) => Some(v),
            Err(e) => {
                to.push(e);
                None
            }
        }
    }

    fn report(self, storage: &mut Storage) -> (r: Option<T>) {
        match self {
            Ok(v) => Some(v),
            Err(e) => {
                storage.report(e);
                None
            }
        }
    }
}

} // verus!
