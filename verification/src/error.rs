//! Structured kernel errors with a path from the root of the offending term.
//!
//! Every failure carries a trace of `Left`/`Right` breadcrumbs: each
//! recursive descent that enters a sub-term appends the side it went into,
//! so the trace read from front to back walks from the failure site up to
//! the root.

use vstd::prelude::*;

use crate::arena::Arena;
use crate::term::TmV;

verus! {

/// One step of the path from the root to the failing sub-term.
#[derive(Clone, Copy, Debug, PartialEq, Eq, Structural)]
pub enum Trace {
    /// The failure lies in the left (first) sub-term.
    Left,
    /// The failure lies in the right (second) sub-term.
    Right,
}

/// The kind of a kernel failure, from type checking or from term building.
#[derive(Clone, Debug, PartialEq, Eq)]
pub enum Kind {
    /// A failure of the type checker.
    TypeChecker(crate::type_checker::ErrorKind),
    /// A failure of the term builder.
    Builder(crate::builder::ErrorKind),
}

/// A kernel failure: a kind plus the breadcrumb trace collected while the
/// recursion unwound.
#[derive(Clone, Debug, PartialEq, Eq)]
pub struct Error {
    /// What went wrong.
    pub kind: Kind,
    /// Breadcrumbs from the failure site back to the root.
    pub trace: Vec<Trace>,
}

/// The kind of a kernel failure, over the trees the handles denote.
pub enum KindV {
    NotUniverse(TmV),
    NotDefEq(TmV, TmV),
    WrongArgumentType(TmV, TmV, TmV, TmV),
    NotAFunction(TmV, TmV, TmV),
    TypeMismatch(TmV, TmV),
    DepthExceeded,
    ConstNotFound(Seq<char>),
}

/// A type-checking failure over trees: a kind and a trace.
pub struct ErrV {
    pub kind: KindV,
    pub trace: Seq<Trace>,
}

impl ErrV {
    /// The same failure with one more breadcrumb appended.
    pub open spec fn push(self, t: Trace) -> ErrV {
        ErrV { kind: self.kind, trace: self.trace.push(t) }
    }
}

impl Error {
    /// Builds a fresh type-checking error with an empty trace.
    pub fn new_tc(kind: crate::type_checker::ErrorKind) -> (r: Error)
        ensures
            r.kind == Kind::TypeChecker(kind),
            r.trace@ =~= Seq::<Trace>::empty(),
    {
        Error { kind: Kind::TypeChecker(kind), trace: Vec::new() }
    }

    /// Appends one breadcrumb to the trace.
    pub fn trace_err(&mut self, t: Trace)
        ensures
            final(self).kind == old(self).kind,
            final(self).trace@ == old(self).trace@.push(t),
    {
        self.trace.push(t);
    }

    /// The tree-level reading of an error.
    pub open spec fn sem(self, a: &Arena) -> ErrV {
        ErrV { kind: self.kind_sem(a), trace: self.trace@ }
    }

    /// The tree-level reading of this error's kind.
    pub open spec fn kind_sem(self, a: &Arena) -> KindV {
        match self.kind {
            Kind::TypeChecker(k) => crate::type_checker::kind_sem(k, a),
            Kind::Builder(k) => match k {
                crate::builder::ErrorKind::ConstNotFound(n) => KindV::ConstNotFound(n@),
            },
        }
    }
}

} // verus!
