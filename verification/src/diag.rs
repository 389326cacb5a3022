//! The diagnostics this core reports.
//!
//! All but `CircularDependency` are per-occurrence and non-fatal: they are
//! recorded and a placeholder or best-effort value is substituted so the pass
//! can complete.  `CircularDependency` is fatal for the compilation: the
//! document's cross-references did not settle within the iteration budget,
//! and the diagnostic names the states whose values kept changing.

use vstd::prelude::*;

verus! {

/// One reported problem.
#[derive(Debug)]
pub enum Diagnostic {
    /// The same label was declared twice in one pass.
    DuplicateLabel(String),
    /// A reference names a label no node declared.
    UndefinedLabel(String),
    /// A citation names a key the record set does not hold.
    CitationKeyNotFound(String),
    /// An internal link target's location is not in the snapshot.
    UnresolvedLink,
    /// An external link target is empty or lacks a scheme.
    MalformedLink(String),
    /// The passes did not stabilize; the named states kept changing.
    CircularDependency(Vec<String>),
    /// A numbering pattern holds no counting symbol, or is not ASCII.
    MalformedNumberingPattern,
}

impl Diagnostic {
    /// Whether this diagnostic aborts the compilation.  Only a failure to
    /// stabilize does; everything else is recorded and rendering goes on
    /// with a placeholder.
    pub fn is_fatal(&self) -> (r: bool)
        ensures
            r == (self is CircularDependency),
    {
        matches!(self, Diagnostic::CircularDependency(_))
    }
}

} // verus!
