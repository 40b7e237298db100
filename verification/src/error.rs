//! The failures of a run.

use vstd::prelude::*;
use vstd::string::StringExecFns;

verus! {

/// What went wrong, by the part of the run that met it.
#[derive(Clone, Copy, Debug, PartialEq, Eq, Structural)]
pub enum ErrorKind {
    /// Listing the references or checking one out failed.
    Vcs,
    /// The build configuration could not be put together.
    Configuration,
    /// A reference filter is no valid pattern.
    Pattern,
    /// The documentation generator failed.
    Build,
    /// A directory or file of the output tree could not be made.
    Filesystem,
    /// The index page could not be rendered.
    Template,
    /// The index could not be written as JSON.
    Serialization,
    /// The caller answered an action with an outcome of another action.
    Protocol,
}

/// A failure: its kind and a text for the user.
#[derive(Debug)]
pub struct Failure {
    pub kind: ErrorKind,
    pub detail: String,
}

/// What a `Failure` stands for.
pub struct FailureView {
    pub kind: ErrorKind,
    pub detail: Seq<char>,
}

impl View for Failure {
    type V = FailureView;

    open spec fn view(&self) -> FailureView {
        FailureView { kind: self.kind, detail: self.detail@ }
    }
}

/// The failure of the given kind with the given text.
pub open spec fn failure(kind: ErrorKind, detail: Seq<char>) -> FailureView {
    FailureView { kind, detail }
}

impl Failure {
    /// A failure of the given kind with the given text.
    pub fn new(kind: ErrorKind, detail: &str) -> (r: Failure)
        ensures
            r@ == failure(kind, detail@),
    {
        Failure { kind, detail: detail.to_owned() }
    }

    /// A failure of the given kind whose text is `context`, a colon and
    /// `cause`.
    pub fn with_cause(kind: ErrorKind, context: &str, cause: &str) -> (r: Failure)
        ensures
            r@ == failure(kind, context@ + ": "@ + cause@),
    {
        let mut detail = context.to_owned();
        detail.append(": ");
        detail.append(cause);
        Failure { kind, detail }
    }

    /// A second copy of this failure.
    pub fn duplicate(&self) -> (r: Failure)
        ensures
            r@ == self@,
    {
        Failure { kind: self.kind, detail: self.detail.clone() }
    }
}

} // verus!
