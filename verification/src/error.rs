//! The error of every fallible operation.

use vstd::prelude::*;

verus! {

/// What went wrong.
#[derive(Clone, Copy, Debug, PartialEq, Eq, Structural)]
#[non_exhaustive]
pub enum ErrorKind {
    /// The caller asked for something that cannot be done.
    InvalidArgument,
    /// The host does not show what was applied.
    VerificationError,
    /// A plugin failed to do its part.
    PluginFailure,
    /// What was asked for is not implemented.
    NoSupport,
    /// Something that should never happen.
    Bug,
}

/// An error with its kind and a message for people.
#[derive(Clone, Debug, PartialEq, Eq)]
pub struct NipartError {
    pub kind: ErrorKind,
    pub msg: String,
}

/// What a [NipartError] stands for.
pub struct NipartErrorView {
    pub kind: ErrorKind,
    pub msg: Seq<char>,
}

impl View for NipartError {
    type V = NipartErrorView;

    open spec fn view(&self) -> NipartErrorView {
        NipartErrorView { kind: self.kind, msg: self.msg@ }
    }
}

impl NipartError {
    pub fn new(kind: ErrorKind, msg: String) -> (res: Self)
        ensures
            res@ == (NipartErrorView { kind, msg: msg@ }),
    {
        NipartError { kind, msg }
    }

    pub fn kind(&self) -> (res: ErrorKind)
        ensures
            res == self@.kind,
    {
        self.kind
    }

    pub fn msg(&self) -> (res: &str)
        ensures
            res@ == self@.msg,
    {
        self.msg.as_str()
    }
}

/// The error of an argument that cannot be accepted.
pub open spec fn invalid(msg: Seq<char>) -> NipartErrorView {
    NipartErrorView { kind: ErrorKind::InvalidArgument, msg }
}

/// Whether `res` is what `spec` says, a value by its deep view.
pub open spec fn same_result<T: DeepView>(
    res: Result<T, NipartError>,
    spec: Result<T::V, NipartErrorView>,
) -> bool {
    match (res, spec) {
        (Ok(a), Ok(b)) => a.deep_view() == b,
        (Err(a), Err(b)) => a@ == b,
        _ => false,
    }
}

} // verus!
