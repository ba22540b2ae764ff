//! What can go wrong while building maintainer scripts.
use vstd::prelude::*;

verus! {

/// The errors of fragment accumulation and script composition.
#[derive(Debug)]
pub enum DhError {
    /// No fragment template has the requested name.
    UnknownAutoscript(String),
    /// A fragment was requested without any placeholder substitution, which
    /// would call for stream-edit rules that are not supported.
    SedModeUnsupported,
    /// A template, an accumulated fragment or a script is not valid UTF-8.
    InvalidUtf8,
    /// The user's maintainer script at this path holds no `#DEBHELPER#`
    /// marker to put the generated fragments in.
    ReplaceFailed(String),
}

} // verus!
