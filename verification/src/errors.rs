use vstd::prelude::*;

verus! {

/// Errors surfaced by the introspection library.
///
/// `NotInitialized` is returned when the history store is queried or written
/// before `init` has run; `MalformedSince` when a `since` filter string is not
/// a decimal timestamp.
#[derive(Clone, Copy, Debug, PartialEq, Eq, Structural)]
pub enum IntrospectError {
    NotInitialized,
    MalformedSince,
}

impl IntrospectError {
    /// A short human-readable description of the error.
    pub fn message(&self) -> (s: &'static str)
        ensures
            *self == IntrospectError::NotInitialized ==> s@ == "Tool history not initialized"@,
            *self == IntrospectError::MalformedSince ==> s@ == "Malformed since timestamp"@,
    {
        match self {
            IntrospectError::NotInitialized => "Tool history not initialized",
            IntrospectError::MalformedSince => "Malformed since timestamp",
        }
    }
}

} // verus!
