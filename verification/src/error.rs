//! The ways in which generating a document can fail.

use vstd::prelude::*;

verus! {

/// A failure detected while a document is being built. Any one of them
/// aborts the whole build.
#[derive(Clone, Copy, Debug, PartialEq, Eq, Structural)]
pub enum Error {
    /// Two structurally different shapes compete for one schema name and the
    /// registry is configured to fail on that.
    NamingCollision,
    /// The placeholders of a path template and the declared path parameters
    /// disagree.
    PathParameterMismatch,
    /// One descriptor declares the same parameter name twice.
    DuplicateParameter,
    /// Two visible operations have the same normalized path and method.
    DuplicateRoute,
    /// A path template has unbalanced or otherwise invalid placeholders.
    MalformedPathTemplate,
    /// A shape refers by name to a schema that is neither registered nor
    /// being registered.
    UnresolvedReference,
}

impl Error {
    /// A one-line description of the failure.
    pub fn message(&self) -> (text: &'static str)
        ensures
            text@ == match *self {
                Error::NamingCollision => "two different shapes compete for one schema name"@,
                Error::PathParameterMismatch => "path placeholders and path parameters disagree"@,
                Error::DuplicateParameter => "a parameter name is declared twice"@,
                Error::DuplicateRoute => "two operations share one path and method"@,
                Error::MalformedPathTemplate => "the path template is malformed"@,
                Error::UnresolvedReference => "a shape refers to an unknown schema name"@,
            },
    {
        match self {
            Error::NamingCollision => "two different shapes compete for one schema name",
            Error::PathParameterMismatch => "path placeholders and path parameters disagree",
            Error::DuplicateParameter => "a parameter name is declared twice",
            Error::DuplicateRoute => "two operations share one path and method",
            Error::MalformedPathTemplate => "the path template is malformed",
            Error::UnresolvedReference => "a shape refers to an unknown schema name",
        }
    }
}

} // verus!
