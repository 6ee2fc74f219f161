//! The ways a matching request can fail.
use vstd::prelude::*;

verus! {

/// Why a request produced no match list.
#[derive(Clone, Copy, Debug, PartialEq, Eq)]
pub enum AliasError {
    /// The target text does not parse to exactly one type expression.
    InvalidTargetSignature,
    /// The target type holds a type variable; targets must be concrete.
    TargetNotConcrete,
    /// A matched alias declaration has no `type <name> =` header.
    MalformedAliasHeader,
    /// The source text could not be parsed.
    SourceParseFailure,
    /// Two term sequences of different lengths were handed to the
    /// consistency check.
    TermCountMismatch,
}

} // verus!
