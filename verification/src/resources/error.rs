//! Failures of host resource operations.

use vstd::prelude::*;

verus! {

/// Failure of a host resource operation.
#[derive(Clone, Copy, Debug, PartialEq, Eq, Structural)]
pub enum ResourceError {
    /// The configured live-handle or slot bound has been reached.
    Full,
    /// Table backing storage could not be reserved.
    Allocation,
    /// The handle is zero, stale, or absent from this table.
    InvalidHandle,
    /// The handle is live but belongs to another WIT resource type.
    WrongType,
}

impl ResourceError {
    /// The text that describes the failure.
    pub open spec fn text(self) -> Seq<char> {
        match self {
            ResourceError::Full => "host resource table is full"@,
            ResourceError::Allocation => "host resource table allocation failed"@,
            ResourceError::InvalidHandle => "invalid host resource handle"@,
            ResourceError::WrongType => "host resource handle has the wrong type"@,
        }
    }

    /// Describes the failure.
    pub fn to_string(&self) -> (text: String)
        ensures
            text@ == self.text(),
    {
        match self {
            ResourceError::Full => "host resource table is full".to_owned(),
            ResourceError::Allocation => "host resource table allocation failed".to_owned(),
            ResourceError::InvalidHandle => "invalid host resource handle".to_owned(),
            ResourceError::WrongType => "host resource handle has the wrong type".to_owned(),
        }
    }
}

/// The runtime's error type, carried through without looking inside.
#[verifier::external_type_specification]
#[verifier::external_body]
pub struct ExTinywasmError(tinywasm::Error);

/// The value of `tinywasm::Error::Other` for a message of these characters.
pub uninterp spec fn tinywasm_other(message: Seq<char>) -> tinywasm::Error;

/// Builds `tinywasm::Error::Other`, the runtime's catch-all error variant.
///
/// The variant holds the message and nothing else, so the contract claims that
/// the characters of the message determine the error.
#[verifier::external_body]
fn other_error(message: String) -> (error: tinywasm::Error)
    ensures
        error == tinywasm_other(message@),
{
    tinywasm::Error::Other(message)
}

/// A failed resource operation surfaces from a host function as the runtime's
/// catch-all error with the failure's text.
impl From<ResourceError> for tinywasm::Error {
    fn from(error: ResourceError) -> (converted: Self) {
        other_error(error.to_string())
    }
}

impl vstd::std_specs::convert::FromSpecImpl<ResourceError> for tinywasm::Error {
    open spec fn obeys_from_spec() -> bool {
        true
    }

    open spec fn from_spec(error: ResourceError) -> tinywasm::Error {
        tinywasm_other(error.text())
    }
}

} // verus!
