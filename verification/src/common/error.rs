use vstd::prelude::*;
use vstd::std_specs::convert::FromSpecImpl;
use crate::syntax::error::Error;

verus! {

#[verifier::external_type_specification]
#[verifier::external_body]
pub struct ExIoError(std::io::Error);

/// An error that comes of processing a piece of code: reading it, or making sense of it.
#[derive(Debug)]
pub enum ProcessError {
    Io(std::io::Error),
    Syntax(Error),
}

impl From<std::io::Error> for ProcessError {
    fn from(other: std::io::Error) -> (r: Self) {
        ProcessError::Io(other)
    }
}

impl FromSpecImpl<std::io::Error> for ProcessError {
    open spec fn obeys_from_spec() -> bool {
        true
    }

    open spec fn from_spec(v: std::io::Error) -> ProcessError {
        ProcessError::Io(v)
    }
}

impl From<Error> for ProcessError {
    fn from(other: Error) -> (r: Self) {
        ProcessError::Syntax(other)
    }
}

impl FromSpecImpl<Error> for ProcessError {
    open spec fn obeys_from_spec() -> bool {
        true
    }

    open spec fn from_spec(v: Error) -> ProcessError {
        ProcessError::Syntax(v)
    }
}

} // verus!
