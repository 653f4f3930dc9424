//! What can go wrong while loading.

use vstd::prelude::*;

verus! {

/// The error that a line source reports. Nothing is known of its contents.
#[verifier::external_type_specification]
#[verifier::external_body]
pub struct ExIoError(std::io::Error);

/// Why a load was abandoned. The three parsing errors carry the zero-based
/// number of the line on which they were found.
#[derive(Debug)]
pub enum LoadingError {
    /// The line has no keyword, or one that is not known.
    InvalidLine(usize),
    /// A directive has the wrong number of arguments, or a face corner the
    /// wrong number of fields.
    WrongNumberOfArguments(usize),
    /// A mandatory number is malformed.
    Parse(usize),
    /// The line source failed.
    Io(std::io::Error),
}

impl LoadingError {
    /// The line on which a parsing error was found; `None` for a failure of
    /// the line source.
    pub open spec fn spec_line(&self) -> Option<usize> {
        match *self {
            LoadingError::InvalidLine(n) => Some(n),
            LoadingError::WrongNumberOfArguments(n) => Some(n),
            LoadingError::Parse(n) => Some(n),
            LoadingError::Io(_) => None,
        }
    }

    /// The line on which a parsing error was found; `None` for a failure of
    /// the line source.
    #[verifier::when_used_as_spec(spec_line)]
    pub fn line(&self) -> (r: Option<usize>)
        ensures
            r == self.spec_line(),
    {
        match self {
            LoadingError::InvalidLine(n) => Some(*n),
            LoadingError::WrongNumberOfArguments(n) => Some(*n),
            LoadingError::Parse(n) => Some(*n),
            LoadingError::Io(_) => None,
        }
    }
}

impl From<std::io::Error> for LoadingError {
    fn from(err: std::io::Error) -> (r: LoadingError) {
        LoadingError::Io(err)
    }
}

impl vstd::std_specs::convert::FromSpecImpl<std::io::Error> for LoadingError {
    open spec fn obeys_from_spec() -> bool {
        true
    }

    open spec fn from_spec(err: std::io::Error) -> LoadingError {
        LoadingError::Io(err)
    }
}

} // verus!
