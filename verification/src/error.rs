//! The errors of a run. The engine itself works in memory and does not
//! fail; these are the errors of a driver that reads sources and writes a
//! sink around it.
use vstd::prelude::*;
use vstd::std_specs::convert::FromSpecImpl;

verus! {

/// `std::io::Error`, carried through as an opaque value.
#[verifier::external_type_specification]
#[verifier::external_body]
pub struct ExIoError(std::io::Error);

/// What can go wrong while one source is copied.
#[derive(Debug)]
pub enum CatError {
    /// Reading the source or writing the sink failed.
    Io(std::io::Error),
}

pub type CatResult<T> = Result<T, CatError>;

/// What can go wrong while a list of named sources is copied.
#[derive(Debug)]
pub enum CatFilesError {
    /// The named source does not exist.
    NotFound(String),
    /// Opening or reading a source, or writing the sink, failed.
    Io(std::io::Error),
}

impl From<std::io::Error> for CatError {
    fn from(error: std::io::Error) -> (r: CatError) {
        CatError::Io(error)
    }
}

impl FromSpecImpl<std::io::Error> for CatError {
    open spec fn obeys_from_spec() -> bool {
        true
    }

    open spec fn from_spec(error: std::io::Error) -> CatError {
        CatError::Io(error)
    }
}

impl From<std::io::Error> for CatFilesError {
    fn from(error: std::io::Error) -> (r: CatFilesError) {
        CatFilesError::Io(error)
    }
}

impl FromSpecImpl<std::io::Error> for CatFilesError {
    open spec fn obeys_from_spec() -> bool {
        true
    }

    open spec fn from_spec(error: std::io::Error) -> CatFilesError {
        CatFilesError::Io(error)
    }
}

impl CatError {
    /// The text that describes the error.
    pub fn message(&self) -> (r: &'static str)
        ensures
            r@ == "io error"@,
    {
        "io error"
    }
}

impl CatFilesError {
    /// The error for a source named `file` that could not be opened with
    /// `error`; `not_found` says whether the source was missing.
    pub fn from_open(file: String, not_found: bool, error: std::io::Error) -> (r: CatFilesError)
        ensures
            r == (if not_found {
                CatFilesError::NotFound(file)
            } else {
                CatFilesError::Io(error)
            }),
    {
        if not_found {
            CatFilesError::NotFound(file)
        } else {
            CatFilesError::Io(error)
        }
    }

    /// The error of one source's copy as the error of the whole list.
    pub fn from_cat(error: CatError) -> (r: CatFilesError)
        ensures
            r == (match error {
                CatError::Io(e) => CatFilesError::Io(e),
            }),
    {
        match error {
            CatError::Io(e) => CatFilesError::Io(e),
        }
    }

    /// The text that describes the error.
    pub fn message(&self) -> (r: &'static str)
        ensures
            r@ == (match self {
                CatFilesError::NotFound(_) => "file not found"@,
                CatFilesError::Io(_) => "io error"@,
            }),
    {
        match self {
            CatFilesError::NotFound(_) => "file not found",
            CatFilesError::Io(_) => "io error",
        }
    }
}

} // verus!
