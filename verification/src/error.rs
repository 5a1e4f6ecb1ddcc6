//! The closed set of error kinds shared by every layer of the library.

use vstd::prelude::*;

verus! {

/// Failure of a single operation.
///
/// Messages are static literals so that an error can outlive the plugin
/// library whose call produced it.
#[derive(Clone, Copy, Debug, PartialEq, Eq)]
pub enum Error {
    /// The underlying transport failed.
    IO(&'static str),
    /// Bad arguments: a malformed option string or an unusable value.
    Configuration,
    /// A connector plugin could not be loaded, matched or instantiated.
    Connector(&'static str),
    /// An address lies outside the memory map or beyond the provider's size.
    OutOfBounds,
    /// Translation met a page-table entry whose present bit is clear.
    PageNotPresent,
    /// Translation met a malformed page-table entry.
    InvalidPageTable,
    /// A value does not fit the range of the target type.
    Bounds,
    /// Anything else.
    Other(&'static str),
}

/// Failure of an operation that may have completed in part.
#[derive(Clone, Copy, Debug, PartialEq, Eq)]
pub enum PartialError {
    /// Nothing was transferred.
    Error(Error),
    /// The first `0` bytes were transferred before `1` stopped the operation.
    Partial(usize, Error),
}

/// The number that stands for an error where results cross a C boundary:
/// negative, and fixed for each kind.
pub open spec fn error_code(e: Error) -> int {
    match e {
        Error::IO(_) => -1,
        Error::Configuration => -2,
        Error::Connector(_) => -3,
        Error::OutOfBounds => -4,
        Error::PageNotPresent => -5,
        Error::InvalidPageTable => -6,
        Error::Bounds => -7,
        Error::Other(_) => -9,
    }
}

/// The number that stands for a result where it crosses a C boundary: zero
/// for success, the code of the error otherwise.
pub open spec fn result_code<T>(r: core::result::Result<T, Error>) -> int {
    match r {
        Ok(_) => 0,
        Err(e) => error_code(e),
    }
}

/// The number that stands for a partial result: zero for success, `-8` for
/// an operation that was completed in part, the code of the error
/// otherwise.
pub open spec fn partial_result_code<T>(r: core::result::Result<T, PartialError>) -> int {
    match r {
        Ok(_) => 0,
        Err(PartialError::Partial(_, _)) => -8,
        Err(PartialError::Error(e)) => error_code(e),
    }
}

/// The number that stands for the results of a batch: zero where every
/// entry succeeded, else the code of the first error.
pub open spec fn batch_code<T>(results: Seq<core::result::Result<T, Error>>) -> int
    decreases results.len(),
{
    if results.len() == 0 {
        0
    } else if results[0].is_err() {
        result_code(results[0])
    } else {
        batch_code(results.drop_first())
    }
}

impl Error {
    /// The number that stands for this error at a C boundary.
    pub fn as_int(&self) -> (code: i32)
        ensures
            code == error_code(*self),
            code < 0,
    {
        match self {
            Error::IO(_) => -1,
            Error::Configuration => -2,
            Error::Connector(_) => -3,
            Error::OutOfBounds => -4,
            Error::PageNotPresent => -5,
            Error::InvalidPageTable => -6,
            Error::Bounds => -7,
            Error::Other(_) => -9,
        }
    }
}

/// The number that stands for a result at a C boundary.
pub fn into_int_result<T>(r: &core::result::Result<T, Error>) -> (code: i32)
    ensures
        code == result_code(*r),
{
    match r {
        Ok(_) => 0,
        Err(e) => e.as_int(),
    }
}

/// The number that stands for a partial result at a C boundary.
pub fn partial_into_int_result<T>(r: &core::result::Result<T, PartialError>) -> (code: i32)
    ensures
        code == partial_result_code(*r),
{
    match r {
        Ok(_) => 0,
        Err(PartialError::Partial(_, _)) => -8,
        Err(PartialError::Error(e)) => e.as_int(),
    }
}

/// The number that stands for the results of a batch at a C boundary.
pub fn batch_into_int_result<T>(results: &Vec<core::result::Result<T, Error>>) -> (code: i32)
    ensures
        code == batch_code(results@),
{
    let mut i: usize = 0;
    assert(results@.subrange(0, results@.len() as int) =~= results@);
    while i < results.len()
        invariant
            i <= results@.len(),
            batch_code(results@) == batch_code(results@.subrange(i as int, results@.len() as int)),
        decreases results@.len() - i,
    {
        let ghost rest = results@.subrange(i as int, results@.len() as int);
        assert(rest[0] == results@[i as int]);
        assert(rest.drop_first() =~= results@.subrange(i + 1, results@.len() as int));
        match &results[i] {
            Ok(_) => {},
            Err(e) => {
                return e.as_int();
            },
        }
        i += 1;
    }
    0
}

pub type Result<T> = core::result::Result<T, Error>;

pub type PartialResult<T> = core::result::Result<T, PartialError>;

} // verus!
