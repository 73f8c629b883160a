//! Error type shared by every parser of the crate.

use vstd::prelude::*;

verus! {

/// `std::io::Error` is carried unchanged by [`Error::Io`].
#[verifier::external_type_specification]
#[verifier::external_body]
pub struct ExIoError(std::io::Error);

/// Errors produced by `gho` parsing and extraction.
#[derive(Debug)]
pub enum Error {
    /// An I/O error from the caller's reading or writing.
    Io(std::io::Error),
    /// The bytes do not follow the expected layout.
    Format { offset: u64, message: String },
    /// The image carries the encryption flag.
    Encrypted,
    /// The header names a compression type that is not supported.
    UnsupportedCompression(u8),
    /// Fewer bytes were available than a structure needs.
    Truncated { offset: u64, expected: usize, actual: usize },
    /// A FastLZ block could not be decoded.
    FastLz { offset: u64, message: String },
}

/// Result alias for `gho` operations.
pub type Result<T> = core::result::Result<T, Error>;

/// The variant of an [`Error`], used by contracts to say which error a
/// function returns.
#[derive(Debug, Clone, Copy, PartialEq, Eq, Structural)]
pub enum ErrorClass {
    Io,
    Format,
    Encrypted,
    UnsupportedCompression,
    Truncated,
    FastLz,
}

/// The variant of `e`.
pub open spec fn error_class(e: Error) -> ErrorClass {
    match e {
        Error::Io(_) => ErrorClass::Io,
        Error::Format { .. } => ErrorClass::Format,
        Error::Encrypted => ErrorClass::Encrypted,
        Error::UnsupportedCompression(_) => ErrorClass::UnsupportedCompression,
        Error::Truncated { .. } => ErrorClass::Truncated,
        Error::FastLz { .. } => ErrorClass::FastLz,
    }
}

/// True when `r` is an error of class `c`.
pub open spec fn fails_with<T>(r: Result<T>, c: ErrorClass) -> bool {
    r matches Err(e) && error_class(e) == c
}

/// Why an operation fails: the error's class, its offset and, for a
/// truncation, the bytes needed there and the bytes that were there.
pub type Fault = (ErrorClass, int, int, int);

/// `e` is the error that `f` describes: a truncation with exactly its
/// offset and byte counts, a format or FastLZ error at its offset, or an
/// error of its class.
pub open spec fn is_fault(e: Error, f: Fault) -> bool {
    match f.0 {
        ErrorClass::Truncated => e == (Error::Truncated { offset: f.1 as u64, expected: f.2 as usize, actual: f.3 as usize }),
        ErrorClass::Format => e matches Error::Format { offset: o, .. } && o == f.1,
        ErrorClass::FastLz => e matches Error::FastLz { offset: o, .. } && o == f.1,
        c => error_class(e) == c,
    }
}

impl Error {
    /// A format error at `offset` with the given message.
    pub fn format(offset: u64, message: &str) -> (e: Self)
        ensures
            e matches Error::Format { offset: o, message: m } && o == offset && m@ == message@,
    {
        Error::Format { offset, message: message.to_owned() }
    }

    /// A truncation error: `expected` bytes were needed at `offset`, only
    /// `actual` were there.
    pub fn truncated(offset: u64, expected: usize, actual: usize) -> (e: Self)
        ensures
            e == (Error::Truncated { offset, expected, actual }),
    {
        Error::Truncated { offset, expected, actual }
    }

    /// A FastLZ decoding error at `offset` with the given message.
    pub fn fastlz(offset: u64, message: &str) -> (e: Self)
        ensures
            e matches Error::FastLz { offset: o, message: m } && o == offset && m@ == message@,
    {
        Error::FastLz { offset, message: message.to_owned() }
    }
}

} // verus!
