//! The error taxonomy shared by every encode and decode operation.

use vstd::prelude::*;

verus! {

/// Everything that can go wrong while encoding or decoding.
///
/// Every operation short-circuits on the first error; bytes already written
/// and cursor positions already advanced are not rolled back.
#[derive(Debug)]
pub enum Error {
    /// The buffer is too small for a required read or write.
    EndOfStream,
    /// The decoded bits are not a valid instance of the target shape:
    /// a bad bool or option tag, an out-of-range variant ordinal, or
    /// invalid UTF-8.
    InvalidRepresentation,
    /// A declared sequence length did not match the elements actually
    /// consumed.
    MoreElements,
    /// An enum was described with more than 256 variants.
    TooManyVariants,
    /// A shape the fixed layout cannot express, such as a map.
    NotSupported,
    /// An error raised by the caller while driving the engine.
    ApplicationError(&'static str),
    /// A custom message raised by the caller.
    Custom(String),
}

impl Error {
    /// A short fixed text for each kind of error, or the caller's own
    /// message where the error carries one.
    pub fn description(&self) -> (r: &str)
        ensures
            match self {
                Error::EndOfStream => r@ == "end of stream reached but more data was needed"@,
                Error::InvalidRepresentation => r@ == "invalid representation for a value"@,
                Error::MoreElements => r@ == "there are more elements of the sequence remaining"@,
                Error::TooManyVariants => r@ == "too many variants, only up to 256 are supported"@,
                Error::NotSupported => r@ == "feature not supported"@,
                Error::ApplicationError(s) => r@ == s@,
                Error::Custom(s) => r@ == s@,
            },
    {
        match self {
            Error::EndOfStream => "end of stream reached but more data was needed",
            Error::InvalidRepresentation => "invalid representation for a value",
            Error::MoreElements => "there are more elements of the sequence remaining",
            Error::TooManyVariants => "too many variants, only up to 256 are supported",
            Error::NotSupported => "feature not supported",
            Error::ApplicationError(s) => s,
            Error::Custom(s) => s.as_str(),
        }
    }
}

} // verus!
