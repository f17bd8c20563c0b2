//! The exit taxonomy: each way the tool can fail, and the mapping between
//! those outcomes and process exit values.

use vstd::prelude::*;

verus! {

/// Enum representing each way the application can fail.
#[derive(Debug, Clone, Copy, Hash, PartialEq, Eq, Structural)]
pub enum Error {
    /// No errors occured, everything executed correctly.
    NoError,
    /// Parsing of command-line options failed.
    OptionParsingError,
    /// Selected and saved hash lengths differ.
    HashLengthDiffers,
    /// Parsing the hashes file failed.
    HashesFileParsingFailure,
    /// The specified amount of files do not match.
    NFilesDiffer(i32),
}

/// The exit value that belongs to an error: a fixed small code for each
/// fatal category, and for differing files the count offset past those.
pub open spec fn spec_exit_value(e: Error) -> int {
    match e {
        Error::NoError => 0,
        Error::OptionParsingError => 1,
        Error::HashLengthDiffers => 2,
        Error::HashesFileParsingFailure => 3,
        Error::NFilesDiffer(i) => i + 3,
    }
}

impl Error {
    /// Get the executable exit value from an `Error` instance.
    pub fn exit_value(&self) -> (r: i32)
        requires
            spec_exit_value(*self) <= i32::MAX,
        ensures
            r == spec_exit_value(*self),
    {
        match *self {
            Error::NoError => 0,
            Error::OptionParsingError => 1,
            Error::HashLengthDiffers => 2,
            Error::HashesFileParsingFailure => 3,
            Error::NFilesDiffer(i) => i + 3,
        }
    }
}

impl From<i32> for Error {
    /// The inverse of `exit_value`: small codes name the fixed categories,
    /// anything else counts differing files (wrapping on the extreme ends
    /// of the range, as the subtraction does).
    fn from(i: i32) -> (r: Self) {
        match i {
            0 => Error::NoError,
            1 => Error::OptionParsingError,
            2 => Error::HashLengthDiffers,
            3 => Error::HashesFileParsingFailure,
            _ => Error::NFilesDiffer(i.wrapping_sub(3)),
        }
    }
}

impl vstd::std_specs::convert::FromSpecImpl<i32> for Error {
    open spec fn obeys_from_spec() -> bool {
        true
    }

    open spec fn from_spec(i: i32) -> Error {
        match i {
            0 => Error::NoError,
            1 => Error::OptionParsingError,
            2 => Error::HashLengthDiffers,
            3 => Error::HashesFileParsingFailure,
            _ => Error::NFilesDiffer(vstd::wrapping::i32_specs::wrapping_sub(i, 3)),
        }
    }
}

} // verus!
