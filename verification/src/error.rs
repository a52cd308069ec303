//! The kinds of failure, one closed enum per stage and one over all stages.

use vstd::prelude::*;

verus! {

/// Failure of a read from a [`crate::cursor::ByteCursor`].
#[derive(Clone, Copy, Debug, PartialEq, Eq, Structural)]
pub enum CursorError {
    /// Fewer bytes remain than the read asked for.
    TruncatedInput,
    /// The bytes of a string are not UTF-8.
    InvalidText,
}

/// Failure of the check of signature and version.
#[derive(Clone, Copy, Debug, PartialEq, Eq, Structural)]
pub enum FormatError {
    TruncatedInput,
    BadMagic,
    UnsupportedVersion,
}

/// Failure to read the header block.
#[derive(Clone, Copy, Debug, PartialEq, Eq, Structural)]
pub enum HeaderError {
    TruncatedInput,
    MalformedHeaderLine,
    DuplicateFieldName,
}

/// Failure to decode a record.
#[derive(Clone, Copy, Debug, PartialEq, Eq, Structural)]
pub enum DecodeError {
    TruncatedInput,
    UnknownKeyIndex,
    TypeDecodeError,
}

/// Failure to extract a field from a decoded record.
#[derive(Clone, Copy, Debug, PartialEq, Eq, Structural)]
pub enum ExtractError {
    UnknownFieldName,
    TypeMismatch,
}

/// No value was observed, so there is no mean.
#[derive(Clone, Copy, Debug, PartialEq, Eq, Structural)]
pub struct EmptyAggregateError;

/// Every kind of failure of the pipeline.
#[derive(Clone, Copy, Debug, PartialEq, Eq, Structural)]
pub enum Error {
    BadMagic,
    UnsupportedVersion,
    MalformedHeaderLine,
    DuplicateFieldName,
    TruncatedInput,
    UnknownKeyIndex,
    TypeDecodeError,
    UnknownFieldName,
    TypeMismatch,
    EmptyAggregateError,
}

impl Error {
    /// The name of the kind.
    pub open spec fn name_text(self) -> Seq<char> {
        match self {
            Error::BadMagic => "BadMagic"@,
            Error::UnsupportedVersion => "UnsupportedVersion"@,
            Error::MalformedHeaderLine => "MalformedHeaderLine"@,
            Error::DuplicateFieldName => "DuplicateFieldName"@,
            Error::TruncatedInput => "TruncatedInput"@,
            Error::UnknownKeyIndex => "UnknownKeyIndex"@,
            Error::TypeDecodeError => "TypeDecodeError"@,
            Error::UnknownFieldName => "UnknownFieldName"@,
            Error::TypeMismatch => "TypeMismatch"@,
            Error::EmptyAggregateError => "EmptyAggregateError"@,
        }
    }

    /// The name of the kind, for a message.
    pub fn name(&self) -> (name: &'static str)
        ensures
            name@ == self.name_text(),
    {
        match self {
            Error::BadMagic => "BadMagic",
            Error::UnsupportedVersion => "UnsupportedVersion",
            Error::MalformedHeaderLine => "MalformedHeaderLine",
            Error::DuplicateFieldName => "DuplicateFieldName",
            Error::TruncatedInput => "TruncatedInput",
            Error::UnknownKeyIndex => "UnknownKeyIndex",
            Error::TypeDecodeError => "TypeDecodeError",
            Error::UnknownFieldName => "UnknownFieldName",
            Error::TypeMismatch => "TypeMismatch",
            Error::EmptyAggregateError => "EmptyAggregateError",
        }
    }
}

impl FormatError {
    /// The same kind, as a pipeline error.
    pub open spec fn lifted(self) -> Error {
        match self {
            FormatError::TruncatedInput => Error::TruncatedInput,
            FormatError::BadMagic => Error::BadMagic,
            FormatError::UnsupportedVersion => Error::UnsupportedVersion,
        }
    }

    pub fn lift(self) -> (e: Error)
        ensures
            e == self.lifted(),
    {
        match self {
            FormatError::TruncatedInput => Error::TruncatedInput,
            FormatError::BadMagic => Error::BadMagic,
            FormatError::UnsupportedVersion => Error::UnsupportedVersion,
        }
    }
}

impl HeaderError {
    /// The same kind, as a pipeline error.
    pub open spec fn lifted(self) -> Error {
        match self {
            HeaderError::TruncatedInput => Error::TruncatedInput,
            HeaderError::MalformedHeaderLine => Error::MalformedHeaderLine,
            HeaderError::DuplicateFieldName => Error::DuplicateFieldName,
        }
    }

    pub fn lift(self) -> (e: Error)
        ensures
            e == self.lifted(),
    {
        match self {
            HeaderError::TruncatedInput => Error::TruncatedInput,
            HeaderError::MalformedHeaderLine => Error::MalformedHeaderLine,
            HeaderError::DuplicateFieldName => Error::DuplicateFieldName,
        }
    }
}

impl DecodeError {
    /// The same kind, as a pipeline error.
    pub open spec fn lifted(self) -> Error {
        match self {
            DecodeError::TruncatedInput => Error::TruncatedInput,
            DecodeError::UnknownKeyIndex => Error::UnknownKeyIndex,
            DecodeError::TypeDecodeError => Error::TypeDecodeError,
        }
    }

    pub fn lift(self) -> (e: Error)
        ensures
            e == self.lifted(),
    {
        match self {
            DecodeError::TruncatedInput => Error::TruncatedInput,
            DecodeError::UnknownKeyIndex => Error::UnknownKeyIndex,
            DecodeError::TypeDecodeError => Error::TypeDecodeError,
        }
    }
}

impl ExtractError {
    /// The same kind, as a pipeline error.
    pub open spec fn lifted(self) -> Error {
        match self {
            ExtractError::UnknownFieldName => Error::UnknownFieldName,
            ExtractError::TypeMismatch => Error::TypeMismatch,
        }
    }

    pub fn lift(self) -> (e: Error)
        ensures
            e == self.lifted(),
    {
        match self {
            ExtractError::UnknownFieldName => Error::UnknownFieldName,
            ExtractError::TypeMismatch => Error::TypeMismatch,
        }
    }
}

} // verus!
