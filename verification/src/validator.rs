//! The check of the signature and the version at the start of a container.

use vstd::prelude::*;
use vstd::string::*;
use crate::cursor::ByteCursor;
use crate::error::FormatError;
use crate::text::{ascii, match_tag};
use crate::wire::holds_at;

verus! {

/// The highest major version that is read.
pub const MAX_MAJOR_VERSION: u8 = 2;

/// The signature: the three letters `BCF`.
pub open spec fn magic() -> Seq<u8> {
    ascii("BCF"@)
}

/// The position behind signature and version where they start at `at` and
/// are accepted: the signature, then the major and the minor version, one
/// byte each.  The minor version is not looked at.
pub open spec fn format_at(s: Seq<u8>, at: int) -> Result<int, FormatError> {
    if at + magic().len() > s.len() {
        Err(FormatError::TruncatedInput)
    } else if !holds_at(s, at, magic()) {
        Err(FormatError::BadMagic)
    } else if at + magic().len() + 2 > s.len() {
        Err(FormatError::TruncatedInput)
    } else if s[at + magic().len()] > MAX_MAJOR_VERSION {
        Err(FormatError::UnsupportedVersion)
    } else {
        Ok(at + magic().len() + 2)
    }
}

/// Reads the signature and the version and checks them.  On failure the
/// cursor stays where it was.
pub fn validate(stream: &mut ByteCursor<'_>) -> (r: Result<(), FormatError>)
    ensures
        final(stream).bytes() == old(stream).bytes(),
        old(stream).offset() <= final(stream).offset() <= final(stream).bytes().len(),
        match format_at(old(stream).bytes(), old(stream).offset()) {
            Ok(next) => r is Ok && final(stream).offset() == next,
            Err(e) => r == Err::<(), FormatError>(e) && final(stream).offset() == old(stream).offset(),
        },
{
    proof {
        reveal_strlit("BCF");
    }
    let start = stream.position();
    let marker = match stream.read_bytes(3) {
        Err(_) => {
            return Err(FormatError::TruncatedInput);
        },
        Ok(marker) => marker,
    };
    assert(marker@.subrange(0, 3) =~= marker@);
    assert(magic().len() == 3);
    if match_tag(marker, 0, "BCF").is_none() {
        stream.rewind(start);
        return Err(FormatError::BadMagic);
    }
    let major = match stream.read_u8() {
        Err(_) => {
            stream.rewind(start);
            return Err(FormatError::TruncatedInput);
        },
        Ok(major) => major,
    };
    let _minor = match stream.read_u8() {
        Err(_) => {
            stream.rewind(start);
            return Err(FormatError::TruncatedInput);
        },
        Ok(minor) => minor,
    };
    if major > MAX_MAJOR_VERSION {
        stream.rewind(start);
        return Err(FormatError::UnsupportedVersion);
    }
    Ok(())
}

} // verus!
