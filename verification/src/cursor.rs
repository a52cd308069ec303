//! A sequential reader over a byte slice.

use vstd::prelude::*;
use vstd::slice::slice_subrange;
use vstd::utf8::{decode_utf8, valid_utf8};
use crate::error::CursorError;
use crate::wire::{le_i32, le_u16, le_u32, signed32};

verus! {

/// Converts bytes to text with `String::from_utf8`, on a copy of the bytes.
///
/// Believed of it: the conversion succeeds exactly on well-formed UTF-8, and
/// the text it gives is the decoding of the bytes.
#[verifier::external_body]
pub(crate) fn text_from_utf8(bytes: &[u8]) -> (text: Option<String>)
    ensures
        text is Some <==> valid_utf8(bytes@),
        text is Some ==> text->0@ == decode_utf8(bytes@),
{
    match String::from_utf8(bytes.to_vec()) {
        Ok(s) => Some(s),
        Err(_) => None,
    }
}

/// The signed number that a 32-bit pattern stands for.
pub fn signed_of(u: u32) -> (v: i32)
    ensures
        v == signed32(u as int),
{
    if u < 0x8000_0000 {
        u as i32
    } else {
        ((u - 0x8000_0000) as i32) + i32::MIN
    }
}

/// What a length-prefixed string at `at` in `s` reads as: the text and the
/// position behind it, or why it cannot be read.
pub open spec fn text_at(s: Seq<u8>, at: int) -> Result<(Seq<char>, int), CursorError> {
    if at + 4 > s.len() {
        Err(CursorError::TruncatedInput)
    } else {
        let end = at + 4 + le_u32(s, at);
        if end > s.len() {
            Err(CursorError::TruncatedInput)
        } else if !valid_utf8(s.subrange(at + 4, end)) {
            Err(CursorError::InvalidText)
        } else {
            Ok((decode_utf8(s.subrange(at + 4, end)), end))
        }
    }
}

/// A position in a byte slice that only moves forward.
pub struct ByteCursor<'a> {
    data: &'a [u8],
    pos: usize,
}

impl<'a> ByteCursor<'a> {
    #[verifier::type_invariant]
    spec fn in_bounds(self) -> bool {
        self.pos <= self.data@.len()
    }

    /// All the bytes of the slice, read or not.
    pub closed spec fn bytes(self) -> Seq<u8> {
        self.data@
    }

    /// How many bytes have been read.
    pub closed spec fn offset(self) -> int {
        self.pos as int
    }

    /// A cursor at the start of `data`.
    pub fn new(data: &'a [u8]) -> (cursor: Self)
        ensures
            cursor.bytes() == data@,
            cursor.offset() == 0,
    {
        ByteCursor { data, pos: 0 }
    }

    /// The number of bytes read so far.
    pub fn position(&self) -> (p: usize)
        ensures
            p == self.offset(),
            0 <= self.offset() <= self.bytes().len(),
    {
        proof {
            use_type_invariant(self);
        }
        self.pos
    }

    /// The number of bytes not read yet.
    pub fn remaining(&self) -> (n: usize)
        ensures
            n == self.bytes().len() - self.offset(),
            0 <= self.offset() <= self.bytes().len(),
    {
        proof {
            use_type_invariant(self);
        }
        self.data.len() - self.pos
    }

    /// Whether `n` more bytes can be read.
    pub open spec fn has(self, n: int) -> bool {
        self.offset() + n <= self.bytes().len()
    }

    /// Whether every byte has been read.
    pub fn is_at_end(&self) -> (b: bool)
        ensures
            b == (self.offset() == self.bytes().len()),
            0 <= self.offset() <= self.bytes().len(),
    {
        proof {
            use_type_invariant(self);
        }
        self.pos == self.data.len()
    }

    /// Moves the cursor back to an earlier position.
    pub(crate) fn rewind(&mut self, to: usize)
        requires
            to <= old(self).offset(),
        ensures
            final(self).bytes() == old(self).bytes(),
            final(self).offset() == to,
    {
        proof {
            use_type_invariant(&*self);
        }
        self.pos = to;
    }

    /// Reads one byte.
    pub fn read_u8(&mut self) -> (r: Result<u8, CursorError>)
        ensures
            final(self).bytes() == old(self).bytes(),
            0 <= final(self).offset() <= final(self).bytes().len(),
            old(self).has(1) ==> r == Ok::<u8, CursorError>(old(self).bytes()[old(self).offset()])
                && final(self).offset() == old(self).offset() + 1,
            !old(self).has(1) ==> r == Err::<u8, CursorError>(CursorError::TruncatedInput)
                && final(self).offset() == old(self).offset(),
    {
        proof {
            use_type_invariant(&*self);
        }
        if self.data.len() - self.pos < 1 {
            return Err(CursorError::TruncatedInput);
        }
        let b = self.data[self.pos];
        self.pos = self.pos + 1;
        Ok(b)
    }

    /// Reads an unsigned 16-bit number, least significant byte first.
    pub fn read_u16(&mut self) -> (r: Result<u16, CursorError>)
        ensures
            final(self).bytes() == old(self).bytes(),
            0 <= final(self).offset() <= final(self).bytes().len(),
            old(self).has(2) ==> r == Ok::<u16, CursorError>(
                le_u16(old(self).bytes(), old(self).offset()) as u16,
            ) && final(self).offset() == old(self).offset() + 2,
            !old(self).has(2) ==> r == Err::<u16, CursorError>(CursorError::TruncatedInput)
                && final(self).offset() == old(self).offset(),
    {
        proof {
            use_type_invariant(&*self);
        }
        if self.data.len() - self.pos < 2 {
            return Err(CursorError::TruncatedInput);
        }
        let b0 = self.data[self.pos] as u16;
        let b1 = self.data[self.pos + 1] as u16;
        self.pos = self.pos + 2;
        Ok(b0 + 256 * b1)
    }

    /// Reads an unsigned 32-bit number, least significant byte first.
    pub fn read_u32(&mut self) -> (r: Result<u32, CursorError>)
        ensures
            final(self).bytes() == old(self).bytes(),
            0 <= final(self).offset() <= final(self).bytes().len(),
            old(self).has(4) ==> r == Ok::<u32, CursorError>(
                le_u32(old(self).bytes(), old(self).offset()) as u32,
            ) && final(self).offset() == old(self).offset() + 4,
            !old(self).has(4) ==> r == Err::<u32, CursorError>(CursorError::TruncatedInput)
                && final(self).offset() == old(self).offset(),
    {
        proof {
            use_type_invariant(&*self);
        }
        if self.data.len() - self.pos < 4 {
            return Err(CursorError::TruncatedInput);
        }
        let b0 = self.data[self.pos] as u32;
        let b1 = self.data[self.pos + 1] as u32;
        let b2 = self.data[self.pos + 2] as u32;
        let b3 = self.data[self.pos + 3] as u32;
        self.pos = self.pos + 4;
        Ok(b0 + 256 * b1 + 65536 * b2 + 16777216 * b3)
    }

    /// Reads a signed 32-bit number in two's complement, least significant
    /// byte first.
    pub fn read_i32(&mut self) -> (r: Result<i32, CursorError>)
        ensures
            final(self).bytes() == old(self).bytes(),
            0 <= final(self).offset() <= final(self).bytes().len(),
            old(self).has(4) ==> r == Ok::<i32, CursorError>(
                le_i32(old(self).bytes(), old(self).offset()) as i32,
            ) && final(self).offset() == old(self).offset() + 4,
            !old(self).has(4) ==> r == Err::<i32, CursorError>(CursorError::TruncatedInput)
                && final(self).offset() == old(self).offset(),
    {
        match self.read_u32() {
            Err(e) => Err(e),
            Ok(u) => Ok(signed_of(u)),
        }
    }

    /// Reads the 32 bits of a single-precision number, least significant byte
    /// first, and returns them as a bit pattern.
    pub fn read_f32_bits(&mut self) -> (r: Result<u32, CursorError>)
        ensures
            final(self).bytes() == old(self).bytes(),
            0 <= final(self).offset() <= final(self).bytes().len(),
            old(self).has(4) ==> r == Ok::<u32, CursorError>(
                le_u32(old(self).bytes(), old(self).offset()) as u32,
            ) && final(self).offset() == old(self).offset() + 4,
            !old(self).has(4) ==> r == Err::<u32, CursorError>(CursorError::TruncatedInput)
                && final(self).offset() == old(self).offset(),
    {
        self.read_u32()
    }

    /// Reads the next `n` bytes.
    pub fn read_bytes(&mut self, n: usize) -> (r: Result<&'a [u8], CursorError>)
        ensures
            final(self).bytes() == old(self).bytes(),
            0 <= final(self).offset() <= final(self).bytes().len(),
            old(self).has(n as int) ==> r is Ok && r->Ok_0@ == old(self).bytes().subrange(
                old(self).offset(),
                old(self).offset() + n,
            ) && final(self).offset() == old(self).offset() + n,
            !old(self).has(n as int) ==> r == Err::<&[u8], CursorError>(
                CursorError::TruncatedInput,
            ) && final(self).offset() == old(self).offset(),
    {
        proof {
            use_type_invariant(&*self);
        }
        if self.data.len() - self.pos < n {
            return Err(CursorError::TruncatedInput);
        }
        let part = slice_subrange(self.data, self.pos, self.pos + n);
        self.pos = self.pos + n;
        Ok(part)
    }

    /// Reads a 32-bit length and then that many bytes as UTF-8 text.  On
    /// failure nothing is consumed.
    pub fn read_length_prefixed_string(&mut self) -> (r: Result<String, CursorError>)
        ensures
            final(self).bytes() == old(self).bytes(),
            0 <= final(self).offset() <= final(self).bytes().len(),
            match text_at(old(self).bytes(), old(self).offset()) {
                Ok((text, next)) => r is Ok && r->Ok_0@ == text && final(self).offset() == next,
                Err(e) => r == Err::<String, CursorError>(e) && final(self).offset() == old(self).offset(),
            },
    {
        let start = self.position();
        let len = match self.read_u32() {
            Err(e) => {
                return Err(e);
            },
            Ok(len) => len,
        };
        let raw = match self.read_bytes(len as usize) {
            Err(e) => {
                self.rewind(start);
                return Err(e);
            },
            Ok(raw) => raw,
        };
        match text_from_utf8(raw) {
            None => {
                self.rewind(start);
                Err(CursorError::InvalidText)
            },
            Some(text) => Ok(text),
        }
    }
}

} // verus!
