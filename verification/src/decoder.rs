//! The record decoder: one record per call, from a cursor that it moves.

use vstd::prelude::*;
use crate::cursor::{text_from_utf8, ByteCursor};
use crate::dictionary::{Cardinality, Dictionary, DictionaryModel, StringMap, ValueType};
use crate::encoding::{lemma_decoded_record_fits, record_fits};
use crate::error::{CursorError, DecodeError};
use crate::layout::{
    ascii_run,
    entries_at,
    entry_at,
    genotype_count,
    lemma_entries_failure,
    lemma_texts_failure,
    next_record_at,
    record_at,
    text_failure,
    texts_at,
    value_at,
};
use crate::record::{InfoField, Record, TypedValue};
use crate::wire::{le_i32, le_u32};

verus! {

/// What the failure to read a string means for a record.
pub fn text_error(e: CursorError) -> (d: DecodeError)
    ensures
        d == text_failure(e),
{
    match e {
        CursorError::TruncatedInput => DecodeError::TruncatedInput,
        CursorError::InvalidText => DecodeError::TypeDecodeError,
    }
}

/// The number of unordered pairs of `n_alleles` alleles.
pub fn genotypes(n_alleles: u16) -> (g: u64)
    ensures
        g == genotype_count(n_alleles as int),
        g <= 0xFFFF_FFFF,
{
    let n = n_alleles as u64;
    assert(n * (n + 1) <= 65535 * 65536) by (nonlinear_arith)
        requires
            0 <= n <= 65535,
    ;
    n * (n + 1) / 2
}

/// Reads `n` length-prefixed strings.
fn read_texts(stream: &mut ByteCursor<'_>, n: u16) -> (r: Result<Vec<String>, DecodeError>)
    ensures
        final(stream).bytes() == old(stream).bytes(),
        old(stream).offset() <= final(stream).offset() <= final(stream).bytes().len(),
        match texts_at(old(stream).bytes(), old(stream).offset(), n as nat) {
            Ok((texts, next)) => r is Ok && r->Ok_0@.map_values(|t: String| t@) == texts && final(stream).offset() == next,
            Err(e) => r is Err && r->Err_0 == e,
        },
{
    let ghost s = stream.bytes();
    let start = stream.position();
    let mut texts: Vec<String> = Vec::new();
    let mut i: u16 = 0;
    assert(texts@.map_values(|t: String| t@) =~= Seq::<Seq<char>>::empty());
    while i < n
        invariant
            i <= n,
            s == old(stream).bytes(),
            start == old(stream).offset(),
            stream.bytes() == s,
            start <= stream.offset() <= s.len(),
            texts_at(s, start as int, i as nat) == Ok::<(Seq<Seq<char>>, int), DecodeError>(
                (texts@.map_values(|t: String| t@), stream.offset()),
            ),
        decreases n - i,
    {
        match stream.read_length_prefixed_string() {
            Err(e) => {
                proof {
                    lemma_texts_failure(s, start as int, (i + 1) as nat, n as nat);
                }
                return Err(text_error(e));
            },
            Ok(text) => {
                proof {
                    assert(texts@.push(text).map_values(|t: String| t@) =~= texts@.map_values(
                        |t: String| t@,
                    ).push(text@));
                }
                texts.push(text);
                i = i + 1;
            },
        }
    }
    Ok(texts)
}

/// Reads `count` elements of type `t`.
fn read_value(stream: &mut ByteCursor<'_>, t: ValueType, count: u64) -> (r: Result<
    TypedValue,
    DecodeError,
>)
    requires
        count <= 0xFFFF_FFFF,
    ensures
        final(stream).bytes() == old(stream).bytes(),
        old(stream).offset() <= final(stream).offset() <= final(stream).bytes().len(),
        match value_at(old(stream).bytes(), old(stream).offset(), t, count as int) {
            Ok((value, next)) => r is Ok && r->Ok_0@ == value && final(stream).offset() == next,
            Err(e) => r is Err && r->Err_0 == e,
        },
{
    let ghost s = stream.bytes();
    let ghost at = stream.offset();
    let left = stream.remaining() as u64;
    match t {
        ValueType::Integer => {
            if 4 * count > left {
                return Err(DecodeError::TruncatedInput);
            }
            let mut values: Vec<i32> = Vec::new();
            let mut k: u64 = 0;
            while k < count
                invariant
                    k <= count,
                    s == old(stream).bytes(),
                    at == old(stream).offset(),
                    0 <= at,
                    stream.bytes() == s,
                    stream.offset() == at + 4 * k,
                    at + 4 * count <= s.len(),
                    values@ =~= Seq::new(k as nat, |j: int| le_i32(s, at + 4 * j) as i32),
                decreases count - k,
            {
                match stream.read_i32() {
                    Err(_) => {
                        proof {
                            assert(false);
                        }
                        return Err(DecodeError::TruncatedInput);
                    },
                    Ok(v) => {
                        values.push(v);
                    },
                }
                k = k + 1;
            }
            Ok(TypedValue::Integer(values))
        },
        ValueType::Float => {
            if 4 * count > left {
                return Err(DecodeError::TruncatedInput);
            }
            let mut values: Vec<u32> = Vec::new();
            let mut k: u64 = 0;
            while k < count
                invariant
                    k <= count,
                    s == old(stream).bytes(),
                    at == old(stream).offset(),
                    0 <= at,
                    stream.bytes() == s,
                    stream.offset() == at + 4 * k,
                    at + 4 * count <= s.len(),
                    values@ =~= Seq::new(k as nat, |j: int| le_u32(s, at + 4 * j) as u32),
                decreases count - k,
            {
                match stream.read_f32_bits() {
                    Err(_) => {
                        proof {
                            assert(false);
                        }
                        return Err(DecodeError::TruncatedInput);
                    },
                    Ok(v) => {
                        values.push(v);
                    },
                }
                k = k + 1;
            }
            Ok(TypedValue::Float(values))
        },
        ValueType::Character => {
            if count > left {
                return Err(DecodeError::TruncatedInput);
            }
            let raw = match stream.read_bytes(count as usize) {
                Err(_) => {
                    proof {
                        assert(false);
                    }
                    return Err(DecodeError::TruncatedInput);
                },
                Ok(raw) => raw,
            };
            let mut values: Vec<char> = Vec::new();
            let mut k: usize = 0;
            while k < raw.len()
                invariant
                    k <= raw@.len(),
                    t == ValueType::Character,
                    s == old(stream).bytes(),
                    at == old(stream).offset(),
                    stream.bytes() == s,
                    stream.offset() == at + count,
                    raw@.len() == count,
                    raw@ == s.subrange(at, at + count),
                    at + count <= s.len(),
                    0 <= at,
                    ascii_run(s, at, k as int),
                    values@ =~= Seq::new(k as nat, |j: int| s[at + j] as char),
                decreases raw@.len() - k,
            {
                let b = raw[k];
                assert(b == s[at + k]);
                if b >= 128 {
                    proof {
                        let j = k as int;
                        assert(s[at + j] >= 128);
                        assert(!ascii_run(s, at, count as int));
                    }
                    return Err(DecodeError::TypeDecodeError);
                }
                values.push(b as char);
                k = k + 1;
            }
            Ok(TypedValue::Character(values))
        },
        ValueType::String => {
            if count > left {
                return Err(DecodeError::TruncatedInput);
            }
            let raw = match stream.read_bytes(count as usize) {
                Err(_) => {
                    proof {
                        assert(false);
                    }
                    return Err(DecodeError::TruncatedInput);
                },
                Ok(raw) => raw,
            };
            match text_from_utf8(raw) {
                None => Err(DecodeError::TypeDecodeError),
                Some(text) => Ok(TypedValue::String(text)),
            }
        },
        ValueType::Flag => Ok(TypedValue::Flag(true)),
    }
}

/// Reads one info entry.
fn read_entry(stream: &mut ByteCursor<'_>, fields: &StringMap, n_alleles: u16) -> (r: Result<
    InfoField,
    DecodeError,
>)
    ensures
        final(stream).bytes() == old(stream).bytes(),
        old(stream).offset() <= final(stream).offset() <= final(stream).bytes().len(),
        match entry_at(old(stream).bytes(), old(stream).offset(), fields@, n_alleles as int) {
            Ok((entry, next)) => r is Ok && r->Ok_0@ == entry && final(stream).offset() == next,
            Err(e) => r is Err && r->Err_0 == e,
        },
{
    let key_index = match stream.read_u16() {
        Err(_) => {
            return Err(DecodeError::TruncatedInput);
        },
        Ok(key_index) => key_index,
    };
    let field = match fields.resolve(key_index as usize) {
        None => {
            return Err(DecodeError::UnknownKeyIndex);
        },
        Some(field) => field,
    };
    let count: u64 = match field.cardinality {
        Cardinality::Fixed(n) => n as u64,
        Cardinality::PerGenotype => genotypes(n_alleles),
        Cardinality::PerAltAllele | Cardinality::Variable => match stream.read_u16() {
            Err(_) => {
                return Err(DecodeError::TruncatedInput);
            },
            Ok(count) => count as u64,
        },
    };
    match read_value(stream, field.value_type, count) {
        Err(e) => Err(e),
        Ok(value) => Ok(InfoField { key_index, value }),
    }
}

/// Reads `n` info entries.
fn read_entries(stream: &mut ByteCursor<'_>, fields: &StringMap, n: u16, n_alleles: u16) -> (r:
    Result<Vec<InfoField>, DecodeError>)
    ensures
        final(stream).bytes() == old(stream).bytes(),
        old(stream).offset() <= final(stream).offset() <= final(stream).bytes().len(),
        match entries_at(
            old(stream).bytes(),
            old(stream).offset(),
            n as nat,
            fields@,
            n_alleles as int,
        ) {
            Ok((entries, next)) => r is Ok && r->Ok_0@.map_values(|f: InfoField| f@) == entries
                && final(stream).offset() == next,
            Err(e) => r is Err && r->Err_0 == e,
        },
{
    let ghost s = stream.bytes();
    let start = stream.position();
    let mut entries: Vec<InfoField> = Vec::new();
    let mut i: u16 = 0;
    assert(entries@.map_values(|f: InfoField| f@) =~= Seq::<crate::record::InfoModel>::empty());
    while i < n
        invariant
            i <= n,
            s == old(stream).bytes(),
            start == old(stream).offset(),
            stream.bytes() == s,
            start <= stream.offset() <= s.len(),
            entries_at(s, start as int, i as nat, fields@, n_alleles as int) == Ok::<
                (Seq<crate::record::InfoModel>, int),
                DecodeError,
            >((entries@.map_values(|f: InfoField| f@), stream.offset())),
        decreases n - i,
    {
        match read_entry(stream, fields, n_alleles) {
            Err(e) => {
                proof {
                    lemma_entries_failure(
                        s,
                        start as int,
                        (i + 1) as nat,
                        n as nat,
                        fields@,
                        n_alleles as int,
                    );
                }
                return Err(e);
            },
            Ok(entry) => {
                proof {
                    assert(entries@.push(entry).map_values(|f: InfoField| f@)
                        =~= entries@.map_values(|f: InfoField| f@).push(entry@));
                }
                entries.push(entry);
                i = i + 1;
            },
        }
    }
    Ok(entries)
}

/// Reads one record.  On failure the cursor stands somewhere in the record.
fn read_record(stream: &mut ByteCursor<'_>, dictionary: &Dictionary) -> (r: Result<
    Record,
    DecodeError,
>)
    ensures
        final(stream).bytes() == old(stream).bytes(),
        old(stream).offset() <= final(stream).offset() <= final(stream).bytes().len(),
        match record_at(old(stream).bytes(), old(stream).offset(), dictionary@) {
            Ok((record, next)) => r is Ok && r->Ok_0@ == record && final(stream).offset() == next,
            Err(e) => r is Err && r->Err_0 == e,
        },
{
    proof {
        reveal(record_at);
    }
    let contig_index = match stream.read_u32() {
        Err(_) => {
            return Err(DecodeError::TruncatedInput);
        },
        Ok(v) => v,
    };
    let position = match stream.read_u32() {
        Err(_) => {
            return Err(DecodeError::TruncatedInput);
        },
        Ok(v) => v,
    };
    let n_alleles = match stream.read_u16() {
        Err(_) => {
            return Err(DecodeError::TruncatedInput);
        },
        Ok(v) => v,
    };
    let n_info = match stream.read_u16() {
        Err(_) => {
            return Err(DecodeError::TruncatedInput);
        },
        Ok(v) => v,
    };
    if contig_index as usize >= dictionary.contig_count() {
        return Err(DecodeError::UnknownKeyIndex);
    }
    if n_alleles == 0 {
        return Err(DecodeError::TypeDecodeError);
    }
    let ref_allele = match stream.read_length_prefixed_string() {
        Err(e) => {
            return Err(text_error(e));
        },
        Ok(text) => text,
    };
    let alt_alleles = match read_texts(stream, n_alleles - 1) {
        Err(e) => {
            return Err(e);
        },
        Ok(texts) => texts,
    };
    let info_fields = match read_entries(stream, dictionary.info(), n_info, n_alleles) {
        Err(e) => {
            return Err(e);
        },
        Ok(entries) => entries,
    };
    Ok(Record { contig_index, position, ref_allele, alt_alleles, info_fields })
}

/// Decodes the next record of `stream`, if there is one.
///
/// Where every byte has been read there is no next record.  Otherwise the
/// bytes from the cursor on must hold a whole record: the cursor moves
/// behind it.  On failure the cursor stays where it was, and no part of a
/// record is returned.
pub fn next_record(stream: &mut ByteCursor<'_>, dictionary: &Dictionary) -> (r: Result<
    Option<Record>,
    DecodeError,
>)
    ensures
        final(stream).bytes() == old(stream).bytes(),
        old(stream).offset() <= final(stream).offset() <= final(stream).bytes().len(),
        match next_record_at(old(stream).bytes(), old(stream).offset(), dictionary@) {
            Ok(None) => r is Ok && r->Ok_0 is None && final(stream).offset() == old(stream).offset(),
            Ok(Some((record, next))) => r is Ok && r->Ok_0 is Some && r->Ok_0->0@ == record
                && final(stream).offset() == next,
            Err(e) => r is Err && r->Err_0 == e && final(stream).offset() == old(stream).offset(),
        },
        r is Ok && r->Ok_0 is Some ==> record_fits(r->Ok_0->0@, dictionary@),
{
    if stream.is_at_end() {
        return Ok(None);
    }
    let start = stream.position();
    proof {
        if record_at(stream.bytes(), stream.offset(), dictionary@) is Ok {
            lemma_decoded_record_fits(stream.bytes(), stream.offset(), dictionary@);
        }
    }
    match read_record(stream, dictionary) {
        Ok(record) => Ok(Some(record)),
        Err(e) => {
            stream.rewind(start);
            Err(e)
        },
    }
}

/// The records of a container, one at a time and each once: a cursor
/// behind the header, with the dictionary that the header declared.
pub struct RecordDecoder<'a> {
    stream: ByteCursor<'a>,
    dictionary: &'a Dictionary,
}

impl<'a> RecordDecoder<'a> {
    /// All the bytes of the container.
    pub closed spec fn bytes(self) -> Seq<u8> {
        self.stream.bytes()
    }

    /// The position of the next record.
    pub closed spec fn offset(self) -> int {
        self.stream.offset()
    }

    /// The dictionary by which the records are read.
    pub closed spec fn dictionary(self) -> DictionaryModel {
        self.dictionary@
    }

    /// A decoder of the records that start where `stream` stands.
    pub fn new(stream: ByteCursor<'a>, dictionary: &'a Dictionary) -> (decoder: Self)
        ensures
            decoder.bytes() == stream.bytes(),
            decoder.offset() == stream.offset(),
            decoder.dictionary() == dictionary@,
    {
        RecordDecoder { stream, dictionary }
    }

    /// The number of bytes read so far, header included.
    pub fn position(&self) -> (p: usize)
        ensures
            p == self.offset(),
            0 <= self.offset() <= self.bytes().len(),
    {
        self.stream.position()
    }

    /// Decodes the next record, if there is one, and moves behind it.  A
    /// failure leaves the decoder where it was, so that it fails again.
    pub fn next_record(&mut self) -> (r: Result<Option<Record>, DecodeError>)
        ensures
            final(self).bytes() == old(self).bytes(),
            final(self).dictionary() == old(self).dictionary(),
            old(self).offset() <= final(self).offset() <= final(self).bytes().len(),
            match next_record_at(old(self).bytes(), old(self).offset(), old(self).dictionary()) {
                Ok(None) => r is Ok && r->Ok_0 is None && final(self).offset() == old(self).offset(),
                Ok(Some((record, next))) => r is Ok && r->Ok_0 is Some && r->Ok_0->0@ == record
                    && final(self).offset() == next,
                Err(e) => r is Err && r->Err_0 == e && final(self).offset() == old(self).offset(),
            },
            r is Ok && r->Ok_0 is Some ==> record_fits(r->Ok_0->0@, old(self).dictionary()),
    {
        next_record(&mut self.stream, self.dictionary)
    }
}

} // verus!
