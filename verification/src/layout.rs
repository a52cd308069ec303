//! The layout of a record, as a function from bytes to what they decode to.
//!
//! A record is a fixed part of twelve bytes (contig index and position, 32
//! bits each; number of alleles and number of info entries, 16 bits each),
//! then the alleles as length-prefixed strings, the reference allele first,
//! then the info entries.  An info entry is the 16-bit position of the
//! field's declaration, then a 16-bit element count where the field's
//! cardinality is variable or per alternate allele, then the elements.  All
//! numbers stand least significant byte first.

use vstd::prelude::*;
use vstd::utf8::{decode_utf8, valid_utf8};
use crate::cursor::text_at;
use crate::dictionary::{Cardinality, DictionaryModel, FieldModel, ValueType};
use crate::error::{CursorError, DecodeError};
use crate::record::{InfoModel, RecordModel, ValueModel};
use crate::wire::{le_i32, le_u16, le_u32};

verus! {

/// The number of bytes of the fixed part of a record.
pub const RECORD_FIXED_LEN: usize = 12;

/// The number of bytes that `count` elements of type `t` take.
pub open spec fn payload_len(t: ValueType, count: int) -> int {
    match t {
        ValueType::Integer => 4 * count,
        ValueType::Float => 4 * count,
        ValueType::Character => count,
        ValueType::String => count,
        ValueType::Flag => 0,
    }
}

/// The number of unordered pairs of `n_alleles` alleles, a pair of one allele
/// with itself included.
pub open spec fn genotype_count(n_alleles: int) -> int {
    n_alleles * (n_alleles + 1) / 2
}

/// Whether an entry of a field of this cardinality carries its element count.
pub open spec fn count_is_stored(c: Cardinality) -> bool {
    c is Variable || c is PerAltAllele
}

/// The element count of an entry whose bytes behind the key start at `at`,
/// and where its elements start.
pub open spec fn count_at(s: Seq<u8>, at: int, c: Cardinality, n_alleles: int) -> Result<
    (int, int),
    DecodeError,
> {
    match c {
        Cardinality::Fixed(n) => Ok((n as int, at)),
        Cardinality::PerGenotype => Ok((genotype_count(n_alleles), at)),
        Cardinality::PerAltAllele | Cardinality::Variable => if at + 2 > s.len() {
            Err(DecodeError::TruncatedInput)
        } else {
            Ok((le_u16(s, at), at + 2))
        },
    }
}

/// Whether the `count` bytes of `s` from `at` on are ASCII.
pub open spec fn ascii_run(s: Seq<u8>, at: int, count: int) -> bool {
    forall|k: int| 0 <= k < count ==> #[trigger] s[at + k] < 128
}

/// The value that `count` elements of type `t` at `at` decode to, and the
/// position behind them.
pub open spec fn value_at(s: Seq<u8>, at: int, t: ValueType, count: int) -> Result<
    (ValueModel, int),
    DecodeError,
> {
    let end = at + payload_len(t, count);
    if end > s.len() {
        Err(DecodeError::TruncatedInput)
    } else {
        match t {
            ValueType::Integer => Ok(
                (
                    ValueModel::Integer(Seq::new(count as nat, |k: int| le_i32(s, at + 4 * k) as i32)),
                    end,
                ),
            ),
            ValueType::Float => Ok(
                (
                    ValueModel::Float(Seq::new(count as nat, |k: int| le_u32(s, at + 4 * k) as u32)),
                    end,
                ),
            ),
            ValueType::Character => if ascii_run(s, at, count) {
                Ok((ValueModel::Character(Seq::new(count as nat, |k: int| s[at + k] as char)), end))
            } else {
                Err(DecodeError::TypeDecodeError)
            },
            ValueType::String => if valid_utf8(s.subrange(at, end)) {
                Ok((ValueModel::String(decode_utf8(s.subrange(at, end))), end))
            } else {
                Err(DecodeError::TypeDecodeError)
            },
            ValueType::Flag => Ok((ValueModel::Flag(true), end)),
        }
    }
}

/// The info entry at `at`, and the position behind it.
pub open spec fn entry_at(s: Seq<u8>, at: int, fields: Seq<FieldModel>, n_alleles: int) -> Result<
    (InfoModel, int),
    DecodeError,
> {
    if at + 2 > s.len() {
        Err(DecodeError::TruncatedInput)
    } else {
        let key = le_u16(s, at);
        if key >= fields.len() {
            Err(DecodeError::UnknownKeyIndex)
        } else {
            match count_at(s, at + 2, fields[key].cardinality, n_alleles) {
                Err(e) => Err(e),
                Ok((count, start)) => match value_at(s, start, fields[key].value_type, count) {
                    Err(e) => Err(e),
                    Ok((value, next)) => Ok((InfoModel { key_index: key as u16, value }, next)),
                },
            }
        }
    }
}

/// The first `n` info entries from `at` on, and the position behind them.
pub open spec fn entries_at(
    s: Seq<u8>,
    at: int,
    n: nat,
    fields: Seq<FieldModel>,
    n_alleles: int,
) -> Result<(Seq<InfoModel>, int), DecodeError>
    decreases n,
{
    if n == 0 {
        Ok((Seq::empty(), at))
    } else {
        match entries_at(s, at, (n - 1) as nat, fields, n_alleles) {
            Err(e) => Err(e),
            Ok((entries, start)) => match entry_at(s, start, fields, n_alleles) {
                Err(e) => Err(e),
                Ok((entry, next)) => Ok((entries.push(entry), next)),
            },
        }
    }
}

/// What the failure to read a string means for a record.
pub open spec fn text_failure(e: CursorError) -> DecodeError {
    match e {
        CursorError::TruncatedInput => DecodeError::TruncatedInput,
        CursorError::InvalidText => DecodeError::TypeDecodeError,
    }
}

/// The first `n` length-prefixed strings from `at` on, and the position
/// behind them.
pub open spec fn texts_at(s: Seq<u8>, at: int, n: nat) -> Result<(Seq<Seq<char>>, int), DecodeError>
    decreases n,
{
    if n == 0 {
        Ok((Seq::empty(), at))
    } else {
        match texts_at(s, at, (n - 1) as nat) {
            Err(e) => Err(e),
            Ok((texts, start)) => match text_at(s, start) {
                Err(e) => Err(text_failure(e)),
                Ok((text, next)) => Ok((texts.push(text), next)),
            },
        }
    }
}

/// The record at `at`, and the position behind it.
#[verifier::opaque]
pub open spec fn record_at(s: Seq<u8>, at: int, dictionary: DictionaryModel) -> Result<
    (RecordModel, int),
    DecodeError,
> {
    if at + RECORD_FIXED_LEN > s.len() {
        Err(DecodeError::TruncatedInput)
    } else {
        let contig = le_u32(s, at);
        let position = le_u32(s, at + 4);
        let n_alleles = le_u16(s, at + 8);
        let n_info = le_u16(s, at + 10);
        if contig >= dictionary.contigs.len() {
            Err(DecodeError::UnknownKeyIndex)
        } else if n_alleles == 0 {
            Err(DecodeError::TypeDecodeError)
        } else {
            match text_at(s, at + RECORD_FIXED_LEN) {
                Err(e) => Err(text_failure(e)),
                Ok((ref_allele, alts_start)) => match texts_at(
                    s,
                    alts_start,
                    (n_alleles - 1) as nat,
                ) {
                    Err(e) => Err(e),
                    Ok((alt_alleles, info_start)) => match entries_at(
                        s,
                        info_start,
                        n_info as nat,
                        dictionary.info,
                        n_alleles,
                    ) {
                        Err(e) => Err(e),
                        Ok((info_fields, next)) => Ok(
                            (
                                RecordModel {
                                    contig_index: contig as u32,
                                    position: position as u32,
                                    ref_allele,
                                    alt_alleles,
                                    info_fields,
                                },
                                next,
                            ),
                        ),
                    },
                },
            }
        }
    }
}

/// What a decoder at `at` finds next: nothing where the bytes end, else a
/// record and the position behind it.
pub open spec fn next_record_at(s: Seq<u8>, at: int, dictionary: DictionaryModel) -> Result<
    Option<(RecordModel, int)>,
    DecodeError,
> {
    if at >= s.len() {
        Ok(None)
    } else {
        match record_at(s, at, dictionary) {
            Err(e) => Err(e),
            Ok(found) => Ok(Some(found)),
        }
    }
}

/// A failure among the first entries is the failure of all of them.
pub proof fn lemma_entries_failure(
    s: Seq<u8>,
    at: int,
    i: nat,
    n: nat,
    fields: Seq<FieldModel>,
    n_alleles: int,
)
    requires
        i <= n,
        entries_at(s, at, i, fields, n_alleles) is Err,
    ensures
        entries_at(s, at, n, fields, n_alleles) == entries_at(s, at, i, fields, n_alleles),
    decreases n - i,
{
    if i < n {
        lemma_entries_failure(s, at, i, (n - 1) as nat, fields, n_alleles);
    }
}

/// A failure among the first strings is the failure of all of them.
pub proof fn lemma_texts_failure(s: Seq<u8>, at: int, i: nat, n: nat)
    requires
        i <= n,
        texts_at(s, at, i) is Err,
    ensures
        texts_at(s, at, n) == texts_at(s, at, i),
    decreases n - i,
{
    if i < n {
        lemma_texts_failure(s, at, i, (n - 1) as nat);
    }
}

/// Strings that were read end behind their start.
pub proof fn lemma_texts_advance(s: Seq<u8>, at: int, n: nat)
    requires
        texts_at(s, at, n) is Ok,
    ensures
        texts_at(s, at, n)->Ok_0.1 >= at,
        texts_at(s, at, n)->Ok_0.0.len() == n,
    decreases n,
{
    if n > 0 {
        lemma_texts_advance(s, at, (n - 1) as nat);
    }
}

/// Info entries that were read end behind their start.
pub proof fn lemma_entries_advance(
    s: Seq<u8>,
    at: int,
    n: nat,
    fields: Seq<FieldModel>,
    n_alleles: int,
)
    requires
        0 <= n_alleles,
        entries_at(s, at, n, fields, n_alleles) is Ok,
    ensures
        entries_at(s, at, n, fields, n_alleles)->Ok_0.1 >= at,
        entries_at(s, at, n, fields, n_alleles)->Ok_0.0.len() == n,
    decreases n,
{
    if n > 0 {
        lemma_entries_advance(s, at, (n - 1) as nat, fields, n_alleles);
        assert(genotype_count(n_alleles) >= 0) by (nonlinear_arith)
            requires
                0 <= n_alleles,
        ;
    }
}

/// A record that was read takes its fixed part at least.
pub proof fn lemma_record_advance(s: Seq<u8>, at: int, dictionary: DictionaryModel)
    requires
        0 <= at,
        record_at(s, at, dictionary) is Ok,
    ensures
        record_at(s, at, dictionary)->Ok_0.1 >= at + RECORD_FIXED_LEN,
        record_at(s, at, dictionary)->Ok_0.1 <= s.len(),
{
    reveal(record_at);
    let n_alleles = le_u16(s, at + 8);
    let n_info = le_u16(s, at + 10);
    let alts_start = text_at(s, at + RECORD_FIXED_LEN)->Ok_0.1;
    lemma_texts_advance(s, alts_start, (n_alleles - 1) as nat);
    let info_start = texts_at(s, alts_start, (n_alleles - 1) as nat)->Ok_0.1;
    lemma_entries_advance(s, info_start, n_info as nat, dictionary.info, n_alleles);
    lemma_entries_end(s, info_start, n_info as nat, dictionary.info, n_alleles);
    lemma_texts_end(s, alts_start, (n_alleles - 1) as nat);
}

/// Strings that were read end within the bytes, where they start there.
pub proof fn lemma_texts_end(s: Seq<u8>, at: int, n: nat)
    requires
        at <= s.len(),
        texts_at(s, at, n) is Ok,
    ensures
        texts_at(s, at, n)->Ok_0.1 <= s.len(),
    decreases n,
{
    if n > 0 {
        lemma_texts_end(s, at, (n - 1) as nat);
    }
}

/// Info entries that were read end within the bytes, where they start
/// there.
pub proof fn lemma_entries_end(
    s: Seq<u8>,
    at: int,
    n: nat,
    fields: Seq<FieldModel>,
    n_alleles: int,
)
    requires
        at <= s.len(),
        entries_at(s, at, n, fields, n_alleles) is Ok,
    ensures
        entries_at(s, at, n, fields, n_alleles)->Ok_0.1 <= s.len(),
    decreases n,
{
    if n > 0 {
        lemma_entries_end(s, at, (n - 1) as nat, fields, n_alleles);
    }
}

} // verus!
