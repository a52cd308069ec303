//! What holds of the decoder, the extractor and the pipeline on every
//! input, proved from their definitions.

use vstd::prelude::*;
use vstd::string::*;

use crate::aggregate::{AggregateModel, Summary};
use crate::cursor::text_at;
use crate::dictionary::{index_of_name, DictionaryModel, FieldModel, ValueType};
use crate::encoding::{
    entry_fits,
    lemma_decoded_record_fits,
    lemma_holds_at_split,
    lemma_records_round_trip,
    record_fits,
    records_bytes,
    records_from,
};
use crate::error::{DecodeError, Error, ExtractError};
use crate::extract::{
    extracted_float,
    first_entry,
    lemma_first_entry,
    extracted_number,
    numeric_payload,
    value_of_key,
};
use crate::header::{header_at, header_of};
use crate::layout::{
    entries_at,
    lemma_entries_failure,
    lemma_record_advance,
    next_record_at,
    record_at,
    texts_at,
    RECORD_FIXED_LEN,
};
use crate::pipeline::{field_average, finished, fold_records, is_average_of};
use crate::record::{InfoModel, RecordModel, ValueModel};
use crate::validator::{format_at, magic, MAX_MAJOR_VERSION};
use crate::wire::{le_u16, le_u32, lemma_u32_round_trip, u32_bytes};

verus! {

/// The computation is a function of the bytes and the name: whatever it
/// returns for equal bytes and equal names is equal, sum and count or
/// failure.
pub proof fn lemma_equal_inputs_equal_results(
    s1: Seq<u8>,
    name1: Seq<char>,
    r1: Result<Summary, Error>,
    s2: Seq<u8>,
    name2: Seq<char>,
    r2: Result<Summary, Error>,
)
    requires
        s1 == s2,
        name1 == name2,
        is_average_of(r1, s1, name1),
        is_average_of(r2, s2, name2),
    ensures
        r1 == r2,
{
    if r1 is Ok {
        r1->Ok_0.lemma_same_content(r2->Ok_0);
    }
}

/// The count and the sum `so_far` with what the records `rs` give, in their
/// order, for the field declared at `key`.
pub open spec fn fold_values(rs: Seq<RecordModel>, key: int, so_far: AggregateModel) -> Result<
    AggregateModel,
    Error,
>
    decreases rs.len(),
{
    if rs.len() == 0 {
        Ok(so_far)
    } else {
        match value_of_key(rs.first(), key) {
            None => fold_values(rs.drop_first(), key, so_far),
            Some(value) => match numeric_payload(value) {
                Err(e) => Err(e.lifted()),
                Ok(None) => fold_values(rs.drop_first(), key, so_far),
                Ok(Some(number)) => fold_values(
                    rs.drop_first(),
                    key,
                    so_far.with_number(number as int),
                ),
            },
        }
    }
}

/// Where the bytes hold the records `rs`, the pipeline sums what `rs`
/// gives, record by record in their order.
pub proof fn lemma_fold_follows_records(
    s: Seq<u8>,
    at: int,
    dictionary: DictionaryModel,
    key: int,
    so_far: AggregateModel,
)
    requires
        records_from(s, at, dictionary) is Ok,
    ensures
        fold_records(s, at, dictionary, key, so_far) == fold_values(
            records_from(s, at, dictionary)->Ok_0,
            key,
            so_far,
        ),
    decreases s.len() - at,
{
    if 0 <= at < s.len() {
        let (record, next) = record_at(s, at, dictionary)->Ok_0;
        lemma_record_advance(s, at, dictionary);
        let rest = records_from(s, next, dictionary)->Ok_0;
        let all = seq![record] + rest;
        assert(all.first() == record);
        assert(all.drop_first() =~= rest);
        match value_of_key(record, key) {
            None => {
                lemma_fold_follows_records(s, next, dictionary, key, so_far);
            },
            Some(value) => match numeric_payload(value) {
                Err(e) => {},
                Ok(None) => {
                    lemma_fold_follows_records(s, next, dictionary, key, so_far);
                },
                Ok(Some(number)) => {
                    lemma_fold_follows_records(
                        s,
                        next,
                        dictionary,
                        key,
                        so_far.with_number(number as int),
                    );
                },
            },
        }
    }
}

/// Records of which none has the field leave the count and the sum as they
/// were.
pub proof fn lemma_fold_without_values(rs: Seq<RecordModel>, key: int, so_far: AggregateModel)
    requires
        forall|i: int| 0 <= i < rs.len() ==> value_of_key(#[trigger] rs[i], key) is None,
    ensures
        fold_values(rs, key, so_far) == Ok::<AggregateModel, Error>(so_far),
    decreases rs.len(),
{
    if rs.len() > 0 {
        assert(value_of_key(rs[0], key) is None);
        assert forall|i: int| 0 <= i < rs.drop_first().len() implies value_of_key(
            #[trigger] rs.drop_first()[i],
            key,
        ) is None by {
            assert(rs.drop_first()[i] == rs[i + 1]);
        }
        lemma_fold_without_values(rs.drop_first(), key, so_far);
    }
}

/// A container whose records all decode, and of which none has the field
/// asked for, has no mean: the result is the error of the empty aggregate.
pub proof fn lemma_no_value_no_mean(s: Seq<u8>, name: Seq<char>)
    requires
        format_at(s, 0) is Ok,
        header_at(s, format_at(s, 0)->Ok_0) is Ok,
        ({
            let (dictionary, start) = header_at(s, format_at(s, 0)->Ok_0)->Ok_0;
            &&& index_of_name(dictionary.info, name) is Some
            &&& dictionary.info[index_of_name(dictionary.info, name)->0].value_type
                == ValueType::Integer
            &&& records_from(s, start, dictionary) is Ok
            &&& forall|i: int|
                0 <= i < records_from(s, start, dictionary)->Ok_0.len() ==> value_of_key(
                    #[trigger] records_from(s, start, dictionary)->Ok_0[i],
                    index_of_name(dictionary.info, name)->0,
                ) is None
        }),
    ensures
        field_average(s, name) == Err::<AggregateModel, Error>(Error::EmptyAggregateError),
{
    reveal(field_average);
    let (dictionary, start) = header_at(s, format_at(s, 0)->Ok_0)->Ok_0;
    let key = index_of_name(dictionary.info, name)->0;
    let zero = AggregateModel::zero();
    lemma_fold_follows_records(s, start, dictionary, key, zero);
    lemma_fold_without_values(records_from(s, start, dictionary)->Ok_0, key, zero);
}

/// Entries of which one names a field that is not declared cannot be
/// decoded: the failure is that of the unknown key index.
pub proof fn lemma_unknown_key_fails_entries(
    s: Seq<u8>,
    at: int,
    i: nat,
    n: nat,
    fields: Seq<FieldModel>,
    n_alleles: int,
)
    requires
        i < n,
        entries_at(s, at, i, fields, n_alleles) is Ok,
        entries_at(s, at, i, fields, n_alleles)->Ok_0.1 + 2 <= s.len(),
        le_u16(s, entries_at(s, at, i, fields, n_alleles)->Ok_0.1) >= fields.len(),
    ensures
        entries_at(s, at, n, fields, n_alleles) == Err::<(Seq<InfoModel>, int), DecodeError>(
            DecodeError::UnknownKeyIndex,
        ),
{
    assert(entries_at(s, at, (i + 1) as nat, fields, n_alleles) == Err::<
        (Seq<InfoModel>, int),
        DecodeError,
    >(DecodeError::UnknownKeyIndex));
    lemma_entries_failure(s, at, (i + 1) as nat, n, fields, n_alleles);
}

/// A record of which an entry names a field that is not declared, behind
/// entries that decode, is not decoded, and the computation over the
/// container ends at that record: the failure is that of the unknown key
/// index.  The entry is not passed over.
pub proof fn lemma_unknown_key_fails_record(
    s: Seq<u8>,
    at: int,
    dictionary: DictionaryModel,
    key: int,
    so_far: AggregateModel,
    i: nat,
)
    requires
        0 <= at,
        at + RECORD_FIXED_LEN <= s.len(),
        le_u32(s, at) < dictionary.contigs.len(),
        le_u16(s, at + 8) > 0,
        i < le_u16(s, at + 10),
        text_at(s, at + RECORD_FIXED_LEN) is Ok,
        texts_at(
            s,
            text_at(s, at + RECORD_FIXED_LEN)->Ok_0.1,
            (le_u16(s, at + 8) - 1) as nat,
        ) is Ok,
        ({
            let entries = entries_at(
                s,
                texts_at(
                    s,
                    text_at(s, at + RECORD_FIXED_LEN)->Ok_0.1,
                    (le_u16(s, at + 8) - 1) as nat,
                )->Ok_0.1,
                i,
                dictionary.info,
                le_u16(s, at + 8),
            );
            &&& entries is Ok
            &&& entries->Ok_0.1 + 2 <= s.len()
            &&& le_u16(s, entries->Ok_0.1) >= dictionary.info.len()
        }),
    ensures
        record_at(s, at, dictionary) == Err::<(RecordModel, int), DecodeError>(
            DecodeError::UnknownKeyIndex,
        ),
        next_record_at(s, at, dictionary) == Err::<Option<(RecordModel, int)>, DecodeError>(
            DecodeError::UnknownKeyIndex,
        ),
        fold_records(s, at, dictionary, key, so_far) == Err::<AggregateModel, Error>(
            Error::UnknownKeyIndex,
        ),
{
    reveal(record_at);
    let n_alleles = le_u16(s, at + 8);
    let info_start = texts_at(
        s,
        text_at(s, at + RECORD_FIXED_LEN)->Ok_0.1,
        (n_alleles - 1) as nat,
    )->Ok_0.1;
    lemma_unknown_key_fails_entries(
        s,
        info_start,
        i,
        le_u16(s, at + 10) as nat,
        dictionary.info,
        n_alleles,
    );
}

/// A field that is not declared as integer gives no number, whatever the
/// record: asking for one is a type mismatch.
pub proof fn lemma_not_integer_is_type_mismatch(
    record: RecordModel,
    name: Seq<char>,
    dictionary: DictionaryModel,
)
    requires
        index_of_name(dictionary.info, name) is Some,
        dictionary.info[index_of_name(dictionary.info, name)->0].value_type != ValueType::Integer,
    ensures
        extracted_number(record, name, dictionary) == Err::<Option<i32>, ExtractError>(
            ExtractError::TypeMismatch,
        ),
{
}

/// A field that is not declared as float gives no single-precision number,
/// whatever the record: asking for one is a type mismatch.
pub proof fn lemma_not_float_is_type_mismatch(
    record: RecordModel,
    name: Seq<char>,
    dictionary: DictionaryModel,
)
    requires
        index_of_name(dictionary.info, name) is Some,
        dictionary.info[index_of_name(dictionary.info, name)->0].value_type != ValueType::Float,
    ensures
        extracted_float(record, name, dictionary) == Err::<Option<u32>, ExtractError>(
            ExtractError::TypeMismatch,
        ),
{
}

/// A field that is declared as string gives a number to no sum.
pub proof fn lemma_string_field_is_type_mismatch(
    record: RecordModel,
    name: Seq<char>,
    dictionary: DictionaryModel,
)
    requires
        index_of_name(dictionary.info, name) is Some,
        dictionary.info[index_of_name(dictionary.info, name)->0].value_type == ValueType::String,
    ensures
        extracted_number(record, name, dictionary) == Err::<Option<i32>, ExtractError>(
            ExtractError::TypeMismatch,
        ),
        extracted_float(record, name, dictionary) == Err::<Option<u32>, ExtractError>(
            ExtractError::TypeMismatch,
        ),
{
}

/// The mean of a field that is not declared as integer is a type mismatch,
/// whatever the records hold.
pub proof fn lemma_not_integer_has_no_mean(s: Seq<u8>, name: Seq<char>)
    requires
        format_at(s, 0) is Ok,
        header_at(s, format_at(s, 0)->Ok_0) is Ok,
        ({
            let dictionary = header_at(s, format_at(s, 0)->Ok_0)->Ok_0.0;
            &&& index_of_name(dictionary.info, name) is Some
            &&& dictionary.info[index_of_name(dictionary.info, name)->0].value_type
                != ValueType::Integer
        }),
    ensures
        field_average(s, name) == Err::<AggregateModel, Error>(Error::TypeMismatch),
{
    reveal(field_average);
}

/// A value of another variant than the integers gives no number: it is a
/// type mismatch, and never a number made up for it.
pub proof fn lemma_other_variant_is_type_mismatch(value: ValueModel)
    requires
        value.value_type() != ValueType::Integer,
    ensures
        numeric_payload(value) == Err::<Option<i32>, ExtractError>(ExtractError::TypeMismatch),
{
}

/// A name that the header does not declare fails by the header alone,
/// whatever stands behind the header.
pub proof fn lemma_unknown_name_fails_first(s: Seq<u8>, name: Seq<char>)
    requires
        format_at(s, 0) is Ok,
        header_at(s, format_at(s, 0)->Ok_0) is Ok,
        index_of_name(header_at(s, format_at(s, 0)->Ok_0)->Ok_0.0.info, name) is None,
    ensures
        field_average(s, name) == Err::<AggregateModel, Error>(Error::UnknownFieldName),
{
    reveal(field_average);
}

/// The value that a record of the dictionary has for an integer field is
/// an integer value.
pub proof fn lemma_value_of_integer_field(
    record: RecordModel,
    dictionary: DictionaryModel,
    key: int,
)
    requires
        record_fits(record, dictionary),
        0 <= key < dictionary.info.len(),
        dictionary.info[key].value_type == ValueType::Integer,
    ensures
        value_of_key(record, key) is Some ==> value_of_key(record, key)->0 is Integer,
{
    lemma_first_entry(record.info_fields, key, 0);
    if let Some(i) = first_entry(record.info_fields, key, 0) {
        assert(entry_fits(
            record.info_fields[i],
            dictionary.info,
            1 + record.alt_alleles.len() as int,
        ));
    }
}

/// A record that cannot be decoded ends the whole computation with its
/// failure: nothing behind it is read, and nothing before it is kept.
pub proof fn lemma_decode_failure_aborts(
    s: Seq<u8>,
    at: int,
    dictionary: DictionaryModel,
    key: int,
    so_far: AggregateModel,
)
    requires
        0 <= at,
        0 <= key < dictionary.info.len(),
        dictionary.info[key].value_type == ValueType::Integer,
        records_from(s, at, dictionary) is Err,
    ensures
        fold_records(s, at, dictionary, key, so_far) == Err::<AggregateModel, Error>(
            records_from(s, at, dictionary)->Err_0.lifted(),
        ),
    decreases s.len() - at,
{
    if record_at(s, at, dictionary) is Ok {
        let (record, next) = record_at(s, at, dictionary)->Ok_0;
        lemma_record_advance(s, at, dictionary);
        lemma_decoded_record_fits(s, at, dictionary);
        lemma_value_of_integer_field(record, dictionary, key);
        match value_of_key(record, key) {
            None => {
                lemma_decode_failure_aborts(s, next, dictionary, key, so_far);
            },
            Some(value) => match numeric_payload(value) {
                Err(e) => {},
                Ok(None) => {
                    lemma_decode_failure_aborts(s, next, dictionary, key, so_far);
                },
                Ok(Some(number)) => {
                    lemma_decode_failure_aborts(
                        s,
                        next,
                        dictionary,
                        key,
                        so_far.with_number(number as int),
                    );
                },
            },
        }
    }
}

/// The number that a record gives for the field declared at `key`: the
/// first element of its value for the field, where that is an integer
/// value with an element.
pub open spec fn number_of(record: RecordModel, key: int) -> Option<i32> {
    match value_of_key(record, key) {
        Some(value) => match numeric_payload(value) {
            Ok(number) => number,
            Err(_) => None,
        },
        None => None,
    }
}

/// The numbers that the records give for the field declared at `key`, in
/// the order of the records.
pub open spec fn numbers_of(rs: Seq<RecordModel>, key: int) -> Seq<i32>
    decreases rs.len(),
{
    if rs.len() == 0 {
        Seq::empty()
    } else {
        match number_of(rs.first(), key) {
            Some(number) => seq![number] + numbers_of(rs.drop_first(), key),
            None => numbers_of(rs.drop_first(), key),
        }
    }
}

/// The sum of numbers.
pub open spec fn sum_of(numbers: Seq<i32>) -> int
    decreases numbers.len(),
{
    if numbers.len() == 0 {
        0
    } else {
        numbers.first() + sum_of(numbers.drop_first())
    }
}

/// The count and the sum of numbers.
pub open spec fn total_of(numbers: Seq<i32>) -> AggregateModel {
    AggregateModel { count: numbers.len(), sum: sum_of(numbers) }
}

/// Over records of the dictionary, an integer field is counted as often as
/// a record gives a number for it, and the sum is the sum of those numbers:
/// a record without the field adds nothing to either.
pub proof fn lemma_fold_is_count_and_sum(
    rs: Seq<RecordModel>,
    dictionary: DictionaryModel,
    key: int,
    so_far: AggregateModel,
)
    requires
        forall|i: int| 0 <= i < rs.len() ==> record_fits(#[trigger] rs[i], dictionary),
        0 <= key < dictionary.info.len(),
        dictionary.info[key].value_type == ValueType::Integer,
    ensures
        fold_values(rs, key, so_far) == Ok::<AggregateModel, Error>(
            so_far.plus(total_of(numbers_of(rs, key))),
        ),
    decreases rs.len(),
{
    if rs.len() > 0 {
        let first = rs.first();
        let rest = rs.drop_first();
        assert(record_fits(rs[0], dictionary));
        lemma_value_of_integer_field(first, dictionary, key);
        assert forall|i: int| 0 <= i < rest.len() implies record_fits(
            #[trigger] rest[i],
            dictionary,
        ) by {
            assert(rest[i] == rs[i + 1]);
        }
        match number_of(first, key) {
            None => {
                lemma_fold_is_count_and_sum(rest, dictionary, key, so_far);
            },
            Some(number) => {
                let next = so_far.with_number(number as int);
                lemma_fold_is_count_and_sum(rest, dictionary, key, next);
                let all = seq![number] + numbers_of(rest, key);
                assert(all.first() == number);
                assert(all.drop_first() =~= numbers_of(rest, key));
            },
        }
    }
}

/// The bytes of a container: the signature, the two version bytes, the
/// length of the header text, the header text, and the bytes of the
/// records.
pub open spec fn container_bytes(major: u8, minor: u8, header: Seq<u8>, records: Seq<u8>) -> Seq<
    u8,
> {
    magic() + seq![major, minor] + u32_bytes(header.len() as int) + header + records
}

/// The pipeline gives back what was written: for a container made of a
/// header text that declares a dictionary and of the bytes of records of
/// that dictionary, the count and the sum are those of what the records
/// give for the field, record by record in their order.
pub proof fn lemma_container_round_trip(
    major: u8,
    minor: u8,
    header: Seq<u8>,
    rs: Seq<RecordModel>,
    name: Seq<char>,
)
    requires
        major <= MAX_MAJOR_VERSION,
        header.len() <= u32::MAX,
        header_of(header) is Ok,
        index_of_name(header_of(header)->Ok_0.info, name) is Some,
        header_of(header)->Ok_0.info[index_of_name(
            header_of(header)->Ok_0.info,
            name,
        )->0].value_type == ValueType::Integer,
        forall|i: int| 0 <= i < rs.len() ==> record_fits(#[trigger] rs[i], header_of(header)->Ok_0),
    ensures
        field_average(
            container_bytes(major, minor, header, records_bytes(rs, header_of(header)->Ok_0)),
            name,
        ) == finished(
            fold_values(
                rs,
                index_of_name(header_of(header)->Ok_0.info, name)->0,
                AggregateModel::zero(),
            ),
        ),
        ({
            let numbers = numbers_of(rs, index_of_name(header_of(header)->Ok_0.info, name)->0);
            field_average(
                container_bytes(major, minor, header, records_bytes(rs, header_of(header)->Ok_0)),
                name,
            ) == if numbers.len() == 0 {
                Err::<AggregateModel, Error>(Error::EmptyAggregateError)
            } else {
                Ok::<AggregateModel, Error>(total_of(numbers))
            }
        }),
{
    reveal(field_average);
    reveal_strlit("BCF");
    crate::dictionary::lemma_first_named_is_first(header_of(header)->Ok_0.info, name, 0);
    lemma_fold_is_count_and_sum(
        rs,
        header_of(header)->Ok_0,
        index_of_name(header_of(header)->Ok_0.info, name)->0,
        AggregateModel::zero(),
    );
    let dictionary = header_of(header)->Ok_0;
    let key = index_of_name(dictionary.info, name)->0;
    let records = records_bytes(rs, dictionary);
    let s = container_bytes(major, minor, header, records);
    let front1 = magic();
    let front2 = front1 + seq![major, minor];
    let front3 = front2 + u32_bytes(header.len() as int);
    let front4 = front3 + header;
    assert(s.subrange(0, s.len() as int) =~= s);
    lemma_holds_at_split(s, 0, front4, records);
    lemma_holds_at_split(s, 0, front3, header);
    lemma_holds_at_split(s, 0, front2, u32_bytes(header.len() as int));
    lemma_holds_at_split(s, 0, front1, seq![major, minor]);
    assert(s[3] == major) by {
        assert(s.subrange(3, 5)[0] == seq![major, minor][0]);
    }
    assert(format_at(s, 0) == Ok::<int, crate::error::FormatError>(5));
    lemma_u32_round_trip(s, 5, header.len() as int);
    let start = 9 + header.len() as int;
    assert(header_at(s, 5) == Ok::<(DictionaryModel, int), crate::error::HeaderError>(
        (dictionary, start),
    ));
    lemma_records_round_trip(s, start, rs, dictionary);
    lemma_fold_follows_records(s, start, dictionary, key, AggregateModel::zero());
}

} // verus!
