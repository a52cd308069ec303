//! The whole way from the bytes of a container to the sum and the count of
//! one integer info field over its records.

use vstd::prelude::*;
use crate::aggregate::{AggregateModel, Aggregator, Summary};
use crate::cursor::ByteCursor;
use crate::decoder::next_record;
use crate::dictionary::{index_of_name, DictionaryModel, ValueType};
use crate::error::Error;
use crate::extract::{check_integer_field, numeric_payload, value_by_key, value_of_key};
use crate::header::{header_at, parse};
use crate::layout::{lemma_record_advance, record_at, RECORD_FIXED_LEN};
use crate::validator::{format_at, validate};

verus! {

/// The count and the sum `so_far` with what the records of `s` from `at` on
/// give for the field declared at `key`.  The first record that cannot be
/// decoded, or whose value gives no number though it is there, ends it with
/// an error.
pub open spec fn fold_records(
    s: Seq<u8>,
    at: int,
    dictionary: DictionaryModel,
    key: int,
    so_far: AggregateModel,
) -> Result<AggregateModel, Error>
    decreases s.len() - at,
{
    if at < 0 || at >= s.len() {
        Ok(so_far)
    } else {
        match record_at(s, at, dictionary) {
            Err(e) => Err(e.lifted()),
            Ok((record, next)) => {
                proof {
                    lemma_record_advance(s, at, dictionary);
                }
                match value_of_key(record, key) {
                    None => fold_records(s, next, dictionary, key, so_far),
                    Some(value) => match numeric_payload(value) {
                        Err(e) => Err(e.lifted()),
                        Ok(None) => fold_records(s, next, dictionary, key, so_far),
                        Ok(Some(number)) => fold_records(
                            s,
                            next,
                            dictionary,
                            key,
                            so_far.with_number(number as int),
                        ),
                    },
                }
            },
        }
    }
}

/// What is left at the end of a container: the failure, if there was one;
/// where no record gave a number, the error of the empty aggregate; else the
/// count and the sum.
pub open spec fn finished(total: Result<AggregateModel, Error>) -> Result<AggregateModel, Error> {
    match total {
        Err(e) => Err(e),
        Ok(total) => if total.count == 0 {
            Err(Error::EmptyAggregateError)
        } else {
            Ok(total)
        },
    }
}

/// The count and the sum of the integer info field `name` over the records
/// of the container `s`.
///
/// In this order: signature and version are checked, the header is read,
/// the name is looked up, the field must be declared as integer, the
/// records are decoded one after the other, and one of them at least must
/// have given a number.
#[verifier::opaque]
pub open spec fn field_average(s: Seq<u8>, name: Seq<char>) -> Result<AggregateModel, Error> {
    match format_at(s, 0) {
        Err(e) => Err(e.lifted()),
        Ok(header_start) => match header_at(s, header_start) {
            Err(e) => Err(e.lifted()),
            Ok((dictionary, records_start)) => match index_of_name(dictionary.info, name) {
                None => Err(Error::UnknownFieldName),
                Some(key) => if dictionary.info[key].value_type != ValueType::Integer {
                    Err(Error::TypeMismatch)
                } else {
                    finished(
                        fold_records(
                            s,
                            records_start,
                            dictionary,
                            key,
                            AggregateModel::zero(),
                        ),
                    )
                },
            },
        },
    }
}

/// Whether `r` is what the computation returns for the container `s` and
/// the name `name`.
pub open spec fn is_average_of(r: Result<Summary, Error>, s: Seq<u8>, name: Seq<char>) -> bool {
    match field_average(s, name) {
        Ok(total) => r is Ok && r->Ok_0@ == total,
        Err(e) => r is Err && r->Err_0 == e,
    }
}

/// Computes the sum and the count of the integer info field `field_name`
/// over the records of the container `bytes`.  The mean is the sum divided
/// by the count.
pub fn compute_field_average(bytes: &[u8], field_name: &str) -> (r: Result<Summary, Error>)
    ensures
        is_average_of(r, bytes@, field_name@),
{
    proof {
        reveal(field_average);
    }
    let mut stream = ByteCursor::new(bytes);
    match validate(&mut stream) {
        Err(e) => {
            return Err(e.lift());
        },
        Ok(_) => {},
    }
    let dictionary = match parse(&mut stream) {
        Err(e) => {
            return Err(e.lift());
        },
        Ok(dictionary) => dictionary,
    };
    let (key, declared) = match dictionary.find(field_name) {
        None => (0, None),
        Some((key, field)) => (key, Some(field.value_type)),
    };
    match check_integer_field(declared) {
        Err(e) => {
            return Err(e.lift());
        },
        Ok(_) => {},
    }
    let ghost records_start = stream.offset();
    let _len = bytes.len();
    let mut aggregator = Aggregator::new();
    loop
        invariant
            stream.bytes() == bytes@,
            0 <= records_start <= stream.offset() <= bytes@.len() <= usize::MAX,
            aggregator@.count * RECORD_FIXED_LEN <= stream.offset(),
            fold_records(
                bytes@,
                records_start,
                dictionary@,
                key as int,
                AggregateModel::zero(),
            ) == fold_records(bytes@, stream.offset(), dictionary@, key as int, aggregator@),
            field_average(bytes@, field_name@) == finished(
                fold_records(
                    bytes@,
                    records_start,
                    dictionary@,
                    key as int,
                    AggregateModel::zero(),
                ),
            ),
        ensures
            fold_records(
                bytes@,
                records_start,
                dictionary@,
                key as int,
                AggregateModel::zero(),
            ) == Ok::<AggregateModel, Error>(aggregator@),
        decreases bytes@.len() - stream.offset(),
    {
        let ghost at = stream.offset();
        let record = match next_record(&mut stream, &dictionary) {
            Err(e) => {
                return Err(e.lift());
            },
            Ok(None) => {
                break ;
            },
            Ok(Some(record)) => record,
        };
        proof {
            lemma_record_advance(bytes@, at, dictionary@);
        }
        match aggregator.observe(value_by_key(&record, key)) {
            Err(e) => {
                return Err(e.lift());
            },
            Ok(_) => {},
        }
    }
    match aggregator.finalize() {
        Err(_) => Err(Error::EmptyAggregateError),
        Ok(summary) => Ok(summary),
    }
}

} // verus!
