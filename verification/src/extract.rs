//! Extraction of one named info field from a decoded record.

use vstd::prelude::*;
use crate::dictionary::{index_of_name, Dictionary, DictionaryModel, ValueType};
use crate::error::ExtractError;
use crate::record::{InfoModel, Record, RecordModel, TypedValue, ValueModel};

verus! {

/// The position of the first entry from `from` on whose field is `key`.
pub open spec fn first_entry(entries: Seq<InfoModel>, key: int, from: int) -> Option<int>
    decreases entries.len() - from,
{
    if from < 0 || from >= entries.len() {
        None
    } else if entries[from].key_index == key {
        Some(from)
    } else {
        first_entry(entries, key, from + 1)
    }
}

/// What `first_entry` returns is the position of an entry for `key`, and
/// the first.
pub proof fn lemma_first_entry(entries: Seq<InfoModel>, key: int, from: int)
    requires
        0 <= from,
    ensures
        match first_entry(entries, key, from) {
            Some(at) => from <= at < entries.len() && entries[at].key_index == key && forall|
                j: int,
            |
                from <= j < at ==> (#[trigger] entries[j]).key_index != key,
            None => forall|j: int|
                from <= j < entries.len() ==> (#[trigger] entries[j]).key_index != key,
        },
    decreases entries.len() - from,
{
    if from < entries.len() && entries[from].key_index != key {
        lemma_first_entry(entries, key, from + 1);
    }
}

/// The value that `record` has for the field declared at `key`: that of the
/// first entry for it.
pub open spec fn value_of_key(record: RecordModel, key: int) -> Option<ValueModel> {
    match first_entry(record.info_fields, key, 0) {
        Some(i) => Some(record.info_fields[i].value),
        None => None,
    }
}

/// The value that `record` has for the field called `name`.
pub open spec fn extracted(record: RecordModel, name: Seq<char>, dictionary: DictionaryModel)
    -> Result<Option<ValueModel>, ExtractError> {
    match index_of_name(dictionary.info, name) {
        None => Err(ExtractError::UnknownFieldName),
        Some(key) => Ok(value_of_key(record, key)),
    }
}

/// The number that a value gives to a sum: the first element of an integer
/// value, nothing where it has no element.  No other value gives a number.
pub open spec fn numeric_payload(value: ValueModel) -> Result<Option<i32>, ExtractError> {
    match value {
        ValueModel::Integer(elements) => if elements.len() > 0 {
            Ok(Some(elements[0]))
        } else {
            Ok(None)
        },
        ValueModel::Float(_) => Err(ExtractError::TypeMismatch),
        ValueModel::Character(_) => Err(ExtractError::TypeMismatch),
        ValueModel::String(_) => Err(ExtractError::TypeMismatch),
        ValueModel::Flag(_) => Err(ExtractError::TypeMismatch),
    }
}

/// What asking for the numbers of an info field comes to, by its
/// declaration alone: a field that is not declared is not known, and a
/// field of another type than integer is a type mismatch.
pub open spec fn integer_field(declared: Option<ValueType>) -> Result<(), ExtractError> {
    match declared {
        None => Err(ExtractError::UnknownFieldName),
        Some(ValueType::Integer) => Ok(()),
        Some(ValueType::Float) => Err(ExtractError::TypeMismatch),
        Some(ValueType::Character) => Err(ExtractError::TypeMismatch),
        Some(ValueType::String) => Err(ExtractError::TypeMismatch),
        Some(ValueType::Flag) => Err(ExtractError::TypeMismatch),
    }
}

/// What asking for the single-precision numbers of an info field comes to,
/// by its declaration alone.
pub open spec fn float_field(declared: Option<ValueType>) -> Result<(), ExtractError> {
    match declared {
        None => Err(ExtractError::UnknownFieldName),
        Some(ValueType::Float) => Ok(()),
        Some(ValueType::Integer) => Err(ExtractError::TypeMismatch),
        Some(ValueType::Character) => Err(ExtractError::TypeMismatch),
        Some(ValueType::String) => Err(ExtractError::TypeMismatch),
        Some(ValueType::Flag) => Err(ExtractError::TypeMismatch),
    }
}

/// The number that `record` gives to a sum over the field called `name`.
pub open spec fn extracted_number(
    record: RecordModel,
    name: Seq<char>,
    dictionary: DictionaryModel,
) -> Result<Option<i32>, ExtractError> {
    match index_of_name(dictionary.info, name) {
        None => Err(ExtractError::UnknownFieldName),
        Some(key) => if dictionary.info[key].value_type != ValueType::Integer {
            Err(ExtractError::TypeMismatch)
        } else {
            match value_of_key(record, key) {
                None => Ok(None),
                Some(value) => numeric_payload(value),
            }
        },
    }
}

/// The bits of the number that a value gives to a sum of single-precision
/// numbers: the first element of a float value, nothing where it has no
/// element.  No other value gives one.
pub open spec fn float_payload(value: ValueModel) -> Result<Option<u32>, ExtractError> {
    match value {
        ValueModel::Float(elements) => if elements.len() > 0 {
            Ok(Some(elements[0]))
        } else {
            Ok(None)
        },
        ValueModel::Integer(_) => Err(ExtractError::TypeMismatch),
        ValueModel::Character(_) => Err(ExtractError::TypeMismatch),
        ValueModel::String(_) => Err(ExtractError::TypeMismatch),
        ValueModel::Flag(_) => Err(ExtractError::TypeMismatch),
    }
}

/// The bits of the number that `record` gives to a sum of single-precision
/// numbers over the field called `name`.
pub open spec fn extracted_float(
    record: RecordModel,
    name: Seq<char>,
    dictionary: DictionaryModel,
) -> Result<Option<u32>, ExtractError> {
    match index_of_name(dictionary.info, name) {
        None => Err(ExtractError::UnknownFieldName),
        Some(key) => if dictionary.info[key].value_type != ValueType::Float {
            Err(ExtractError::TypeMismatch)
        } else {
            match value_of_key(record, key) {
                None => Ok(None),
                Some(value) => float_payload(value),
            }
        },
    }
}

/// The value of the first entry of `record` for the field declared at
/// `key`.
pub fn value_by_key<'a>(record: &'a Record, key: usize) -> (value: Option<&'a TypedValue>)
    ensures
        match value_of_key(record@, key as int) {
            Some(v) => value is Some && value->0@ == v,
            None => value is None,
        },
{
    let mut i: usize = 0;
    while i < record.info_fields.len()
        invariant
            i <= record.info_fields@.len(),
            record@.info_fields.len() == record.info_fields@.len(),
            first_entry(record@.info_fields, key as int, 0) == first_entry(
                record@.info_fields,
                key as int,
                i as int,
            ),
        decreases record.info_fields@.len() - i,
    {
        assert(record@.info_fields[i as int] == record.info_fields@[i as int]@);
        if record.info_fields[i].key_index as usize == key {
            return Some(&record.info_fields[i].value);
        }
        i = i + 1;
    }
    None
}

/// The value that `record` has for the info field `field_name`.
///
/// A name that the header does not declare is an error.  A record without
/// an entry for the field has no value, which is none.
pub fn extract<'a>(record: &'a Record, field_name: &str, dictionary: &Dictionary) -> (r: Result<
    Option<&'a TypedValue>,
    ExtractError,
>)
    ensures
        match extracted(record@, field_name@, dictionary@) {
            Ok(Some(v)) => r is Ok && r->Ok_0 is Some && r->Ok_0->0@ == v,
            Ok(None) => r is Ok && r->Ok_0 is None,
            Err(e) => r is Err && r->Err_0 == e,
        },
{
    match dictionary.index_of(field_name) {
        None => Err(ExtractError::UnknownFieldName),
        Some(key) => Ok(value_by_key(record, key)),
    }
}

/// The number that `value` gives to a sum.
pub fn first_integer(value: &TypedValue) -> (r: Result<Option<i32>, ExtractError>)
    ensures
        r == numeric_payload(value@),
{
    match value {
        TypedValue::Integer(elements) => if elements.len() > 0 {
            Ok(Some(elements[0]))
        } else {
            Ok(None)
        },
        TypedValue::Float(_) => Err(ExtractError::TypeMismatch),
        TypedValue::Character(_) => Err(ExtractError::TypeMismatch),
        TypedValue::String(_) => Err(ExtractError::TypeMismatch),
        TypedValue::Flag(_) => Err(ExtractError::TypeMismatch),
    }
}

/// The number that `record` gives to a sum over the info field
/// `field_name`.
///
/// A name that the header does not declare is an error, and so is a field
/// that the header does not declare as integer, whatever the record holds.
/// A record without an entry for the field gives nothing.
pub fn extract_numeric(record: &Record, field_name: &str, dictionary: &Dictionary) -> (r: Result<
    Option<i32>,
    ExtractError,
>)
    ensures
        r == extracted_number(record@, field_name@, dictionary@),
{
    let (key, declared) = match dictionary.find(field_name) {
        None => (0, None),
        Some((key, field)) => (key, Some(field.value_type)),
    };
    match check_integer_field(declared) {
        Err(e) => {
            return Err(e);
        },
        Ok(_) => {},
    }
    match value_by_key(record, key) {
        None => Ok(None),
        Some(value) => first_integer(value),
    }
}

/// Decides by the declared type of a field, or by its absence, whether its
/// numbers can be asked for.
pub fn check_integer_field(declared: Option<ValueType>) -> (r: Result<(), ExtractError>)
    ensures
        r == integer_field(declared),
{
    match declared {
        None => Err(ExtractError::UnknownFieldName),
        Some(ValueType::Integer) => Ok(()),
        Some(ValueType::Float) => Err(ExtractError::TypeMismatch),
        Some(ValueType::Character) => Err(ExtractError::TypeMismatch),
        Some(ValueType::String) => Err(ExtractError::TypeMismatch),
        Some(ValueType::Flag) => Err(ExtractError::TypeMismatch),
    }
}

/// Decides by the declared type of a field, or by its absence, whether its
/// single-precision numbers can be asked for.
pub fn check_float_field(declared: Option<ValueType>) -> (r: Result<(), ExtractError>)
    ensures
        r == float_field(declared),
{
    match declared {
        None => Err(ExtractError::UnknownFieldName),
        Some(ValueType::Float) => Ok(()),
        Some(ValueType::Integer) => Err(ExtractError::TypeMismatch),
        Some(ValueType::Character) => Err(ExtractError::TypeMismatch),
        Some(ValueType::String) => Err(ExtractError::TypeMismatch),
        Some(ValueType::Flag) => Err(ExtractError::TypeMismatch),
    }
}

/// The bits of the number that `value` gives to a sum of single-precision
/// numbers.
pub fn first_float_bits(value: &TypedValue) -> (r: Result<Option<u32>, ExtractError>)
    ensures
        r == float_payload(value@),
{
    match value {
        TypedValue::Float(elements) => if elements.len() > 0 {
            Ok(Some(elements[0]))
        } else {
            Ok(None)
        },
        TypedValue::Integer(_) => Err(ExtractError::TypeMismatch),
        TypedValue::Character(_) => Err(ExtractError::TypeMismatch),
        TypedValue::String(_) => Err(ExtractError::TypeMismatch),
        TypedValue::Flag(_) => Err(ExtractError::TypeMismatch),
    }
}

/// The bits of the number that `record` gives to a sum of single-precision
/// numbers over the info field `field_name`.
///
/// A name that the header does not declare is an error, and so is a field
/// that the header does not declare as float, whatever the record holds.
/// A record without an entry for the field gives nothing.
pub fn extract_float(record: &Record, field_name: &str, dictionary: &Dictionary) -> (r: Result<
    Option<u32>,
    ExtractError,
>)
    ensures
        r == extracted_float(record@, field_name@, dictionary@),
{
    let (key, declared) = match dictionary.find(field_name) {
        None => (0, None),
        Some((key, field)) => (key, Some(field.value_type)),
    };
    match check_float_field(declared) {
        Err(e) => {
            return Err(e);
        },
        Ok(_) => {},
    }
    match value_by_key(record, key) {
        None => Ok(None),
        Some(value) => first_float_bits(value),
    }
}

} // verus!
