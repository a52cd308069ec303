use std::io;

use noodles::bcf;
use noodles::vcf;
use noodles::vcf::header::record::value::map::info::{Number, Type};
use noodles::vcf::header::record::value::map::{Contig, Filter, Info};
use noodles::vcf::variant::io::Write;
use noodles::vcf::variant::record::info::field::value::Array;
use noodles::vcf::variant::record::info::field::Value;
use noodles::vcf::variant::record_buf::info::field::Value as WrittenValue;
use noodles::vcf::variant::record_buf::Info as WrittenInfo;
use noodles::vcf::variant::RecordBuf;

use variant_fields::aggregate::{Aggregator, Summary};
use variant_fields::dictionary::ValueType;
use variant_fields::error::{Error, ExtractError};
use variant_fields::extract::check_integer_field;
use variant_fields::record::TypedValue;

type FilterLine = vcf::header::record::value::Map<Filter>;
type ContigLine = vcf::header::record::value::Map<Contig>;
type InfoLine = vcf::header::record::value::Map<Info>;

fn header() -> vcf::Header {
    vcf::Header::builder()
        .add_filter("PASS", FilterLine::pass())
        .add_contig("sq0", ContigLine::new())
        .add_info("AN", InfoLine::new(Number::Count(1), Type::Integer, "Total alleles"))
        .add_info("AC", InfoLine::new(Number::AlternateBases, Type::Integer, "Allele counts"))
        .add_info("NOTE", InfoLine::new(Number::Count(1), Type::String, "A remark"))
        .build()
}

fn record(start: usize, info: Vec<(&str, WrittenValue)>) -> RecordBuf {
    let info: WrittenInfo =
        info.into_iter().map(|(key, value)| (key.to_string(), Some(value))).collect();
    RecordBuf::builder()
        .set_reference_sequence_name("sq0")
        .set_variant_start(start.try_into().unwrap())
        .set_reference_bases("A")
        .set_alternate_bases(vec![String::from("C"), String::from("G")].into())
        .set_info(info)
        .build()
}

fn written(records: &[RecordBuf]) -> io::Result<Vec<u8>> {
    let header = header();
    let mut writer = bcf::io::Writer::new(Vec::new());
    writer.write_header(&header)?;
    for r in records {
        writer.write_variant_record(&header, r)?;
    }
    writer.into_inner().finish()
}

fn value_type(ty: Type) -> ValueType {
    match ty {
        Type::Integer => ValueType::Integer,
        Type::Float => ValueType::Float,
        Type::Flag => ValueType::Flag,
        Type::Character => ValueType::Character,
        Type::String => ValueType::String,
    }
}

fn elements<T>(values: impl Iterator<Item = io::Result<Option<T>>>) -> io::Result<Vec<T>> {
    values
        .map(|element| {
            element.and_then(|e| {
                e.ok_or_else(|| io::Error::new(io::ErrorKind::InvalidData, "a missing element"))
            })
        })
        .collect()
}

fn typed_value(value: Value<'_>) -> io::Result<TypedValue> {
    Ok(match value {
        Value::Integer(n) => TypedValue::Integer(vec![n]),
        Value::Float(x) => TypedValue::Float(vec![x.to_bits()]),
        Value::Flag => TypedValue::Flag(true),
        Value::Character(c) => TypedValue::Character(vec![c]),
        Value::String(s) => TypedValue::String(s.into_owned()),
        Value::Array(Array::Integer(values)) => TypedValue::Integer(elements(values.iter())?),
        Value::Array(Array::Float(values)) => {
            TypedValue::Float(elements(values.iter())?.into_iter().map(f32::to_bits).collect())
        }
        Value::Array(Array::Character(values)) => TypedValue::Character(elements(values.iter())?),
        Value::Array(Array::String(values)) => {
            let parts: Vec<String> =
                elements(values.iter())?.into_iter().map(|s| s.into_owned()).collect();
            TypedValue::String(parts.join(","))
        }
    })
}

/// What the library makes of the values that noodles finds for `field_name`.
fn average(bytes: &[u8], field_name: &str) -> Result<Summary, Error> {
    let mut reader = bcf::io::Reader::new(bytes);
    let header = reader.read_header().unwrap();
    let declared = header.infos().get(field_name).map(|declared| value_type(declared.ty()));
    check_integer_field(declared).map_err(ExtractError::lift)?;
    let mut aggregator = Aggregator::new();
    for result in reader.records() {
        let record = result.unwrap();
        let info = record.info();
        let value = match info.get(&header, field_name) {
            None => None,
            Some(found) => found.unwrap().map(typed_value).transpose().unwrap(),
        };
        aggregator.observe(value.as_ref()).map_err(ExtractError::lift)?;
    }
    aggregator.finalize().map_err(|_| Error::EmptyAggregateError)
}

#[test]
fn values_that_noodles_reads_are_counted_and_added() {
    let bytes = written(&[
        record(1, vec![("AN", WrittenValue::Integer(10))]),
        record(2, vec![("AC", WrittenValue::from(vec![Some(3), Some(4)])), ("AN", WrittenValue::Integer(20))]),
        record(3, vec![("NOTE", WrittenValue::String("x".to_string()))]),
        record(4, vec![("AN", WrittenValue::Integer(30))]),
    ])
    .unwrap();
    assert_eq!(&bytes[..2], &[0x1f, 0x8b]);
    let s = average(&bytes, "AN").unwrap();
    assert_eq!((s.sum(), s.count()), (60, 3));
    assert_eq!(s.sum() as f64 / s.count() as f64, 20.0);
    let s = average(&bytes, "AC").unwrap();
    assert_eq!((s.sum(), s.count()), (3, 1));
}

#[test]
fn a_string_that_noodles_reads_gives_no_number() {
    let bytes = written(&[
        record(1, vec![("AN", WrittenValue::Integer(10))]),
        record(2, vec![("NOTE", WrittenValue::String("12".to_string()))]),
    ])
    .unwrap();
    assert_eq!(average(&bytes, "NOTE"), Err(Error::TypeMismatch));
    assert_eq!(average(&bytes, "DP"), Err(Error::UnknownFieldName));
    let none = written(&[record(1, vec![]), record(2, vec![])]).unwrap();
    assert_eq!(average(&none, "AN"), Err(Error::EmptyAggregateError));
    assert_eq!(
        variant_fields::pipeline::compute_field_average(&bytes, "AN"),
        Err(Error::BadMagic)
    );
}
