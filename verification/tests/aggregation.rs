use variant_fields::aggregate::Aggregator;
use variant_fields::error::{
    DecodeError, EmptyAggregateError, Error, ExtractError, FormatError, HeaderError,
};
use variant_fields::cursor::ByteCursor;
use variant_fields::pipeline::compute_field_average;
use variant_fields::record::TypedValue;
use variant_fields::validator::validate;

fn le16(n: u16) -> Vec<u8> {
    n.to_le_bytes().to_vec()
}

fn le32(n: u32) -> Vec<u8> {
    n.to_le_bytes().to_vec()
}

fn text(s: &str) -> Vec<u8> {
    let mut out = le32(s.len() as u32);
    out.extend_from_slice(s.as_bytes());
    out
}

fn container_of(signature: &[u8], header: &str, records: &[Vec<u8>]) -> Vec<u8> {
    let mut out = signature.to_vec();
    out.extend(text(header));
    for r in records {
        out.extend_from_slice(r);
    }
    out
}

fn container(header: &str, records: &[Vec<u8>]) -> Vec<u8> {
    container_of(b"BCF\x02\x02", header, records)
}

fn record(entries: &[Vec<u8>]) -> Vec<u8> {
    let mut out = le32(0);
    out.extend(le32(100));
    out.extend(le16(2));
    out.extend(le16(entries.len() as u16));
    out.extend(text("A"));
    out.extend(text("C"));
    for e in entries {
        out.extend_from_slice(e);
    }
    out
}

fn one_integer(key: u16, value: i32) -> Vec<u8> {
    let mut out = le16(key);
    out.extend_from_slice(&value.to_le_bytes());
    out
}

fn one_string(key: u16, value: &str) -> Vec<u8> {
    let mut out = le16(key);
    out.extend(le16(value.len() as u16));
    out.extend_from_slice(value.as_bytes());
    out
}

const HEADER: &str = "##contig=chr1,length=1000\n##INFO=AN,Number=1,Type=Integer\n##INFO=NOTE,Number=.,Type=String\n##INFO=DP,Number=1,Type=Integer\n";

#[test]
fn numbers_are_counted_and_added() {
    let mut a = Aggregator::new();
    assert_eq!(a.count(), 0);
    assert_eq!(a.sum(), 0);
    a.observe_number(Some(10));
    a.observe_number(None);
    a.observe_number(Some(-25));
    a.observe_number(Some(0));
    a.observe_number(None);
    assert_eq!(a.count(), 3);
    assert_eq!(a.sum(), -15);
    let s = a.finalize().unwrap();
    assert_eq!(s.count(), 3);
    assert_eq!(s.sum(), -15);
    assert_eq!(s.mean_floor(), -5);
    assert_eq!(s.sum() as f64 / s.count() as f64, -5.0);
}

#[test]
fn nothing_observed_has_no_mean() {
    assert_eq!(Aggregator::new().finalize(), Err(EmptyAggregateError));
    let mut a = Aggregator::new();
    a.observe_number(None);
    a.observe_number(None);
    assert_eq!(a.finalize(), Err(EmptyAggregateError));
    let mut zero = Aggregator::new();
    zero.observe_number(Some(0));
    let s = zero.finalize().unwrap();
    assert_eq!((s.sum(), s.count()), (0, 1));
}

#[test]
fn the_sum_outgrows_the_numbers() {
    let mut a = Aggregator::new();
    for _ in 0..5 {
        a.observe_number(Some(i32::MAX));
    }
    assert_eq!(a.sum(), 5 * i32::MAX as i128);
    let mut b = Aggregator::new();
    for _ in 0..5 {
        b.observe_number(Some(i32::MIN));
    }
    assert_eq!(b.sum(), 5 * i32::MIN as i128);
    assert_eq!(b.finalize().unwrap().mean_floor(), i32::MIN as i128);
}

#[test]
fn the_mean_is_rounded_down() {
    let cases: [(&[i32], i128); 7] = [
        (&[10, 20, 30], 20),
        (&[7, 0], 3),
        (&[-7, 0], -4),
        (&[-3, -3], -3),
        (&[1, 0, 0], 0),
        (&[-1, 0, 0], -1),
        (&[5], 5),
    ];
    for (numbers, mean) in cases {
        let mut a = Aggregator::new();
        for n in numbers {
            a.observe_number(Some(*n));
        }
        assert_eq!(a.finalize().unwrap().mean_floor(), mean);
    }
}

#[test]
fn equal_bytes_give_equal_results() {
    let bytes = container(
        HEADER,
        &[
            record(&[one_integer(0, 4)]),
            record(&[one_integer(2, 9), one_integer(0, -6)]),
            record(&[one_string(1, "x")]),
        ],
    );
    let copy = bytes.clone();
    let first = compute_field_average(&bytes, "AN");
    assert_eq!(first, compute_field_average(&bytes, "AN"));
    assert_eq!(first, compute_field_average(&copy, "AN"));
    let s = first.unwrap();
    assert_eq!((s.sum(), s.count()), (-2, 2));
    let failing = &bytes[..bytes.len() - 1];
    assert_eq!(compute_field_average(failing, "AN"), compute_field_average(failing, "AN"));
    assert_eq!(compute_field_average(failing, "AN"), Err(Error::TruncatedInput));
}

#[test]
fn no_record_with_the_field_is_an_empty_aggregate() {
    assert_eq!(compute_field_average(&container(HEADER, &[]), "AN"), Err(Error::EmptyAggregateError));
    let bytes = container(HEADER, &[record(&[]), record(&[one_integer(2, 1)]), record(&[one_string(1, "AN")])]);
    assert_eq!(compute_field_average(&bytes, "AN"), Err(Error::EmptyAggregateError));
    let s = compute_field_average(&bytes, "DP").unwrap();
    assert_eq!((s.sum(), s.count()), (1, 1));
}

#[test]
fn a_mean_of_zero_is_a_mean() {
    let bytes = container(HEADER, &[record(&[one_integer(0, 5)]), record(&[one_integer(0, -5)])]);
    let s = compute_field_average(&bytes, "AN").unwrap();
    assert_eq!((s.sum(), s.count(), s.mean_floor()), (0, 2, 0));
}

#[test]
fn a_string_field_has_no_mean() {
    let with = container(HEADER, &[record(&[one_string(1, "12")])]);
    assert_eq!(compute_field_average(&with, "NOTE"), Err(Error::TypeMismatch));
    let without = container(HEADER, &[record(&[one_integer(0, 1)])]);
    assert_eq!(compute_field_average(&without, "NOTE"), Err(Error::TypeMismatch));
    assert_eq!(compute_field_average(&container(HEADER, &[]), "NOTE"), Err(Error::TypeMismatch));
    let others = "##INFO=F,Number=1,Type=Float\n##INFO=C,Number=1,Type=Character\n##INFO=B,Number=0,Type=Flag\n";
    for name in ["F", "C", "B"] {
        assert_eq!(compute_field_average(&container(others, &[]), name), Err(Error::TypeMismatch));
    }
}

#[test]
fn a_name_that_is_not_declared_fails_before_any_record() {
    let mut bytes = container(HEADER, &[]);
    bytes.extend_from_slice(&[1, 2, 3]);
    assert_eq!(compute_field_average(&bytes, "XYZ"), Err(Error::UnknownFieldName));
    assert_eq!(compute_field_average(&bytes, ""), Err(Error::UnknownFieldName));
    assert_eq!(compute_field_average(&bytes, "AN"), Err(Error::TruncatedInput));
    let format_only = container("##FORMAT=GT,Number=1,Type=Integer\n", &[]);
    assert_eq!(compute_field_average(&format_only, "GT"), Err(Error::UnknownFieldName));
}

#[test]
fn an_undeclared_key_ends_the_whole_computation() {
    let bytes = container(
        HEADER,
        &[record(&[one_integer(0, 1)]), record(&[one_integer(3, 2)]), record(&[one_integer(0, 3)])],
    );
    assert_eq!(compute_field_average(&bytes, "AN"), Err(Error::UnknownKeyIndex));
    assert_eq!(compute_field_average(&bytes, "DP"), Err(Error::UnknownKeyIndex));
}

#[test]
fn a_bad_value_ends_the_whole_computation() {
    let mut bad = le16(1);
    bad.extend(le16(1));
    bad.push(0xFF);
    let bytes = container(HEADER, &[record(&[one_integer(0, 1)]), record(&[bad])]);
    assert_eq!(compute_field_average(&bytes, "AN"), Err(Error::TypeDecodeError));
}

#[test]
fn the_signature_must_be_exact() {
    let records = [record(&[one_integer(0, 1)])];
    assert!(compute_field_average(&container_of(b"BCF\x02\x02", HEADER, &records), "AN").is_ok());
    for bad in [&b"BCG\x02\x02"[..], b"bcf\x02\x02", b"VCF\x02\x02", b"\x00BCF\x02", b"BAM\x01\x00"] {
        assert_eq!(
            compute_field_average(&container_of(bad, HEADER, &records), "AN"),
            Err(Error::BadMagic)
        );
    }
    assert_eq!(compute_field_average(b"XYZ", "AN"), Err(Error::BadMagic));
    assert_eq!(compute_field_average(b"BC", "AN"), Err(Error::TruncatedInput));
    assert_eq!(compute_field_average(b"", "AN"), Err(Error::TruncatedInput));
    assert_eq!(compute_field_average(b"XY", "AN"), Err(Error::TruncatedInput));
    assert_eq!(compute_field_average(b"BCF", "AN"), Err(Error::TruncatedInput));
    assert_eq!(compute_field_average(b"BCF\x02", "AN"), Err(Error::TruncatedInput));
    assert_eq!(compute_field_average(b"BCF\x03", "AN"), Err(Error::TruncatedInput));
    assert_eq!(compute_field_average(b"BCF\x02\x02", "AN"), Err(Error::TruncatedInput));
}

#[test]
fn a_later_major_version_is_refused_and_the_minor_is_not_looked_at() {
    let records = [record(&[one_integer(0, 8)])];
    for accepted in [&b"BCF\x02\x02"[..], b"BCF\x02\x00", b"BCF\x02\xFF", b"BCF\x01\x07", b"BCF\x00\x00"] {
        let s = compute_field_average(&container_of(accepted, HEADER, &records), "AN").unwrap();
        assert_eq!((s.sum(), s.count()), (8, 1));
    }
    for refused in [&b"BCF\x03\x00"[..], b"BCF\x03\x02", b"BCF\xFF\x02"] {
        assert_eq!(
            compute_field_average(&container_of(refused, HEADER, &records), "AN"),
            Err(Error::UnsupportedVersion)
        );
    }
}

#[test]
fn the_check_of_the_format_moves_behind_the_version() {
    let bytes = b"BCF\x02\x01rest";
    let mut stream = ByteCursor::new(bytes);
    assert_eq!(validate(&mut stream), Ok(()));
    assert_eq!(stream.position(), 5);
    let mut stream = ByteCursor::new(b"BCF\x09\x01rest");
    assert_eq!(validate(&mut stream), Err(FormatError::UnsupportedVersion));
    assert_eq!(stream.position(), 0);
    let mut stream = ByteCursor::new(b"BCX\x02\x01rest");
    assert_eq!(validate(&mut stream), Err(FormatError::BadMagic));
    assert_eq!(stream.position(), 0);
    let mut stream = ByteCursor::new(b"BCF\x02");
    assert_eq!(validate(&mut stream), Err(FormatError::TruncatedInput));
    assert_eq!(stream.position(), 0);
}

#[test]
fn a_bad_header_ends_the_computation() {
    assert_eq!(
        compute_field_average(&container("##INFO=AN,Number=1,Type=Int\n", &[]), "AN"),
        Err(Error::MalformedHeaderLine)
    );
    assert_eq!(
        compute_field_average(
            &container("##INFO=AN,Number=1,Type=Integer\n##INFO=AN,Number=1,Type=Integer\n", &[]),
            "AN"
        ),
        Err(Error::DuplicateFieldName)
    );
    let mut cut = b"BCF\x02\x02".to_vec();
    cut.extend(le32(100));
    cut.extend_from_slice(b"##INFO=AN,Number=1,Type=Integer\n");
    assert_eq!(compute_field_average(&cut, "AN"), Err(Error::TruncatedInput));
}

#[test]
fn every_kind_of_failure_has_its_name() {
    let all = [
        (Error::BadMagic, "BadMagic"),
        (Error::UnsupportedVersion, "UnsupportedVersion"),
        (Error::MalformedHeaderLine, "MalformedHeaderLine"),
        (Error::DuplicateFieldName, "DuplicateFieldName"),
        (Error::TruncatedInput, "TruncatedInput"),
        (Error::UnknownKeyIndex, "UnknownKeyIndex"),
        (Error::TypeDecodeError, "TypeDecodeError"),
        (Error::UnknownFieldName, "UnknownFieldName"),
        (Error::TypeMismatch, "TypeMismatch"),
        (Error::EmptyAggregateError, "EmptyAggregateError"),
    ];
    for (e, name) in all {
        assert_eq!(e.name(), name);
    }
    assert_eq!(FormatError::TruncatedInput.lift(), Error::TruncatedInput);
    assert_eq!(FormatError::BadMagic.lift(), Error::BadMagic);
    assert_eq!(FormatError::UnsupportedVersion.lift(), Error::UnsupportedVersion);
    assert_eq!(HeaderError::TruncatedInput.lift(), Error::TruncatedInput);
    assert_eq!(HeaderError::MalformedHeaderLine.lift(), Error::MalformedHeaderLine);
    assert_eq!(HeaderError::DuplicateFieldName.lift(), Error::DuplicateFieldName);
    assert_eq!(DecodeError::TruncatedInput.lift(), Error::TruncatedInput);
    assert_eq!(DecodeError::UnknownKeyIndex.lift(), Error::UnknownKeyIndex);
    assert_eq!(DecodeError::TypeDecodeError.lift(), Error::TypeDecodeError);
    assert_eq!(ExtractError::UnknownFieldName.lift(), Error::UnknownFieldName);
    assert_eq!(ExtractError::TypeMismatch.lift(), Error::TypeMismatch);
}

#[test]
fn values_are_observed_by_their_first_element() {
    let mut a = Aggregator::new();
    assert_eq!(a.observe(Some(&TypedValue::Integer(vec![10, 99]))), Ok(()));
    assert_eq!(a.observe(None), Ok(()));
    assert_eq!(a.observe(Some(&TypedValue::Integer(vec![]))), Ok(()));
    assert_eq!(a.observe(Some(&TypedValue::Integer(vec![-4]))), Ok(()));
    assert_eq!((a.sum(), a.count()), (6, 2));
    for other in [
        TypedValue::String("7".to_string()),
        TypedValue::Float(vec![7.0f32.to_bits()]),
        TypedValue::Character(vec!['7']),
        TypedValue::Flag(true),
    ] {
        assert_eq!(a.observe(Some(&other)), Err(ExtractError::TypeMismatch));
        assert_eq!((a.sum(), a.count()), (6, 2));
    }
    let s = a.finalize().unwrap();
    assert_eq!((s.sum(), s.count(), s.mean_floor()), (6, 2, 3));
}
