use variant_fields::cursor::ByteCursor;
use variant_fields::decoder::next_record;
use variant_fields::error::{DecodeError, Error};
use variant_fields::header::parse;
use variant_fields::pipeline::compute_field_average;
use variant_fields::record::TypedValue;
use variant_fields::validator::validate;

fn le16(n: u16) -> Vec<u8> {
    n.to_le_bytes().to_vec()
}

fn le32(n: u32) -> Vec<u8> {
    n.to_le_bytes().to_vec()
}

fn text(s: &str) -> Vec<u8> {
    let mut out = le32(s.len() as u32);
    out.extend_from_slice(s.as_bytes());
    out
}

fn container(header: &str, records: &[Vec<u8>]) -> Vec<u8> {
    let mut out = b"BCF\x02\x02".to_vec();
    out.extend(text(header));
    for r in records {
        out.extend_from_slice(r);
    }
    out
}

fn record(contig: u32, position: u32, alleles: &[&str], entries: &[Vec<u8>]) -> Vec<u8> {
    let mut out = le32(contig);
    out.extend(le32(position));
    out.extend(le16(alleles.len() as u16));
    out.extend(le16(entries.len() as u16));
    for a in alleles {
        out.extend(text(a));
    }
    for e in entries {
        out.extend_from_slice(e);
    }
    out
}

fn fixed_integers(key: u16, values: &[i32]) -> Vec<u8> {
    let mut out = le16(key);
    for v in values {
        out.extend_from_slice(&v.to_le_bytes());
    }
    out
}

const HEADER: &str = "##contig=chr1,length=1000\n##INFO=AN,Number=1,Type=Integer\n";

#[test]
fn three_records_give_their_sum_and_mean() {
    let bytes = container(
        HEADER,
        &[
            record(0, 10, &["A", "C"], &[fixed_integers(0, &[10])]),
            record(0, 20, &["G", "T"], &[fixed_integers(0, &[20])]),
            record(0, 30, &["T", "TA"], &[fixed_integers(0, &[30])]),
        ],
    );
    let summary = compute_field_average(&bytes, "AN").unwrap();
    assert_eq!(summary.sum(), 60);
    assert_eq!(summary.count(), 3);
    assert_eq!(summary.sum() as f64 / summary.count() as f64, 20.0);
    assert_eq!(summary.mean_floor(), 20);
}

#[test]
fn a_record_without_the_field_is_passed_over() {
    let bytes = container(
        HEADER,
        &[
            record(0, 10, &["A", "C"], &[fixed_integers(0, &[5])]),
            record(0, 20, &["G", "T"], &[]),
            record(0, 30, &["T", "TA"], &[fixed_integers(0, &[15])]),
        ],
    );
    let summary = compute_field_average(&bytes, "AN").unwrap();
    assert_eq!(summary.sum(), 20);
    assert_eq!(summary.count(), 2);
    assert_eq!(summary.sum() as f64 / summary.count() as f64, 10.0);
}

#[test]
fn a_string_cut_short_is_truncated_input() {
    let whole = record(0, 10, &["ACGT", "C"], &[fixed_integers(0, &[10])]);
    // The fixed part, the length of the reference allele, and two of its four bytes.
    let cut = whole[..12 + 4 + 2].to_vec();
    let bytes = container(HEADER, &[record(0, 1, &["A"], &[fixed_integers(0, &[1])]), cut]);
    assert_eq!(compute_field_average(&bytes, "AN"), Err(Error::TruncatedInput));

    let mut stream = ByteCursor::new(&bytes);
    validate(&mut stream).unwrap();
    let dictionary = parse(&mut stream).unwrap();
    let first = next_record(&mut stream, &dictionary).unwrap().unwrap();
    assert_eq!(first.info_fields[0].value, TypedValue::Integer(vec![1]));
    let before = stream.position();
    assert_eq!(next_record(&mut stream, &dictionary), Err(DecodeError::TruncatedInput));
    assert_eq!(stream.position(), before);
}
