use variant_fields::cursor::ByteCursor;
use variant_fields::dictionary::{Cardinality, Contig, Dictionary, FieldDescriptor, ValueType};
use variant_fields::error::HeaderError;
use variant_fields::header::{parse, parse_declaration, parse_header_text, Declaration};

fn dictionary_of(text: &str) -> Dictionary {
    match parse_header_text(text.as_bytes()) {
        Ok(d) => d,
        Err(e) => panic!("refused: {:?}", e),
    }
}

fn refusal_of(text: &[u8]) -> HeaderError {
    match parse_header_text(text) {
        Ok(_) => panic!("accepted"),
        Err(e) => e,
    }
}

fn field(name: &str, cardinality: Cardinality, value_type: ValueType) -> FieldDescriptor {
    FieldDescriptor { name: name.to_string(), cardinality, value_type }
}

#[test]
fn declarations_are_kept_in_their_order() {
    let d = dictionary_of(
        "##contig=chr1,length=1000\n##INFO=AN,Number=1,Type=Integer\n##contig=chr2,length=5\n##INFO=AF,Number=A,Type=Float\n",
    );
    assert_eq!(d.contig_count(), 2);
    assert_eq!(d.contig(0), Some(&Contig { name: "chr1".to_string(), length: 1000 }));
    assert_eq!(d.contig(1), Some(&Contig { name: "chr2".to_string(), length: 5 }));
    assert_eq!(d.contig(2), None);
    assert_eq!(d.info().len(), 2);
    assert_eq!(d.format().len(), 0);
    assert_eq!(d.resolve(0), Some(&field("AN", Cardinality::Fixed(1), ValueType::Integer)));
    assert_eq!(d.resolve(1), Some(&field("AF", Cardinality::PerAltAllele, ValueType::Float)));
    assert_eq!(d.resolve(2), None);
    assert_eq!(d.index_of("AN"), Some(0));
    assert_eq!(d.index_of("AF"), Some(1));
    assert_eq!(d.index_of("DP"), None);
    assert_eq!(d.index_of(""), None);
}

#[test]
fn name_and_index_lead_to_each_other() {
    let d = dictionary_of(
        "##INFO=A,Number=1,Type=Integer\n##INFO=B,Number=1,Type=Flag\n##INFO=C,Number=.,Type=String\n",
    );
    assert_eq!(d.find("B"), Some((1, &field("B", Cardinality::Fixed(1), ValueType::Flag))));
    assert_eq!(d.find("D"), None);
    assert_eq!(d.format().find("A"), None);
    for i in 0..d.info().len() {
        let name = d.resolve(i).unwrap().name.clone();
        assert_eq!(d.index_of(&name), Some(i));
        assert_eq!(d.find(&name), Some((i, d.resolve(i).unwrap())));
        assert_eq!(d.info().index_of(&name), Some(i));
        assert_eq!(d.info().resolve(i).unwrap().name, name);
    }
}

#[test]
fn every_count_token_is_read() {
    let d = dictionary_of(
        "##INFO=a,Number=1,Type=Integer\n##INFO=b,Number=0,Type=Flag\n##INFO=c,Number=A,Type=Integer\n##INFO=d,Number=G,Type=Integer\n##INFO=e,Number=.,Type=Integer\n##INFO=f,Number=4294967295,Type=Integer\n##INFO=g,Number=007,Type=Integer\n",
    );
    assert_eq!(d.resolve(0).unwrap().cardinality, Cardinality::Fixed(1));
    assert_eq!(d.resolve(1).unwrap().cardinality, Cardinality::Fixed(0));
    assert_eq!(d.resolve(2).unwrap().cardinality, Cardinality::PerAltAllele);
    assert_eq!(d.resolve(3).unwrap().cardinality, Cardinality::PerGenotype);
    assert_eq!(d.resolve(4).unwrap().cardinality, Cardinality::Variable);
    assert_eq!(d.resolve(5).unwrap().cardinality, Cardinality::Fixed(u32::MAX));
    assert_eq!(d.resolve(6).unwrap().cardinality, Cardinality::Fixed(7));
}

#[test]
fn every_type_token_is_read() {
    let d = dictionary_of(
        "##INFO=a,Number=1,Type=Integer\n##INFO=b,Number=1,Type=Float\n##INFO=c,Number=1,Type=Character\n##INFO=d,Number=1,Type=String\n##INFO=e,Number=0,Type=Flag\n",
    );
    assert_eq!(d.resolve(0).unwrap().value_type, ValueType::Integer);
    assert_eq!(d.resolve(1).unwrap().value_type, ValueType::Float);
    assert_eq!(d.resolve(2).unwrap().value_type, ValueType::Character);
    assert_eq!(d.resolve(3).unwrap().value_type, ValueType::String);
    assert_eq!(d.resolve(4).unwrap().value_type, ValueType::Flag);
}

#[test]
fn info_and_format_fields_are_numbered_apart() {
    let d = dictionary_of(
        "##FORMAT=GT,Number=1,Type=String\n##INFO=DP,Number=1,Type=Integer\n##FORMAT=DP,Number=1,Type=Integer\n##INFO=AN,Number=1,Type=Integer\n",
    );
    assert_eq!(d.info().len(), 2);
    assert_eq!(d.format().len(), 2);
    assert_eq!(d.index_of("DP"), Some(0));
    assert_eq!(d.index_of("AN"), Some(1));
    assert_eq!(d.index_of("GT"), None);
    assert_eq!(d.format().index_of("GT"), Some(0));
    assert_eq!(d.format().index_of("DP"), Some(1));
    assert_eq!(d.format().index_of("AN"), None);
    assert_eq!(d.format().resolve(1), Some(&field("DP", Cardinality::Fixed(1), ValueType::Integer)));
}

#[test]
fn a_name_declared_twice_in_one_kind_is_refused() {
    assert_eq!(
        refusal_of(b"##INFO=AN,Number=1,Type=Integer\n##INFO=AN,Number=A,Type=Float\n"),
        HeaderError::DuplicateFieldName
    );
    assert_eq!(
        refusal_of(b"##FORMAT=GT,Number=1,Type=String\n##INFO=GT,Number=1,Type=String\n##FORMAT=GT,Number=1,Type=String\n"),
        HeaderError::DuplicateFieldName
    );
}

#[test]
fn two_contigs_may_have_one_name() {
    let d = dictionary_of("##contig=chr1,length=1\n##contig=chr1,length=2\n");
    assert_eq!(d.contig_count(), 2);
    assert_eq!(d.contig(1).unwrap().length, 2);
}

#[test]
fn a_line_that_is_no_declaration_is_refused() {
    let bad: [&[u8]; 22] = [
        b"#CHROM",
        b"##fileformat=VCFv4.3",
        b"##INFO=AN,Number=1",
        b"##INFO=AN,Number=1,Type=",
        b"##INFO=AN,Number=1,Type=integer",
        b"##INFO=AN,Number=1,Type=Integer ",
        b"##INFO=AN,Number=1,Type=Integer,Description=x",
        b"##INFO=AN,Number=,Type=Integer",
        b"##INFO=AN,Number=R,Type=Integer",
        b"##INFO=AN,Number=-1,Type=Integer",
        b"##INFO=AN,Number=1x,Type=Integer",
        b"##INFO=AN,Number=4294967296,Type=Integer",
        b"##INFO=,Number=1,Type=Integer",
        b"##INFO=AN,Type=Integer,Number=1",
        b"##INFO=AN",
        b"##INFO=",
        b"##info=AN,Number=1,Type=Integer",
        b" ##INFO=AN,Number=1,Type=Integer",
        b"##INFO=AN,Number=1,Type=Integer\r",
        b"##contig=chr1",
        b"##contig=chr1,length=",
        b"##contig=,length=5",
    ];
    for line in bad {
        assert_eq!(refusal_of(line), HeaderError::MalformedHeaderLine);
        assert_eq!(parse_declaration(line), None);
    }
    assert_eq!(refusal_of(b"##contig=chr1,length=12a"), HeaderError::MalformedHeaderLine);
    assert_eq!(
        refusal_of(b"##contig=chr1,length=18446744073709551616"),
        HeaderError::MalformedHeaderLine
    );
    assert_eq!(refusal_of(b"##INFO=\xFF,Number=1,Type=Integer"), HeaderError::MalformedHeaderLine);
}

#[test]
fn the_first_bad_line_decides() {
    assert_eq!(
        refusal_of(b"##INFO=AN,Number=1,Type=Integer\nnonsense\n##INFO=AN,Number=1,Type=Integer\n"),
        HeaderError::MalformedHeaderLine
    );
    assert_eq!(
        refusal_of(b"##INFO=AN,Number=1,Type=Integer\n##INFO=AN,Number=1,Type=Integer\nnonsense\n"),
        HeaderError::DuplicateFieldName
    );
}

#[test]
fn empty_lines_say_nothing() {
    let d = dictionary_of("\n\n##INFO=AN,Number=1,Type=Integer\n\n\n##contig=c,length=0\n\n");
    assert_eq!(d.info().len(), 1);
    assert_eq!(d.contig_count(), 1);
    let none = dictionary_of("");
    assert_eq!(none.info().len(), 0);
    assert_eq!(none.contig_count(), 0);
    let blank = dictionary_of("\n\n\n");
    assert_eq!(blank.format().len(), 0);
}

#[test]
fn the_last_line_needs_no_line_feed() {
    let d = dictionary_of("##contig=chr1,length=1000\n##INFO=AN,Number=1,Type=Integer");
    assert_eq!(d.index_of("AN"), Some(0));
    assert_eq!(d.contig(0).unwrap().length, 1000);
}

#[test]
fn a_name_may_hold_anything_but_a_comma() {
    let d = dictionary_of("##INFO=Größe=x y,Number=1,Type=Integer\n##contig=HLA-A*01:01,length=18446744073709551615\n");
    assert_eq!(d.index_of("Größe=x y"), Some(0));
    assert_eq!(d.contig(0), Some(&Contig { name: "HLA-A*01:01".to_string(), length: u64::MAX }));
}

#[test]
fn one_line_is_read_as_one_declaration() {
    assert_eq!(
        parse_declaration(b"##contig=chr1,length=1000"),
        Some(Declaration::Contig(Contig { name: "chr1".to_string(), length: 1000 }))
    );
    assert_eq!(
        parse_declaration(b"##INFO=AN,Number=1,Type=Integer"),
        Some(Declaration::Info(field("AN", Cardinality::Fixed(1), ValueType::Integer)))
    );
    assert_eq!(
        parse_declaration(b"##FORMAT=PL,Number=G,Type=Integer"),
        Some(Declaration::Format(field("PL", Cardinality::PerGenotype, ValueType::Integer)))
    );
    assert_eq!(parse_declaration(b""), None);
}

#[test]
fn the_header_block_is_a_length_and_that_much_text() {
    let text = "##INFO=AN,Number=1,Type=Integer\n";
    let mut bytes = (text.len() as u32).to_le_bytes().to_vec();
    bytes.extend_from_slice(text.as_bytes());
    bytes.extend_from_slice(b"rest");
    let mut stream = ByteCursor::new(&bytes);
    let d = match parse(&mut stream) {
        Ok(d) => d,
        Err(e) => panic!("refused: {:?}", e),
    };
    assert_eq!(d.index_of("AN"), Some(0));
    assert_eq!(stream.position(), 4 + text.len());
}

#[test]
fn a_header_block_cut_short_is_truncated() {
    let text = "##INFO=AN,Number=1,Type=Integer\n";
    let mut bytes = (text.len() as u32 + 1).to_le_bytes().to_vec();
    bytes.extend_from_slice(text.as_bytes());
    let mut stream = ByteCursor::new(&bytes);
    assert_eq!(parse(&mut stream).err(), Some(HeaderError::TruncatedInput));
    assert_eq!(stream.position(), 0);
    let mut stream = ByteCursor::new(&bytes[..3]);
    assert_eq!(parse(&mut stream).err(), Some(HeaderError::TruncatedInput));
    assert_eq!(stream.position(), 0);
}

#[test]
fn a_refused_header_leaves_the_cursor() {
    let text = "##INFO=AN,Number=1,Type=Integer\n##INFO=AN,Number=1,Type=Integer\n";
    let mut bytes = (text.len() as u32).to_le_bytes().to_vec();
    bytes.extend_from_slice(text.as_bytes());
    let mut stream = ByteCursor::new(&bytes);
    assert_eq!(parse(&mut stream).err(), Some(HeaderError::DuplicateFieldName));
    assert_eq!(stream.position(), 0);
}

#[test]
fn a_dictionary_is_built_declaration_by_declaration() {
    let mut d = Dictionary::new();
    d.add_contig(Contig { name: "chr1".to_string(), length: 10 });
    let d = match d.declare_info(field("AN", Cardinality::Fixed(1), ValueType::Integer)) {
        Ok(d) => d,
        Err(e) => panic!("refused: {:?}", e),
    };
    let d = match d.declare_format(field("AN", Cardinality::Variable, ValueType::String)) {
        Ok(d) => d,
        Err(e) => panic!("refused: {:?}", e),
    };
    let d = match d.declare_info(field("DP", Cardinality::PerAltAllele, ValueType::Integer)) {
        Ok(d) => d,
        Err(e) => panic!("refused: {:?}", e),
    };
    assert_eq!(d.contig_count(), 1);
    assert_eq!(d.index_of("AN"), Some(0));
    assert_eq!(d.index_of("DP"), Some(1));
    assert_eq!(d.format().index_of("AN"), Some(0));
    assert_eq!(d.format().resolve(0).unwrap().value_type, ValueType::String);
    assert_eq!(
        d.declare_info(field("AN", Cardinality::Variable, ValueType::Float)).err(),
        Some(HeaderError::DuplicateFieldName)
    );
    let again = Dictionary::new();
    let again = match again.declare_format(field("GT", Cardinality::Fixed(1), ValueType::String)) {
        Ok(d) => d,
        Err(e) => panic!("refused: {:?}", e),
    };
    assert_eq!(
        again.declare_format(field("GT", Cardinality::Fixed(1), ValueType::String)).err(),
        Some(HeaderError::DuplicateFieldName)
    );
}
