//! The header block: its grammar, as a function from text to the dictionary
//! that the text declares, and the parser.
//!
//! The text is split into lines at each line feed, and an empty line says
//! nothing.  Every other line is one of
//!
//! ```text
//! ##contig=NAME,length=DIGITS
//! ##INFO=NAME,Number=COUNT,Type=TYPE
//! ##FORMAT=NAME,Number=COUNT,Type=TYPE
//! ```
//!
//! where `NAME` is one byte or more of UTF-8 without a comma, `DIGITS` is a
//! number in base ten, `COUNT` is such a number or one of `A`, `G` and `.`,
//! and `TYPE` is one of `Integer`, `Float`, `Character`, `String` and `Flag`.
//! Info fields and format fields are numbered apart, each kind from 0 in
//! the order of the lines.

use vstd::prelude::*;
use vstd::slice::slice_subrange;
use vstd::string::*;
use vstd::utf8::{decode_utf8, valid_utf8};
use crate::cursor::{text_from_utf8, ByteCursor};
use crate::dictionary::{
    index_of_name,
    Cardinality,
    Contig,
    ContigModel,
    Dictionary,
    DictionaryModel,
    FieldDescriptor,
    FieldModel,
    ValueType,
};
use crate::error::HeaderError;
use crate::text::{
    ascii,
    decimal,
    find,
    find_byte,
    is_token,
    lemma_find_byte,
    match_tag,
    parse_decimal,
};
use crate::wire::{holds_at, le_u32};

verus! {

/// The byte that ends a name and a count.
pub const COMMA: u8 = 44;

/// The byte that ends a line.
pub const LINE_FEED: u8 = 10;

/// What a line that declares a contig starts with.
pub open spec fn contig_tag() -> Seq<u8> {
    ascii("##contig="@)
}

/// What a line that declares an info field starts with.
pub open spec fn info_tag() -> Seq<u8> {
    ascii("##INFO="@)
}

/// What a line that declares a format field starts with.
pub open spec fn format_tag() -> Seq<u8> {
    ascii("##FORMAT="@)
}

/// What stands between the name of a contig and its length.
pub open spec fn length_key() -> Seq<u8> {
    ascii(",length="@)
}

/// What stands between the name of a field and its count.
pub open spec fn number_key() -> Seq<u8> {
    ascii(",Number="@)
}

/// What stands between the count of a field and its type.
pub open spec fn type_key() -> Seq<u8> {
    ascii(",Type="@)
}

/// The name that `raw` writes.
pub open spec fn name_of(raw: Seq<u8>) -> Option<Seq<char>> {
    if raw.len() > 0 && valid_utf8(raw) {
        Some(decode_utf8(raw))
    } else {
        None
    }
}

/// The cardinality that a count token writes.
pub open spec fn cardinality_of(token: Seq<u8>) -> Option<Cardinality> {
    if token == ascii("A"@) {
        Some(Cardinality::PerAltAllele)
    } else if token == ascii("G"@) {
        Some(Cardinality::PerGenotype)
    } else if token == ascii("."@) {
        Some(Cardinality::Variable)
    } else {
        match decimal(token, u32::MAX as nat) {
            Some(n) => Some(Cardinality::Fixed(n as u32)),
            None => None,
        }
    }
}

/// The value type that a type token writes.
pub open spec fn value_type_of(token: Seq<u8>) -> Option<ValueType> {
    if token == ascii("Integer"@) {
        Some(ValueType::Integer)
    } else if token == ascii("Float"@) {
        Some(ValueType::Float)
    } else if token == ascii("Character"@) {
        Some(ValueType::Character)
    } else if token == ascii("String"@) {
        Some(ValueType::String)
    } else if token == ascii("Flag"@) {
        Some(ValueType::Flag)
    } else {
        None
    }
}

/// The contig that `line` declares behind its tag, which ends at `start`.
pub open spec fn contig_in(line: Seq<u8>, start: int) -> Option<ContigModel> {
    let name_end = find_byte(line, COMMA, start);
    let length_start = name_end + length_key().len();
    match name_of(line.subrange(start, name_end)) {
        None => None,
        Some(name) => if !holds_at(line, name_end, length_key()) {
            None
        } else {
            match decimal(line.subrange(length_start, line.len() as int), u64::MAX as nat) {
                None => None,
                Some(n) => Some(ContigModel { name, length: n as u64 }),
            }
        },
    }
}

/// The field that `line` declares behind its tag, which ends at `start`.
pub open spec fn field_in(line: Seq<u8>, start: int) -> Option<FieldModel> {
    let name_end = find_byte(line, COMMA, start);
    let number_start = name_end + number_key().len();
    let number_end = find_byte(line, COMMA, number_start);
    let type_start = number_end + type_key().len();
    match name_of(line.subrange(start, name_end)) {
        None => None,
        Some(name) => if !holds_at(line, name_end, number_key()) {
            None
        } else {
            match cardinality_of(line.subrange(number_start, number_end)) {
                None => None,
                Some(cardinality) => if !holds_at(line, number_end, type_key()) {
                    None
                } else {
                    match value_type_of(line.subrange(type_start, line.len() as int)) {
                        None => None,
                        Some(value_type) => Some(FieldModel { name, cardinality, value_type }),
                    }
                },
            }
        },
    }
}

/// What one line of a header declares.
#[derive(Clone, Debug, PartialEq, Eq)]
pub enum Declaration {
    Contig(Contig),
    Info(FieldDescriptor),
    Format(FieldDescriptor),
}

/// The mathematical content of a [`Declaration`].
pub enum DeclarationModel {
    Contig(ContigModel),
    Info(FieldModel),
    Format(FieldModel),
}

impl View for Declaration {
    type V = DeclarationModel;

    open spec fn view(&self) -> DeclarationModel {
        match self {
            Declaration::Contig(c) => DeclarationModel::Contig(c@),
            Declaration::Info(f) => DeclarationModel::Info(f@),
            Declaration::Format(f) => DeclarationModel::Format(f@),
        }
    }
}

/// What the line `line` declares, if it is a declaration.
#[verifier::opaque]
pub open spec fn declaration_of(line: Seq<u8>) -> Option<DeclarationModel> {
    if holds_at(line, 0, contig_tag()) {
        match contig_in(line, contig_tag().len() as int) {
            Some(c) => Some(DeclarationModel::Contig(c)),
            None => None,
        }
    } else if holds_at(line, 0, info_tag()) {
        match field_in(line, info_tag().len() as int) {
            Some(f) => Some(DeclarationModel::Info(f)),
            None => None,
        }
    } else if holds_at(line, 0, format_tag()) {
        match field_in(line, format_tag().len() as int) {
            Some(f) => Some(DeclarationModel::Format(f)),
            None => None,
        }
    } else {
        None
    }
}

/// The dictionary `d` with `declaration` added to it.  A field whose name
/// a field of its kind has already is refused.
pub open spec fn with_declaration(d: DictionaryModel, declaration: DeclarationModel) -> Result<
    DictionaryModel,
    HeaderError,
> {
    match declaration {
        DeclarationModel::Contig(c) => Ok(DictionaryModel { contigs: d.contigs.push(c), ..d }),
        DeclarationModel::Info(f) => if index_of_name(d.info, f.name) is Some {
            Err(HeaderError::DuplicateFieldName)
        } else {
            Ok(DictionaryModel { info: d.info.push(f), ..d })
        },
        DeclarationModel::Format(f) => if index_of_name(d.format, f.name) is Some {
            Err(HeaderError::DuplicateFieldName)
        } else {
            Ok(DictionaryModel { format: d.format.push(f), ..d })
        },
    }
}

/// The dictionary `d` with what `line` declares added to it.
pub open spec fn with_line(d: DictionaryModel, line: Seq<u8>) -> Result<
    DictionaryModel,
    HeaderError,
> {
    if line.len() == 0 {
        Ok(d)
    } else {
        match declaration_of(line) {
            None => Err(HeaderError::MalformedHeaderLine),
            Some(declaration) => with_declaration(d, declaration),
        }
    }
}

/// The dictionary `d` with what the lines of `text` from `at` on declare
/// added to it.
pub open spec fn header_from(text: Seq<u8>, at: int, d: DictionaryModel) -> Result<
    DictionaryModel,
    HeaderError,
>
    decreases text.len() + 1 - at,
{
    if at < 0 || at >= text.len() {
        Ok(d)
    } else {
        let end = find_byte(text, LINE_FEED, at);
        match with_line(d, text.subrange(at, end)) {
            Err(e) => Err(e),
            Ok(next) => {
                proof {
                    lemma_find_byte(text, LINE_FEED, at);
                }
                header_from(text, end + 1, next)
            },
        }
    }
}

/// The dictionary that declares nothing.
pub open spec fn empty_dictionary() -> DictionaryModel {
    DictionaryModel { contigs: Seq::empty(), info: Seq::empty(), format: Seq::empty() }
}

/// The dictionary that the header text `text` declares.
pub open spec fn header_of(text: Seq<u8>) -> Result<DictionaryModel, HeaderError> {
    header_from(text, 0, empty_dictionary())
}

/// The dictionary that the header block at `at` declares, and the position
/// behind the block: a 32-bit length, then that many bytes of text.
pub open spec fn header_at(s: Seq<u8>, at: int) -> Result<(DictionaryModel, int), HeaderError> {
    if at + 4 > s.len() {
        Err(HeaderError::TruncatedInput)
    } else {
        let end = at + 4 + le_u32(s, at);
        if end > s.len() {
            Err(HeaderError::TruncatedInput)
        } else {
            match header_of(s.subrange(at + 4, end)) {
                Err(e) => Err(e),
                Ok(d) => Ok((d, end)),
            }
        }
    }
}

/// Reads the bytes of `line` from `from` up to `to` as a name.
fn parse_name(line: &[u8], from: usize, to: usize) -> (name: Option<String>)
    requires
        from <= to <= line@.len(),
    ensures
        match name_of(line@.subrange(from as int, to as int)) {
            Some(n) => name is Some && name->0@ == n,
            None => name is None,
        },
{
    if from == to {
        return None;
    }
    text_from_utf8(slice_subrange(line, from, to))
}

/// Reads the bytes of `line` from `from` up to `to` as a count token.
fn parse_cardinality(line: &[u8], from: usize, to: usize) -> (c: Option<Cardinality>)
    requires
        from <= to <= line@.len(),
    ensures
        c == cardinality_of(line@.subrange(from as int, to as int)),
{
    proof {
        reveal_strlit("A");
        reveal_strlit("G");
        reveal_strlit(".");
    }
    if is_token(line, from, to, "A") {
        Some(Cardinality::PerAltAllele)
    } else if is_token(line, from, to, "G") {
        Some(Cardinality::PerGenotype)
    } else if is_token(line, from, to, ".") {
        Some(Cardinality::Variable)
    } else {
        match parse_decimal(line, from, to, 0xFFFF_FFFF) {
            Some(n) => Some(Cardinality::Fixed(n as u32)),
            None => None,
        }
    }
}

/// Reads the bytes of `line` from `from` up to `to` as a type token.
fn parse_value_type(line: &[u8], from: usize, to: usize) -> (t: Option<ValueType>)
    requires
        from <= to <= line@.len(),
    ensures
        t == value_type_of(line@.subrange(from as int, to as int)),
{
    proof {
        reveal_strlit("Integer");
        reveal_strlit("Float");
        reveal_strlit("Character");
        reveal_strlit("String");
        reveal_strlit("Flag");
    }
    if is_token(line, from, to, "Integer") {
        Some(ValueType::Integer)
    } else if is_token(line, from, to, "Float") {
        Some(ValueType::Float)
    } else if is_token(line, from, to, "Character") {
        Some(ValueType::Character)
    } else if is_token(line, from, to, "String") {
        Some(ValueType::String)
    } else if is_token(line, from, to, "Flag") {
        Some(ValueType::Flag)
    } else {
        None
    }
}

/// Reads what stands in `line` from `start` on as the declaration of a
/// contig.
fn parse_contig(line: &[u8], start: usize) -> (c: Option<Contig>)
    requires
        start <= line@.len(),
    ensures
        match contig_in(line@, start as int) {
            Some(m) => c is Some && c->0@ == m,
            None => c is None,
        },
{
    proof {
        reveal_strlit(",length=");
    }
    let name_end = find(line, COMMA, start);
    let name = match parse_name(line, start, name_end) {
        None => {
            return None;
        },
        Some(name) => name,
    };
    let length_start = match match_tag(line, name_end, ",length=") {
        None => {
            return None;
        },
        Some(next) => next,
    };
    match parse_decimal(line, length_start, line.len(), u64::MAX) {
        None => None,
        Some(length) => Some(Contig { name, length }),
    }
}

/// Reads what stands in `line` from `start` on as the declaration of a
/// field.
fn parse_field(line: &[u8], start: usize) -> (f: Option<FieldDescriptor>)
    requires
        start <= line@.len(),
    ensures
        match field_in(line@, start as int) {
            Some(m) => f is Some && f->0@ == m,
            None => f is None,
        },
{
    proof {
        reveal_strlit(",Number=");
        reveal_strlit(",Type=");
    }
    let name_end = find(line, COMMA, start);
    let name = match parse_name(line, start, name_end) {
        None => {
            return None;
        },
        Some(name) => name,
    };
    let number_start = match match_tag(line, name_end, ",Number=") {
        None => {
            return None;
        },
        Some(next) => next,
    };
    let number_end = find(line, COMMA, number_start);
    let cardinality = match parse_cardinality(line, number_start, number_end) {
        None => {
            return None;
        },
        Some(cardinality) => cardinality,
    };
    let type_start = match match_tag(line, number_end, ",Type=") {
        None => {
            return None;
        },
        Some(next) => next,
    };
    match parse_value_type(line, type_start, line.len()) {
        None => None,
        Some(value_type) => Some(FieldDescriptor { name, cardinality, value_type }),
    }
}

/// Reads one line of header text as a declaration.
pub fn parse_declaration(line: &[u8]) -> (d: Option<Declaration>)
    ensures
        match declaration_of(line@) {
            Some(m) => d is Some && d->0@ == m,
            None => d is None,
        },
{
    proof {
        reveal(declaration_of);
        reveal_strlit("##contig=");
        reveal_strlit("##INFO=");
        reveal_strlit("##FORMAT=");
    }
    if let Some(start) = match_tag(line, 0, "##contig=") {
        match parse_contig(line, start) {
            Some(c) => Some(Declaration::Contig(c)),
            None => None,
        }
    } else if let Some(start) = match_tag(line, 0, "##INFO=") {
        match parse_field(line, start) {
            Some(f) => Some(Declaration::Info(f)),
            None => None,
        }
    } else if let Some(start) = match_tag(line, 0, "##FORMAT=") {
        match parse_field(line, start) {
            Some(f) => Some(Declaration::Format(f)),
            None => None,
        }
    } else {
        None
    }
}

/// Reads header text into the dictionary that it declares.
///
/// The first line that is no declaration, or that declares a name again
/// among the fields of its kind, ends the reading with its error.
pub fn parse_header_text(text: &[u8]) -> (r: Result<Dictionary, HeaderError>)
    ensures
        match header_of(text@) {
            Ok(d) => r is Ok && r->Ok_0@ == d,
            Err(e) => r is Err && r->Err_0 == e,
        },
{
    let mut dictionary = Dictionary::new();
    let mut at: usize = 0;
    assert(dictionary@ == empty_dictionary());
    while at < text.len()
        invariant
            at <= text@.len(),
            header_of(text@) == header_from(text@, at as int, dictionary@),
        decreases text@.len() - at,
    {
        let end = find(text, LINE_FEED, at);
        let line = slice_subrange(text, at, end);
        let ghost before = dictionary@;
        if line.len() > 0 {
            match parse_declaration(line) {
                None => {
                    return Err(HeaderError::MalformedHeaderLine);
                },
                Some(Declaration::Contig(c)) => {
                    dictionary.add_contig(c);
                },
                Some(Declaration::Info(f)) => {
                    dictionary =
                    match dictionary.declare_info(f) {
                        Err(e) => {
                            return Err(e);
                        },
                        Ok(d) => d,
                    };
                },
                Some(Declaration::Format(f)) => {
                    dictionary =
                    match dictionary.declare_format(f) {
                        Err(e) => {
                            return Err(e);
                        },
                        Ok(d) => d,
                    };
                },
            }
        }
        proof {
            assert(with_line(before, line@) == Ok::<DictionaryModel, HeaderError>(dictionary@));
            assert(header_from(text@, at as int, before) == header_from(
                text@,
                end + 1,
                dictionary@,
            ));
            if end >= text@.len() {
                assert(header_from(text@, end + 1, dictionary@) == header_from(
                    text@,
                    end as int,
                    dictionary@,
                ));
            }
        }
        at = if end < text.len() {
            end + 1
        } else {
            end
        };
    }
    Ok(dictionary)
}

/// Reads the header block at the cursor: a 32-bit length, then that many
/// bytes of header text.  On failure the cursor stays where it was.
pub fn parse(stream: &mut ByteCursor<'_>) -> (r: Result<Dictionary, HeaderError>)
    ensures
        final(stream).bytes() == old(stream).bytes(),
        old(stream).offset() <= final(stream).offset() <= final(stream).bytes().len(),
        match header_at(old(stream).bytes(), old(stream).offset()) {
            Ok((d, next)) => r is Ok && r->Ok_0@ == d && final(stream).offset() == next,
            Err(e) => r is Err && r->Err_0 == e && final(stream).offset() == old(stream).offset(),
        },
{
    let start = stream.position();
    let len = match stream.read_u32() {
        Err(_) => {
            return Err(HeaderError::TruncatedInput);
        },
        Ok(len) => len,
    };
    let text = match stream.read_bytes(len as usize) {
        Err(_) => {
            stream.rewind(start);
            return Err(HeaderError::TruncatedInput);
        },
        Ok(text) => text,
    };
    match parse_header_text(text) {
        Err(e) => {
            stream.rewind(start);
            Err(e)
        },
        Ok(dictionary) => Ok(dictionary),
    }
}

} // verus!
