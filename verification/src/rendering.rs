//! The text that declares a contig or a field, and the proof that reading
//! the text gives the declaration back.  Nothing here runs: the functions
//! say what a writer of a header has to produce.

use vstd::prelude::*;
use vstd::string::*;
use vstd::utf8::{encode_utf8, encode_utf8_decode_utf8, encode_utf8_valid_utf8};
use crate::dictionary::{
    distinct_names,
    index_of_name,
    lemma_first_named_is_first,
    Cardinality,
    ContigModel,
    DictionaryModel,
    FieldModel,
    ValueType,
};
use crate::error::HeaderError;
use crate::encoding::lemma_holds_at_split;
use crate::header::{
    cardinality_of,
    contig_in,
    contig_tag,
    declaration_of,
    empty_dictionary,
    field_in,
    format_tag,
    header_from,
    header_of,
    info_tag,
    length_key,
    number_key,
    type_key,
    value_type_of,
    with_declaration,
    with_line,
    DeclarationModel,
    COMMA,
    LINE_FEED,
};
use crate::text::{
    all_digits,
    ascii,
    decimal,
    digits_value,
    is_digit,
    lemma_find_byte_is,
};
use crate::wire::holds_at;

verus! {

/// The digits of `n` in base ten, without leading zeros.
pub open spec fn digits_of(n: nat) -> Seq<u8>
    decreases n,
{
    if n < 10 {
        seq![(48 + n) as u8]
    } else {
        digits_of(n / 10).push((48 + n % 10) as u8)
    }
}

/// The digits of a number write the number.
pub proof fn lemma_digits_round_trip(n: nat)
    ensures
        digits_of(n).len() > 0,
        all_digits(digits_of(n)),
        digits_value(digits_of(n)) == n,
    decreases n,
{
    if n < 10 {
        let s = seq![(48 + n) as u8];
        assert(s.drop_last() =~= Seq::<u8>::empty());
        assert(digits_value(s.drop_last()) == 0);
    } else {
        lemma_digits_round_trip(n / 10);
        let front = digits_of(n / 10);
        let s = front.push((48 + n % 10) as u8);
        assert(s.drop_last() =~= front);
        assert forall|i: int| 0 <= i < s.len() implies is_digit(#[trigger] s[i]) by {
            if i < front.len() {
                assert(s[i] == front[i]);
            }
        }
    }
}

/// The token that writes a cardinality.
pub open spec fn cardinality_token(c: Cardinality) -> Seq<u8> {
    match c {
        Cardinality::Fixed(n) => digits_of(n as nat),
        Cardinality::PerAltAllele => ascii("A"@),
        Cardinality::PerGenotype => ascii("G"@),
        Cardinality::Variable => ascii("."@),
    }
}

/// The token that writes a value type.
pub open spec fn value_type_token(t: ValueType) -> Seq<u8> {
    match t {
        ValueType::Integer => ascii("Integer"@),
        ValueType::Float => ascii("Float"@),
        ValueType::Character => ascii("Character"@),
        ValueType::String => ascii("String"@),
        ValueType::Flag => ascii("Flag"@),
    }
}

/// Whether a name can stand in a header line: it is not empty, and its
/// bytes hold neither a comma nor a line feed.
pub open spec fn name_fits(name: Seq<char>) -> bool {
    &&& name.len() > 0
    &&& forall|i: int|
        0 <= i < encode_utf8(name).len() ==> (#[trigger] encode_utf8(name)[i]) != COMMA
            && encode_utf8(name)[i] != LINE_FEED
}

/// What a line that declares a field holds behind its tag.
pub open spec fn field_text(f: FieldModel) -> Seq<u8> {
    encode_utf8(f.name) + number_key() + cardinality_token(f.cardinality) + type_key()
        + value_type_token(f.value_type)
}

/// What a line that declares a contig holds behind its tag.
pub open spec fn contig_text(c: ContigModel) -> Seq<u8> {
    encode_utf8(c.name) + length_key() + digits_of(c.length as nat)
}

/// The line that declares `d`.
pub open spec fn declaration_line(d: DeclarationModel) -> Seq<u8> {
    match d {
        DeclarationModel::Contig(c) => contig_tag() + contig_text(c),
        DeclarationModel::Info(f) => info_tag() + field_text(f),
        DeclarationModel::Format(f) => format_tag() + field_text(f),
    }
}

/// The name that a declaration gives.
pub open spec fn declared_name(d: DeclarationModel) -> Seq<char> {
    match d {
        DeclarationModel::Contig(c) => c.name,
        DeclarationModel::Info(f) => f.name,
        DeclarationModel::Format(f) => f.name,
    }
}

/// The token of a cardinality reads as the cardinality, and holds no comma
/// and no line feed.
pub proof fn lemma_cardinality_token(c: Cardinality)
    ensures
        cardinality_of(cardinality_token(c)) == Some(c),
        forall|i: int|
            0 <= i < cardinality_token(c).len() ==> (#[trigger] cardinality_token(c)[i]) != COMMA
                && cardinality_token(c)[i] != LINE_FEED,
{
    reveal_strlit("A");
    reveal_strlit("G");
    reveal_strlit(".");
    let token = cardinality_token(c);
    match c {
        Cardinality::Fixed(n) => {
            lemma_digits_round_trip(n as nat);
            assert(is_digit(token[0]));
            assert(ascii("A"@)[0] == 65);
            assert(ascii("G"@)[0] == 71);
            assert(ascii("."@)[0] == 46);
            assert(decimal(token, u32::MAX as nat) == Some(n as nat));
            assert forall|i: int| 0 <= i < token.len() implies (#[trigger] token[i]) != COMMA
                && token[i] != LINE_FEED by {
                assert(is_digit(token[i]));
            }
        },
        Cardinality::PerAltAllele => {
            assert(token[0] == 65);
        },
        Cardinality::PerGenotype => {
            assert(token[0] == 71);
            assert(ascii("A"@)[0] == 65);
        },
        Cardinality::Variable => {
            assert(token[0] == 46);
            assert(ascii("A"@)[0] == 65);
            assert(ascii("G"@)[0] == 71);
        },
    }
}

/// The token of a value type reads as the value type, and holds no line
/// feed.
pub proof fn lemma_value_type_token(t: ValueType)
    ensures
        value_type_of(value_type_token(t)) == Some(t),
        forall|i: int|
            0 <= i < value_type_token(t).len() ==> (#[trigger] value_type_token(t)[i])
                != LINE_FEED,
{
    reveal_strlit("Integer");
    reveal_strlit("Float");
    reveal_strlit("Character");
    reveal_strlit("String");
    reveal_strlit("Flag");
    assert(ascii("Integer"@).len() == 7);
    assert(ascii("Float"@).len() == 5);
    assert(ascii("Character"@).len() == 9);
    assert(ascii("String"@).len() == 6);
    assert(ascii("Flag"@).len() == 4);
}

/// The bytes of `line` from `start` on read as the field `f`, where they
/// are the text of `f`.
pub proof fn lemma_field_text_round_trip(line: Seq<u8>, start: int, f: FieldModel)
    requires
        name_fits(f.name),
        holds_at(line, start, field_text(f)),
        start + field_text(f).len() == line.len(),
    ensures
        field_in(line, start) == Some(f),
{
    broadcast use encode_utf8_valid_utf8, encode_utf8_decode_utf8;

    reveal_strlit(",Number=");
    reveal_strlit(",Type=");
    let name = encode_utf8(f.name);
    let number = cardinality_token(f.cardinality);
    let kind = value_type_token(f.value_type);
    let front1 = name;
    let front2 = front1 + number_key();
    let front3 = front2 + number;
    let front4 = front3 + type_key();
    lemma_holds_at_split(line, start, front4, kind);
    lemma_holds_at_split(line, start, front3, type_key());
    lemma_holds_at_split(line, start, front2, number);
    lemma_holds_at_split(line, start, front1, number_key());
    lemma_cardinality_token(f.cardinality);
    lemma_value_type_token(f.value_type);
    assert(name.len() > 0) by {
        if name.len() == 0 {
            assert(vstd::utf8::decode_utf8(name) =~= Seq::<char>::empty());
        }
    }
    let name_end = start + name.len();
    assert(line[name_end] == COMMA) by {
        assert(line.subrange(name_end, name_end + number_key().len())[0] == number_key()[0]);
    }
    assert forall|j: int| start <= j < name_end implies #[trigger] line[j] != COMMA by {
        assert(line.subrange(start, start + name.len())[j - start] == name[j - start]);
    }
    lemma_find_byte_is(line, COMMA, start, name_end);
    let number_start = name_end + number_key().len();
    let number_end = number_start + number.len();
    assert(line[number_end] == COMMA) by {
        assert(line.subrange(number_end, number_end + type_key().len())[0] == type_key()[0]);
    }
    assert forall|j: int| number_start <= j < number_end implies #[trigger] line[j] != COMMA by {
        assert(line.subrange(number_start, number_start + number.len())[j - number_start]
            == number[j - number_start]);
    }
    lemma_find_byte_is(line, COMMA, number_start, number_end);
}

/// The bytes of `line` from `start` on read as the contig `c`, where they
/// are the text of `c`.
pub proof fn lemma_contig_text_round_trip(line: Seq<u8>, start: int, c: ContigModel)
    requires
        name_fits(c.name),
        holds_at(line, start, contig_text(c)),
        start + contig_text(c).len() == line.len(),
    ensures
        contig_in(line, start) == Some(c),
{
    broadcast use encode_utf8_valid_utf8, encode_utf8_decode_utf8;

    reveal_strlit(",length=");
    let name = encode_utf8(c.name);
    let length = digits_of(c.length as nat);
    let front1 = name;
    let front2 = front1 + length_key();
    lemma_holds_at_split(line, start, front2, length);
    lemma_holds_at_split(line, start, front1, length_key());
    lemma_digits_round_trip(c.length as nat);
    assert(name.len() > 0) by {
        if name.len() == 0 {
            assert(vstd::utf8::decode_utf8(name) =~= Seq::<char>::empty());
        }
    }
    let name_end = start + name.len();
    assert(line[name_end] == COMMA) by {
        assert(line.subrange(name_end, name_end + length_key().len())[0] == length_key()[0]);
    }
    assert forall|j: int| start <= j < name_end implies #[trigger] line[j] != COMMA by {
        assert(line.subrange(start, start + name.len())[j - start] == name[j - start]);
    }
    lemma_find_byte_is(line, COMMA, start, name_end);
}

/// The line that declares `d` reads as `d`.
pub proof fn lemma_declaration_round_trip(d: DeclarationModel)
    requires
        name_fits(declared_name(d)),
    ensures
        declaration_of(declaration_line(d)) == Some(d),
        declaration_line(d).len() > 0,
{
    reveal(declaration_of);
    reveal_strlit("##contig=");
    reveal_strlit("##INFO=");
    reveal_strlit("##FORMAT=");
    let line = declaration_line(d);
    assert(line.subrange(0, line.len() as int) =~= line);
    match d {
        DeclarationModel::Contig(c) => {
            lemma_holds_at_split(line, 0, contig_tag(), contig_text(c));
            lemma_contig_text_round_trip(line, contig_tag().len() as int, c);
        },
        DeclarationModel::Info(f) => {
            lemma_holds_at_split(line, 0, info_tag(), field_text(f));
            assert(!holds_at(line, 0, contig_tag())) by {
                if holds_at(line, 0, contig_tag()) {
                    assert(line.subrange(0, 9)[2] == contig_tag()[2]);
                    assert(line.subrange(0, 7)[2] == info_tag()[2]);
                }
            }
            lemma_field_text_round_trip(line, info_tag().len() as int, f);
        },
        DeclarationModel::Format(f) => {
            lemma_holds_at_split(line, 0, format_tag(), field_text(f));
            assert(!holds_at(line, 0, contig_tag())) by {
                if holds_at(line, 0, contig_tag()) {
                    assert(line.subrange(0, 9)[2] == contig_tag()[2]);
                    assert(line.subrange(0, 9)[2] == format_tag()[2]);
                }
            }
            assert(!holds_at(line, 0, info_tag())) by {
                if holds_at(line, 0, info_tag()) {
                    assert(line.subrange(0, 7)[2] == info_tag()[2]);
                    assert(line.subrange(0, 9)[2] == format_tag()[2]);
                }
            }
            lemma_field_text_round_trip(line, format_tag().len() as int, f);
        },
    }
}

/// The line that declares `d` holds no line feed.
pub proof fn lemma_line_is_one_line(d: DeclarationModel)
    requires
        name_fits(declared_name(d)),
    ensures
        forall|i: int|
            0 <= i < declaration_line(d).len() ==> (#[trigger] declaration_line(d)[i])
                != LINE_FEED,
{
    reveal_strlit("##contig=");
    reveal_strlit("##INFO=");
    reveal_strlit("##FORMAT=");
    reveal_strlit(",length=");
    reveal_strlit(",Number=");
    reveal_strlit(",Type=");
    match d {
        DeclarationModel::Contig(c) => {
            lemma_digits_round_trip(c.length as nat);
            let digits = digits_of(c.length as nat);
            assert forall|i: int| 0 <= i < digits.len() implies (#[trigger] digits[i])
                != LINE_FEED by {
                assert(is_digit(digits[i]));
            }
        },
        DeclarationModel::Info(f) => {
            lemma_cardinality_token(f.cardinality);
            lemma_value_type_token(f.value_type);
        },
        DeclarationModel::Format(f) => {
            lemma_cardinality_token(f.cardinality);
            lemma_value_type_token(f.value_type);
        },
    }
}

/// The text that declares `ds`, one line each and a line feed behind each
/// line.
pub open spec fn header_text(ds: Seq<DeclarationModel>) -> Seq<u8>
    decreases ds.len(),
{
    if ds.len() == 0 {
        Seq::empty()
    } else {
        declaration_line(ds.first()) + seq![LINE_FEED] + header_text(ds.drop_first())
    }
}

/// The dictionary `d` with the declarations `ds` added to it in their
/// order.
pub open spec fn with_declarations(d: DictionaryModel, ds: Seq<DeclarationModel>) -> Result<
    DictionaryModel,
    HeaderError,
>
    decreases ds.len(),
{
    if ds.len() == 0 {
        Ok(d)
    } else {
        match with_declaration(d, ds.first()) {
            Err(e) => Err(e),
            Ok(next) => with_declarations(next, ds.drop_first()),
        }
    }
}

/// Reading the text that declares `ds` adds `ds`, in their order.
pub proof fn lemma_header_text_round_trip(
    text: Seq<u8>,
    at: int,
    ds: Seq<DeclarationModel>,
    d: DictionaryModel,
)
    requires
        forall|i: int| 0 <= i < ds.len() ==> name_fits(declared_name(#[trigger] ds[i])),
        holds_at(text, at, header_text(ds)),
        at + header_text(ds).len() == text.len(),
    ensures
        header_from(text, at, d) == with_declarations(d, ds),
    decreases ds.len(),
{
    if ds.len() > 0 {
        let first = ds.first();
        let rest = ds.drop_first();
        let line = declaration_line(first);
        lemma_holds_at_split(text, at, line + seq![LINE_FEED], header_text(rest));
        lemma_holds_at_split(text, at, line, seq![LINE_FEED]);
        lemma_declaration_round_trip(first);
        lemma_line_is_one_line(first);
        let end = at + line.len();
        assert(text[end] == LINE_FEED) by {
            assert(text.subrange(end, end + 1)[0] == seq![LINE_FEED][0]);
        }
        assert forall|j: int| at <= j < end implies #[trigger] text[j] != LINE_FEED by {
            assert(text.subrange(at, at + line.len())[j - at] == line[j - at]);
        }
        lemma_find_byte_is(text, LINE_FEED, at, end);
        assert(with_line(d, text.subrange(at, end)) == with_declaration(d, first));
        assert forall|i: int| 0 <= i < rest.len() implies name_fits(
            declared_name(#[trigger] rest[i]),
        ) by {
            assert(rest[i] == ds[i + 1]);
        }
        match with_declaration(d, first) {
            Err(e) => {},
            Ok(next) => {
                lemma_header_text_round_trip(text, end + 1, rest, next);
            },
        }
    }
}

/// The text that declares `ds` reads as the dictionary of `ds`.
pub proof fn lemma_header_round_trip(ds: Seq<DeclarationModel>)
    requires
        forall|i: int| 0 <= i < ds.len() ==> name_fits(declared_name(#[trigger] ds[i])),
    ensures
        header_of(header_text(ds)) == with_declarations(empty_dictionary(), ds),
{
    let text = header_text(ds);
    assert(text.subrange(0, text.len() as int) =~= text);
    lemma_header_text_round_trip(text, 0, ds, empty_dictionary());
}

/// The contigs among the declarations `ds`, in their order.
pub open spec fn contigs_of(ds: Seq<DeclarationModel>) -> Seq<ContigModel>
    decreases ds.len(),
{
    if ds.len() == 0 {
        Seq::empty()
    } else {
        match ds.first() {
            DeclarationModel::Contig(c) => seq![c] + contigs_of(ds.drop_first()),
            DeclarationModel::Info(_) | DeclarationModel::Format(_) => contigs_of(ds.drop_first()),
        }
    }
}

/// The info fields among the declarations `ds`, in their order.
pub open spec fn info_fields_of(ds: Seq<DeclarationModel>) -> Seq<FieldModel>
    decreases ds.len(),
{
    if ds.len() == 0 {
        Seq::empty()
    } else {
        match ds.first() {
            DeclarationModel::Info(f) => seq![f] + info_fields_of(ds.drop_first()),
            DeclarationModel::Contig(_) | DeclarationModel::Format(_) => info_fields_of(
                ds.drop_first(),
            ),
        }
    }
}

/// The format fields among the declarations `ds`, in their order.
pub open spec fn format_fields_of(ds: Seq<DeclarationModel>) -> Seq<FieldModel>
    decreases ds.len(),
{
    if ds.len() == 0 {
        Seq::empty()
    } else {
        match ds.first() {
            DeclarationModel::Format(f) => seq![f] + format_fields_of(ds.drop_first()),
            DeclarationModel::Contig(_) | DeclarationModel::Info(_) => format_fields_of(
                ds.drop_first(),
            ),
        }
    }
}

/// Fields with distinct names stay so with one more field, if and only if
/// the name of that field is not among theirs.
pub proof fn lemma_distinct_with_one_more(fields: Seq<FieldModel>, f: FieldModel)
    requires
        distinct_names(fields),
    ensures
        distinct_names(fields.push(f)) <==> index_of_name(fields, f.name) is None,
{
    lemma_first_named_is_first(fields, f.name, 0);
    let more = fields.push(f);
    if index_of_name(fields, f.name) is None {
        assert forall|i: int, j: int| 0 <= i < j < more.len() implies (#[trigger] more[i]).name
            != (#[trigger] more[j]).name by {
            if j < fields.len() {
                assert(more[i] == fields[i] && more[j] == fields[j]);
            } else {
                assert(more[i] == fields[i]);
            }
        }
    } else {
        let at = index_of_name(fields, f.name)->0;
        assert(more[at].name == more[fields.len() as int].name);
    }
}

/// Where fields have two of one name, they have them with more fields
/// behind them too.
pub proof fn lemma_duplicate_stays(fields: Seq<FieldModel>, more: Seq<FieldModel>)
    requires
        !distinct_names(fields),
    ensures
        !distinct_names(fields + more),
{
    let (i, j) = choose|i: int, j: int|
        0 <= i < j < fields.len() && (#[trigger] fields[i]).name == (#[trigger] fields[j]).name;
    assert((fields + more)[i] == fields[i] && (fields + more)[j] == fields[j]);
}

/// Declarations are accepted if and only if no name is declared twice
/// among the info fields and none twice among the format fields; and then
/// each kind stands in the dictionary in the order of its declarations,
/// behind what was there, so that a field is numbered by its place among
/// the fields of its kind.  The only refusal is that of a duplicate.
pub proof fn lemma_declarations_in_order(d: DictionaryModel, ds: Seq<DeclarationModel>)
    requires
        distinct_names(d.info),
        distinct_names(d.format),
    ensures
        with_declarations(d, ds) is Ok <==> distinct_names(d.info + info_fields_of(ds))
            && distinct_names(d.format + format_fields_of(ds)),
        with_declarations(d, ds) is Err ==> with_declarations(d, ds)->Err_0
            == HeaderError::DuplicateFieldName,
        with_declarations(d, ds) is Ok ==> with_declarations(d, ds)->Ok_0 == (DictionaryModel {
            contigs: d.contigs + contigs_of(ds),
            info: d.info + info_fields_of(ds),
            format: d.format + format_fields_of(ds),
        }),
    decreases ds.len(),
{
    if ds.len() == 0 {
        assert(d.contigs + contigs_of(ds) =~= d.contigs);
        assert(d.info + info_fields_of(ds) =~= d.info);
        assert(d.format + format_fields_of(ds) =~= d.format);
    } else {
        let rest = ds.drop_first();
        match ds.first() {
            DeclarationModel::Contig(c) => {
                let next = DictionaryModel { contigs: d.contigs.push(c), ..d };
                lemma_declarations_in_order(next, rest);
                assert(d.contigs + (seq![c] + contigs_of(rest)) =~= d.contigs.push(c)
                    + contigs_of(rest));
            },
            DeclarationModel::Info(f) => {
                lemma_distinct_with_one_more(d.info, f);
                assert(d.info + (seq![f] + info_fields_of(rest)) =~= d.info.push(f)
                    + info_fields_of(rest));
                if index_of_name(d.info, f.name) is None {
                    let next = DictionaryModel { info: d.info.push(f), ..d };
                    lemma_declarations_in_order(next, rest);
                } else {
                    lemma_duplicate_stays(d.info.push(f), info_fields_of(rest));
                }
            },
            DeclarationModel::Format(f) => {
                lemma_distinct_with_one_more(d.format, f);
                assert(d.format + (seq![f] + format_fields_of(rest)) =~= d.format.push(f)
                    + format_fields_of(rest));
                if index_of_name(d.format, f.name) is None {
                    let next = DictionaryModel { format: d.format.push(f), ..d };
                    lemma_declarations_in_order(next, rest);
                } else {
                    lemma_duplicate_stays(d.format.push(f), format_fields_of(rest));
                }
            },
        }
    }
}

} // verus!
