//! The bytes that stand for a record, and the proof that decoding gives the
//! record back.  Nothing here runs: the functions say what a writer of the
//! container has to produce.

use vstd::prelude::*;
use vstd::utf8::*;
use crate::cursor::text_at;
use crate::dictionary::{Cardinality, DictionaryModel, FieldModel, ValueType};
use crate::error::{CursorError, DecodeError};
use crate::layout::{
    count_at,
    lemma_entries_advance,
    lemma_texts_advance,
    count_is_stored,
    entries_at,
    entry_at,
    genotype_count,
    record_at,
    texts_at,
    value_at,
    RECORD_FIXED_LEN,
};
use crate::record::{InfoModel, RecordModel, ValueModel};
use crate::text::ascii;
use crate::wire::{
    holds_at,
    i32_bytes,
    le_i32,
    le_u16,
    le_u32,
    lemma_i32_round_trip,
    lemma_u16_round_trip,
    lemma_u32_round_trip,
    u16_bytes,
    u32_bytes,
};

verus! {

/// The bytes of a length-prefixed string.
pub open spec fn text_bytes(t: Seq<char>) -> Seq<u8> {
    u32_bytes(encode_utf8(t).len() as int) + encode_utf8(t)
}

/// The bytes of length-prefixed strings, one behind the other.
pub open spec fn texts_bytes(ts: Seq<Seq<char>>) -> Seq<u8>
    decreases ts.len(),
{
    if ts.len() == 0 {
        Seq::empty()
    } else {
        texts_bytes(ts.drop_last()) + text_bytes(ts.last())
    }
}

/// The bytes of signed 32-bit numbers, one behind the other.
pub open spec fn integers_bytes(xs: Seq<i32>) -> Seq<u8> {
    Seq::new(4 * xs.len(), |j: int| i32_bytes(xs[j / 4] as int)[j % 4])
}

/// The bytes of 32-bit patterns, one behind the other.
pub open spec fn words_bytes(xs: Seq<u32>) -> Seq<u8> {
    Seq::new(4 * xs.len(), |j: int| u32_bytes(xs[j / 4] as int)[j % 4])
}

/// The number of elements of a value, as an entry counts them: numbers,
/// characters, the bytes of a string; a flag has none.
pub open spec fn element_count(v: ValueModel) -> int {
    match v {
        ValueModel::Integer(xs) => xs.len() as int,
        ValueModel::Float(xs) => xs.len() as int,
        ValueModel::Character(cs) => cs.len() as int,
        ValueModel::String(t) => encode_utf8(t).len() as int,
        ValueModel::Flag(_) => 0,
    }
}

/// The bytes of the elements of a value.
pub open spec fn payload_bytes(v: ValueModel) -> Seq<u8> {
    match v {
        ValueModel::Integer(xs) => integers_bytes(xs),
        ValueModel::Float(xs) => words_bytes(xs),
        ValueModel::Character(cs) => ascii(cs),
        ValueModel::String(t) => encode_utf8(t),
        ValueModel::Flag(_) => Seq::empty(),
    }
}

/// The bytes of an info entry.
pub open spec fn entry_bytes(e: InfoModel, fields: Seq<FieldModel>) -> Seq<u8> {
    u16_bytes(e.key_index as int) + (if count_is_stored(fields[e.key_index as int].cardinality) {
        u16_bytes(element_count(e.value))
    } else {
        Seq::empty()
    }) + payload_bytes(e.value)
}

/// The bytes of info entries, one behind the other.
pub open spec fn entries_bytes(es: Seq<InfoModel>, fields: Seq<FieldModel>) -> Seq<u8>
    decreases es.len(),
{
    if es.len() == 0 {
        Seq::empty()
    } else {
        entries_bytes(es.drop_last(), fields) + entry_bytes(es.last(), fields)
    }
}

/// The bytes of a record.
pub open spec fn record_bytes(r: RecordModel, dictionary: DictionaryModel) -> Seq<u8> {
    u32_bytes(r.contig_index as int) + u32_bytes(r.position as int) + u16_bytes(
        1 + r.alt_alleles.len() as int,
    ) + u16_bytes(r.info_fields.len() as int) + text_bytes(r.ref_allele) + texts_bytes(
        r.alt_alleles,
    ) + entries_bytes(r.info_fields, dictionary.info)
}

/// Whether the length of a string can be written in 32 bits.
pub open spec fn text_fits(t: Seq<char>) -> bool {
    encode_utf8(t).len() <= u32::MAX
}

/// Whether a value can be written as an entry of a field of type `t` and
/// cardinality `c`, in a record of `n_alleles` alleles.
pub open spec fn value_fits(v: ValueModel, t: ValueType, c: Cardinality, n_alleles: int) -> bool {
    &&& v.value_type() == t
    &&& v is Flag ==> v == ValueModel::Flag(true)
    &&& v is Character ==> forall|k: int|
        0 <= k < v->Character_0.len() ==> (#[trigger] v->Character_0[k]) as u32 <= 127
    &&& match c {
        Cardinality::Fixed(n) => v is Flag || element_count(v) == n,
        Cardinality::PerGenotype => v is Flag || element_count(v) == genotype_count(n_alleles),
        Cardinality::PerAltAllele | Cardinality::Variable => element_count(v) <= u16::MAX,
    }
}

/// Whether an entry can be written for the fields `fields`.
pub open spec fn entry_fits(e: InfoModel, fields: Seq<FieldModel>, n_alleles: int) -> bool {
    &&& e.key_index < fields.len()
    &&& value_fits(
        e.value,
        fields[e.key_index as int].value_type,
        fields[e.key_index as int].cardinality,
        n_alleles,
    )
}

/// Whether a record can be written for the dictionary `dictionary`.
pub open spec fn record_fits(r: RecordModel, dictionary: DictionaryModel) -> bool {
    &&& r.contig_index < dictionary.contigs.len()
    &&& 1 + r.alt_alleles.len() <= u16::MAX
    &&& r.info_fields.len() <= u16::MAX
    &&& text_fits(r.ref_allele)
    &&& forall|i: int| 0 <= i < r.alt_alleles.len() ==> text_fits(#[trigger] r.alt_alleles[i])
    &&& forall|i: int|
        0 <= i < r.info_fields.len() ==> entry_fits(
            #[trigger] r.info_fields[i],
            dictionary.info,
            1 + r.alt_alleles.len() as int,
        )
}

/// Bytes that hold two parts one behind the other hold each of them.
pub proof fn lemma_holds_at_split(s: Seq<u8>, at: int, a: Seq<u8>, b: Seq<u8>)
    requires
        holds_at(s, at, a + b),
    ensures
        holds_at(s, at, a),
        holds_at(s, at + a.len(), b),
{
    let whole = s.subrange(at, at + (a + b).len());
    assert(s.subrange(at, at + a.len()) =~= a) by {
        assert forall|i: int| 0 <= i < a.len() implies s.subrange(at, at + a.len())[i] == a[i] by {
            assert(whole[i] == (a + b)[i]);
        }
    }
    assert(s.subrange(at + a.len(), at + a.len() + b.len()) =~= b) by {
        assert forall|i: int| 0 <= i < b.len() implies s.subrange(
            at + a.len(),
            at + a.len() + b.len(),
        )[i] == b[i] by {
            assert(whole[a.len() + i] == (a + b)[a.len() + i]);
        }
    }
}

/// The bytes of a string read back as the string.
pub proof fn lemma_text_round_trip(s: Seq<u8>, at: int, t: Seq<char>)
    requires
        text_fits(t),
        holds_at(s, at, text_bytes(t)),
    ensures
        text_at(s, at) == Ok::<(Seq<char>, int), CursorError>((t, at + text_bytes(t).len())),
        text_bytes(t).len() >= 4,
{
    broadcast use encode_utf8_valid_utf8, encode_utf8_decode_utf8;

    let raw = encode_utf8(t);
    lemma_holds_at_split(s, at, u32_bytes(raw.len() as int), raw);
    lemma_u32_round_trip(s, at, raw.len() as int);
}

/// The bytes of strings read back as the strings.
pub proof fn lemma_texts_round_trip(s: Seq<u8>, at: int, ts: Seq<Seq<char>>)
    requires
        forall|i: int| 0 <= i < ts.len() ==> text_fits(#[trigger] ts[i]),
        holds_at(s, at, texts_bytes(ts)),
    ensures
        texts_at(s, at, ts.len()) == Ok::<(Seq<Seq<char>>, int), DecodeError>(
            (ts, at + texts_bytes(ts).len()),
        ),
    decreases ts.len(),
{
    if ts.len() > 0 {
        let front = ts.drop_last();
        lemma_holds_at_split(s, at, texts_bytes(front), text_bytes(ts.last()));
        lemma_texts_round_trip(s, at, front);
        lemma_text_round_trip(s, at + texts_bytes(front).len(), ts.last());
        assert(front.push(ts.last()) =~= ts);
    } else {
        assert(ts =~= Seq::<Seq<char>>::empty());
    }
}

/// An ASCII character is the character of its byte.
pub proof fn lemma_ascii_char(c: char)
    requires
        c as u32 <= 127,
    ensures
        (c as u8) < 128,
        (c as u8) as char == c,
{
    let b = c as u8;
    assert(b as int == c as int);
    let d = b as char;
    assert(d as int == b as int);
}

/// The bytes of the elements of a value read back as the value.
pub proof fn lemma_value_round_trip(s: Seq<u8>, at: int, v: ValueModel, count: int)
    requires
        v is Flag ==> v == ValueModel::Flag(true),
        v is Character ==> forall|k: int|
            0 <= k < v->Character_0.len() ==> (#[trigger] v->Character_0[k]) as u32 <= 127,
        v is Flag || count == element_count(v),
        holds_at(s, at, payload_bytes(v)),
    ensures
        value_at(s, at, v.value_type(), count) == Ok::<(ValueModel, int), DecodeError>(
            (v, at + payload_bytes(v).len()),
        ),
{
    broadcast use encode_utf8_valid_utf8, encode_utf8_decode_utf8;

    let part = s.subrange(at, at + payload_bytes(v).len());
    match v {
        ValueModel::Integer(xs) => {
            let got = Seq::new(count as nat, |k: int| le_i32(s, at + 4 * k) as i32);
            assert forall|k: int| 0 <= k < xs.len() implies got[k] == xs[k] by {
                assert(s.subrange(at + 4 * k, at + 4 * k + 4) =~= i32_bytes(xs[k] as int)) by {
                    assert forall|b: int| 0 <= b < 4 implies s.subrange(
                        at + 4 * k,
                        at + 4 * k + 4,
                    )[b] == i32_bytes(xs[k] as int)[b] by {
                        assert(part[4 * k + b] == integers_bytes(xs)[4 * k + b]);
                        assert((4 * k + b) / 4 == k && (4 * k + b) % 4 == b);
                    }
                }
                lemma_i32_round_trip(s, at + 4 * k, xs[k] as int);
            }
            assert(got =~= xs);
        },
        ValueModel::Float(xs) => {
            let got = Seq::new(count as nat, |k: int| le_u32(s, at + 4 * k) as u32);
            assert forall|k: int| 0 <= k < xs.len() implies got[k] == xs[k] by {
                assert(s.subrange(at + 4 * k, at + 4 * k + 4) =~= u32_bytes(xs[k] as int)) by {
                    assert forall|b: int| 0 <= b < 4 implies s.subrange(
                        at + 4 * k,
                        at + 4 * k + 4,
                    )[b] == u32_bytes(xs[k] as int)[b] by {
                        assert(part[4 * k + b] == words_bytes(xs)[4 * k + b]);
                        assert((4 * k + b) / 4 == k && (4 * k + b) % 4 == b);
                    }
                }
                lemma_u32_round_trip(s, at + 4 * k, xs[k] as int);
            }
            assert(got =~= xs);
        },
        ValueModel::Character(cs) => {
            let got = Seq::new(count as nat, |k: int| s[at + k] as char);
            assert forall|k: int| 0 <= k < cs.len() implies #[trigger] s[at + k] < 128 && got[k]
                == cs[k] by {
                assert(part[k] == ascii(cs)[k]);
                lemma_ascii_char(cs[k]);
            }
            assert(got =~= cs);
        },
        ValueModel::String(t) => {},
        ValueModel::Flag(_) => {},
    }
}

/// The bytes of an entry read back as the entry.
pub proof fn lemma_entry_round_trip(
    s: Seq<u8>,
    at: int,
    e: InfoModel,
    fields: Seq<FieldModel>,
    n_alleles: int,
)
    requires
        entry_fits(e, fields, n_alleles),
        0 <= n_alleles,
        holds_at(s, at, entry_bytes(e, fields)),
    ensures
        entry_at(s, at, fields, n_alleles) == Ok::<(InfoModel, int), DecodeError>(
            (e, at + entry_bytes(e, fields).len()),
        ),
        entry_bytes(e, fields).len() >= 2,
{
    let field = fields[e.key_index as int];
    let key_part = u16_bytes(e.key_index as int);
    let count_part = if count_is_stored(field.cardinality) {
        u16_bytes(element_count(e.value))
    } else {
        Seq::empty()
    };
    lemma_holds_at_split(s, at, key_part + count_part, payload_bytes(e.value));
    lemma_holds_at_split(s, at, key_part, count_part);
    lemma_u16_round_trip(s, at, e.key_index as int);
    assert(genotype_count(n_alleles) >= 0) by (nonlinear_arith)
        requires
            0 <= n_alleles,
    ;
    if count_is_stored(field.cardinality) {
        lemma_u16_round_trip(s, at + 2, element_count(e.value));
    }
    let found = count_at(s, at + 2, field.cardinality, n_alleles);
    assert(found is Ok);
    lemma_value_round_trip(s, found->Ok_0.1, e.value, found->Ok_0.0);
}

/// The bytes of entries read back as the entries.
pub proof fn lemma_entries_round_trip(
    s: Seq<u8>,
    at: int,
    es: Seq<InfoModel>,
    fields: Seq<FieldModel>,
    n_alleles: int,
)
    requires
        forall|i: int| 0 <= i < es.len() ==> entry_fits(#[trigger] es[i], fields, n_alleles),
        0 <= n_alleles,
        holds_at(s, at, entries_bytes(es, fields)),
    ensures
        entries_at(s, at, es.len(), fields, n_alleles) == Ok::<(Seq<InfoModel>, int), DecodeError>(
            (es, at + entries_bytes(es, fields).len()),
        ),
    decreases es.len(),
{
    if es.len() > 0 {
        let front = es.drop_last();
        lemma_holds_at_split(s, at, entries_bytes(front, fields), entry_bytes(es.last(), fields));
        lemma_entries_round_trip(s, at, front, fields, n_alleles);
        lemma_entry_round_trip(
            s,
            at + entries_bytes(front, fields).len(),
            es.last(),
            fields,
            n_alleles,
        );
        assert(front.push(es.last()) =~= es);
    } else {
        assert(es =~= Seq::<InfoModel>::empty());
    }
}

/// Decoding the bytes of a record gives the record, and ends behind them.
pub proof fn lemma_record_round_trip(
    s: Seq<u8>,
    at: int,
    r: RecordModel,
    dictionary: DictionaryModel,
)
    requires
        record_fits(r, dictionary),
        holds_at(s, at, record_bytes(r, dictionary)),
    ensures
        record_at(s, at, dictionary) == Ok::<(RecordModel, int), DecodeError>(
            (r, at + record_bytes(r, dictionary).len()),
        ),
        record_bytes(r, dictionary).len() >= RECORD_FIXED_LEN + 4,
{
    reveal(record_at);
    let n_alleles = 1 + r.alt_alleles.len() as int;
    let front1 = u32_bytes(r.contig_index as int);
    let front2 = front1 + u32_bytes(r.position as int);
    let front3 = front2 + u16_bytes(n_alleles);
    let front4 = front3 + u16_bytes(r.info_fields.len() as int);
    let front5 = front4 + text_bytes(r.ref_allele);
    let front6 = front5 + texts_bytes(r.alt_alleles);
    lemma_holds_at_split(s, at, front6, entries_bytes(r.info_fields, dictionary.info));
    lemma_holds_at_split(s, at, front5, texts_bytes(r.alt_alleles));
    lemma_holds_at_split(s, at, front4, text_bytes(r.ref_allele));
    lemma_holds_at_split(s, at, front3, u16_bytes(r.info_fields.len() as int));
    lemma_holds_at_split(s, at, front2, u16_bytes(n_alleles));
    lemma_holds_at_split(s, at, front1, u32_bytes(r.position as int));
    lemma_u32_round_trip(s, at, r.contig_index as int);
    lemma_u32_round_trip(s, at + 4, r.position as int);
    lemma_u16_round_trip(s, at + 8, n_alleles);
    lemma_u16_round_trip(s, at + 10, r.info_fields.len() as int);
    lemma_text_round_trip(s, at + 12, r.ref_allele);
    let alts_start = at + 12 + text_bytes(r.ref_allele).len();
    lemma_texts_round_trip(s, alts_start, r.alt_alleles);
    let info_start = alts_start + texts_bytes(r.alt_alleles).len();
    lemma_entries_round_trip(s, info_start, r.info_fields, dictionary.info, n_alleles);
}

/// The bytes of records, one behind the other.
pub open spec fn records_bytes(rs: Seq<RecordModel>, dictionary: DictionaryModel) -> Seq<u8>
    decreases rs.len(),
{
    if rs.len() == 0 {
        Seq::empty()
    } else {
        record_bytes(rs.first(), dictionary) + records_bytes(rs.drop_first(), dictionary)
    }
}

/// The records that `s` holds from `at` on, up to its end, in their order.
pub open spec fn records_from(s: Seq<u8>, at: int, dictionary: DictionaryModel) -> Result<
    Seq<RecordModel>,
    DecodeError,
>
    decreases s.len() - at,
{
    if at < 0 || at >= s.len() {
        Ok(Seq::empty())
    } else {
        match record_at(s, at, dictionary) {
            Err(e) => Err(e),
            Ok((record, next)) => {
                proof {
                    crate::layout::lemma_record_advance(s, at, dictionary);
                }
                match records_from(s, next, dictionary) {
                    Err(e) => Err(e),
                    Ok(rest) => Ok(seq![record] + rest),
                }
            },
        }
    }
}

/// Decoding the bytes of records to the end gives the records, in their
/// order.
pub proof fn lemma_records_round_trip(
    s: Seq<u8>,
    at: int,
    rs: Seq<RecordModel>,
    dictionary: DictionaryModel,
)
    requires
        forall|i: int| 0 <= i < rs.len() ==> record_fits(#[trigger] rs[i], dictionary),
        holds_at(s, at, records_bytes(rs, dictionary)),
        at + records_bytes(rs, dictionary).len() == s.len(),
    ensures
        records_from(s, at, dictionary) == Ok::<Seq<RecordModel>, DecodeError>(rs),
    decreases rs.len(),
{
    if rs.len() == 0 {
        assert(rs =~= Seq::<RecordModel>::empty());
    } else {
        let first = rs.first();
        let rest = rs.drop_first();
        lemma_holds_at_split(
            s,
            at,
            record_bytes(first, dictionary),
            records_bytes(rest, dictionary),
        );
        lemma_record_round_trip(s, at, first, dictionary);
        assert forall|i: int| 0 <= i < rest.len() implies record_fits(
            #[trigger] rest[i],
            dictionary,
        ) by {
            assert(rest[i] == rs[i + 1]);
        }
        lemma_records_round_trip(
            s,
            at + record_bytes(first, dictionary).len(),
            rest,
            dictionary,
        );
        assert(seq![first] + rest =~= rs);
    }
}

/// A value that was decoded has the variant of the type it was decoded as,
/// and as many elements as were asked for.
pub proof fn lemma_decoded_value_fits(s: Seq<u8>, at: int, t: ValueType, count: int)
    requires
        0 <= at,
        0 <= count,
        value_at(s, at, t, count) is Ok,
    ensures
        value_at(s, at, t, count)->Ok_0.0.value_type() == t,
        value_at(s, at, t, count)->Ok_0.0 is Flag ==> value_at(s, at, t, count)->Ok_0.0
            == ValueModel::Flag(true),
        !(value_at(s, at, t, count)->Ok_0.0 is Flag) ==> element_count(
            value_at(s, at, t, count)->Ok_0.0,
        ) == count,
        value_at(s, at, t, count)->Ok_0.0 is Character ==> forall|k: int|
            0 <= k < value_at(s, at, t, count)->Ok_0.0->Character_0.len() ==> (
            #[trigger] value_at(s, at, t, count)->Ok_0.0->Character_0[k]) as u32 <= 127,
{
    broadcast use decode_utf8_encode_utf8;

    let v = value_at(s, at, t, count)->Ok_0.0;
    match v {
        ValueModel::Character(cs) => {
            assert forall|k: int| 0 <= k < cs.len() implies (#[trigger] cs[k]) as u32 <= 127 by {
                assert(s[at + k] < 128);
                assert(cs[k] == s[at + k] as char);
                let b = s[at + k];
                let d = b as char;
                assert(d as int == b as int);
            }
        },
        ValueModel::Integer(_) | ValueModel::Float(_) | ValueModel::String(_) | ValueModel::Flag(
            _,
        ) => {},
    }
}

/// Entries that were decoded are entries of declared fields, each with a
/// value of the declared type and of the count that its cardinality asks
/// for.
pub proof fn lemma_decoded_entries_fit(
    s: Seq<u8>,
    at: int,
    n: nat,
    fields: Seq<FieldModel>,
    n_alleles: int,
)
    requires
        0 <= at,
        0 <= n_alleles,
        entries_at(s, at, n, fields, n_alleles) is Ok,
    ensures
        forall|i: int|
            0 <= i < entries_at(s, at, n, fields, n_alleles)->Ok_0.0.len() ==> entry_fits(
                #[trigger] entries_at(s, at, n, fields, n_alleles)->Ok_0.0[i],
                fields,
                n_alleles,
            ),
    decreases n,
{
    if n > 0 {
        lemma_decoded_entries_fit(s, at, (n - 1) as nat, fields, n_alleles);
        lemma_entries_advance(s, at, (n - 1) as nat, fields, n_alleles);
        let (front, start) = entries_at(s, at, (n - 1) as nat, fields, n_alleles)->Ok_0;
        let key = le_u16(s, start);
        let field = fields[key];
        assert(genotype_count(n_alleles) >= 0) by (nonlinear_arith)
            requires
                0 <= n_alleles,
        ;
        let (count, payload_start) = count_at(s, start + 2, field.cardinality, n_alleles)->Ok_0;
        lemma_decoded_value_fits(s, payload_start, field.value_type, count);
        let (entry, next) = entry_at(s, start, fields, n_alleles)->Ok_0;
        assert(entry_fits(entry, fields, n_alleles));
        let all = entries_at(s, at, n, fields, n_alleles)->Ok_0.0;
        assert(all == front.push(entry));
        assert forall|i: int| 0 <= i < all.len() implies entry_fits(
            #[trigger] all[i],
            fields,
            n_alleles,
        ) by {
            if i < front.len() {
                assert(all[i] == front[i]);
            }
        }
    }
}

/// Strings that were decoded have lengths that 32 bits can write.
pub proof fn lemma_decoded_texts_fit(s: Seq<u8>, at: int, n: nat)
    requires
        0 <= at,
        texts_at(s, at, n) is Ok,
    ensures
        forall|i: int|
            0 <= i < texts_at(s, at, n)->Ok_0.0.len() ==> text_fits(
                #[trigger] texts_at(s, at, n)->Ok_0.0[i],
            ),
    decreases n,
{
    broadcast use decode_utf8_encode_utf8;

    if n > 0 {
        lemma_decoded_texts_fit(s, at, (n - 1) as nat);
        lemma_texts_advance(s, at, (n - 1) as nat);
        let (front, start) = texts_at(s, at, (n - 1) as nat)->Ok_0;
        let (text, next) = text_at(s, start)->Ok_0;
        assert(text_fits(text));
        let all = texts_at(s, at, n)->Ok_0.0;
        assert(all == front.push(text));
        assert forall|i: int| 0 <= i < all.len() implies text_fits(#[trigger] all[i]) by {
            if i < front.len() {
                assert(all[i] == front[i]);
            }
        }
    }
}

/// A record that was decoded is a record of the dictionary: its contig is
/// declared, its entries are entries of declared info fields, and each
/// value has the variant of the declared type.  And it is whole: it has as
/// many alleles and as many entries as its fixed part says.
pub proof fn lemma_decoded_record_fits(s: Seq<u8>, at: int, dictionary: DictionaryModel)
    requires
        0 <= at,
        record_at(s, at, dictionary) is Ok,
    ensures
        record_fits(record_at(s, at, dictionary)->Ok_0.0, dictionary),
        1 + record_at(s, at, dictionary)->Ok_0.0.alt_alleles.len() == le_u16(s, at + 8),
        record_at(s, at, dictionary)->Ok_0.0.info_fields.len() == le_u16(s, at + 10),
{
    broadcast use decode_utf8_encode_utf8;

    reveal(record_at);
    let n_alleles = le_u16(s, at + 8);
    let n_info = le_u16(s, at + 10);
    let (ref_allele, alts_start) = text_at(s, at + RECORD_FIXED_LEN)->Ok_0;
    lemma_texts_advance(s, alts_start, (n_alleles - 1) as nat);
    lemma_decoded_texts_fit(s, alts_start, (n_alleles - 1) as nat);
    let info_start = texts_at(s, alts_start, (n_alleles - 1) as nat)->Ok_0.1;
    lemma_entries_advance(s, info_start, n_info as nat, dictionary.info, n_alleles);
    lemma_decoded_entries_fit(s, info_start, n_info as nat, dictionary.info, n_alleles);
}

} // verus!
