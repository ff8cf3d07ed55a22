//! Reading a CSV document back: the reader that the documents of this crate
//! are meant for, as a state machine over bytes, and the proof that it gives
//! back the tokens a document was written from.

use crate::encoding::{
    csv_document, csv_field, csv_record, escape_quotes, is_special, needs_quotes, CARRIAGE_RETURN,
    COMMA, LINE_FEED, QUOTE,
};
use crate::token::{is_run, is_token};
use vstd::prelude::*;
use vstd::utf8::{decode_utf8, encode_utf8, encode_utf8_decode_utf8};

verus! {

/// Where the reader stands.
#[derive(Clone, Copy, Debug, PartialEq, Eq, Structural)]
pub enum ReadMode {
    /// Before the first byte of a record.
    RecordStart,
    /// Behind a comma, before the first byte of the next field.
    FieldStart,
    /// Inside a field that did not open with a quote.
    Unquoted,
    /// Inside a quoted field.
    Quoted,
    /// Inside a quoted field, behind a quote that closes the field or is the
    /// first of a doubled pair.
    QuoteSeen,
}

/// What the reader has read.
pub struct ReadState {
    /// The records that are complete.
    pub records: Seq<Seq<Seq<u8>>>,
    /// The complete fields of the record that is being read.
    pub fields: Seq<Seq<u8>>,
    /// The bytes of the field that is being read.
    pub field: Seq<u8>,
    pub mode: ReadMode,
}

/// The reader before the first byte.
pub open spec fn read_start() -> ReadState {
    ReadState {
        records: Seq::empty(),
        fields: Seq::empty(),
        field: Seq::empty(),
        mode: ReadMode::RecordStart,
    }
}

/// A line feed or a carriage return: either ends a record.
pub open spec fn is_line_break(byte: u8) -> bool {
    byte == LINE_FEED || byte == CARRIAGE_RETURN
}

/// The current field is complete; another one follows.
pub open spec fn end_field(st: ReadState) -> ReadState {
    ReadState {
        fields: st.fields.push(st.field),
        field: Seq::empty(),
        mode: ReadMode::FieldStart,
        ..st
    }
}

/// The current field and with it the record are complete.
pub open spec fn end_record(st: ReadState) -> ReadState {
    ReadState {
        records: st.records.push(st.fields.push(st.field)),
        fields: Seq::empty(),
        field: Seq::empty(),
        mode: ReadMode::RecordStart,
    }
}

/// The byte belongs to the current field.
pub open spec fn take_byte(st: ReadState, byte: u8, mode: ReadMode) -> ReadState {
    ReadState { field: st.field.push(byte), mode, ..st }
}

/// One step of the reader.
///
/// A comma ends a field and a line break ends a record, unless they stand in
/// quotes. A line break before the first byte of a record is skipped. A quote
/// at the start of a field opens a quoted field; in it a doubled quote stands
/// for one quote, and a single one closes it.
pub open spec fn read_byte(st: ReadState, byte: u8) -> ReadState {
    match st.mode {
        ReadMode::RecordStart => {
            if is_line_break(byte) {
                st
            } else if byte == COMMA {
                end_field(st)
            } else if byte == QUOTE {
                ReadState { mode: ReadMode::Quoted, ..st }
            } else {
                take_byte(st, byte, ReadMode::Unquoted)
            }
        },
        ReadMode::FieldStart => {
            if is_line_break(byte) {
                end_record(st)
            } else if byte == COMMA {
                end_field(st)
            } else if byte == QUOTE {
                ReadState { mode: ReadMode::Quoted, ..st }
            } else {
                take_byte(st, byte, ReadMode::Unquoted)
            }
        },
        ReadMode::Unquoted => {
            if is_line_break(byte) {
                end_record(st)
            } else if byte == COMMA {
                end_field(st)
            } else {
                take_byte(st, byte, ReadMode::Unquoted)
            }
        },
        ReadMode::Quoted => {
            if byte == QUOTE {
                ReadState { mode: ReadMode::QuoteSeen, ..st }
            } else {
                take_byte(st, byte, ReadMode::Quoted)
            }
        },
        ReadMode::QuoteSeen => {
            if byte == QUOTE {
                take_byte(st, byte, ReadMode::Quoted)
            } else if is_line_break(byte) {
                end_record(st)
            } else if byte == COMMA {
                end_field(st)
            } else {
                take_byte(st, byte, ReadMode::Unquoted)
            }
        },
    }
}

/// The reader after `bytes`, from `st` on.
pub open spec fn read_bytes(st: ReadState, bytes: Seq<u8>) -> ReadState
    decreases bytes.len(),
{
    if bytes.len() == 0 {
        st
    } else {
        read_bytes(read_byte(st, bytes[0]), bytes.drop_first())
    }
}

/// The records of a document. A last record needs no line break behind it.
pub open spec fn read_records(bytes: Seq<u8>) -> Seq<Seq<Seq<u8>>> {
    let st = read_bytes(read_start(), bytes);
    if st.mode is RecordStart {
        st.records
    } else {
        end_record(st).records
    }
}

/// The first field of each record of a document, as text.
pub open spec fn read_tokens(bytes: Seq<u8>) -> Seq<Seq<char>> {
    read_records(bytes).map_values(|record: Seq<Seq<u8>>| decode_utf8(record[0]))
}

/// Reading two stretches of bytes one after the other is reading them as
/// one.
pub proof fn lemma_read_concat(st: ReadState, first: Seq<u8>, second: Seq<u8>)
    ensures
        read_bytes(st, first + second) == read_bytes(read_bytes(st, first), second),
    decreases first.len(),
{
    if first.len() == 0 {
        assert(first + second =~= second);
    } else {
        assert((first + second).drop_first() =~= first.drop_first() + second);
        lemma_read_concat(read_byte(st, first[0]), first.drop_first(), second);
    }
}

/// Reading a single byte is one step of the reader.
proof fn lemma_read_one(st: ReadState, byte: u8)
    ensures
        read_bytes(st, seq![byte]) == read_byte(st, byte),
{
    let one = seq![byte];
    assert(one.drop_first() =~= Seq::<u8>::empty());
    assert(read_bytes(read_byte(st, byte), one.drop_first()) == read_byte(st, byte));
}

/// Outside quotes, bytes that are not special all go to the current field.
proof fn lemma_read_plain(st: ReadState, field: Seq<u8>)
    requires
        st.mode is RecordStart || st.mode is FieldStart || st.mode is Unquoted,
        !needs_quotes(field),
        field.len() > 0,
    ensures
        read_bytes(st, field) == (ReadState {
            field: st.field + field,
            mode: ReadMode::Unquoted,
            ..st
        }),
    decreases field.len(),
{
    let next = read_byte(st, field[0]);
    let rest = field.drop_first();
    assert(!is_special(field[0]));
    assert(next == take_byte(st, field[0], ReadMode::Unquoted));
    if rest.len() == 0 {
        assert(st.field + field =~= st.field.push(field[0]));
    } else {
        assert forall|i: int| 0 <= i < rest.len() implies !is_special(#[trigger] rest[i]) by {
            assert(rest[i] == field[i + 1]);
        }
        lemma_read_plain(next, rest);
        assert(next.field + rest =~= st.field + field);
    }
}

/// Inside quotes, a field with its quotes doubled goes to the current field
/// as it was before the doubling.
proof fn lemma_read_escaped(st: ReadState, field: Seq<u8>)
    requires
        st.mode is Quoted,
    ensures
        read_bytes(st, escape_quotes(field)) == (ReadState { field: st.field + field, ..st }),
    decreases field.len(),
{
    if field.len() == 0 {
        assert(st.field + field =~= st.field);
    } else {
        let rest = field.drop_first();
        let after = take_byte(st, field[0], ReadMode::Quoted);
        if field[0] == QUOTE {
            let pair = seq![QUOTE, QUOTE];
            lemma_read_concat(st, pair, escape_quotes(rest));
            assert(pair =~= seq![QUOTE] + seq![QUOTE]);
            lemma_read_concat(st, seq![QUOTE], seq![QUOTE]);
            lemma_read_one(st, QUOTE);
            lemma_read_one(read_byte(st, QUOTE), QUOTE);
            assert(read_bytes(st, pair) == after);
        } else {
            let one = seq![field[0]];
            lemma_read_concat(st, one, escape_quotes(rest));
            lemma_read_one(st, field[0]);
            assert(read_bytes(st, one) == after);
        }
        lemma_read_escaped(after, rest);
        assert(after.field + rest =~= st.field + field);
    }
}

/// At the start of a record, the record of a field adds that field as a
/// record of its own.
pub proof fn lemma_read_record(st: ReadState, field: Seq<u8>)
    requires
        st.mode is RecordStart,
        st.fields.len() == 0,
        st.field.len() == 0,
    ensures
        read_bytes(st, csv_record(field)) == (ReadState {
            records: st.records.push(seq![field]),
            ..st
        }),
{
    let end = seq![LINE_FEED];
    lemma_read_concat(st, csv_field(field), end);
    assert(st.fields =~= Seq::<Seq<u8>>::empty());
    assert(st.field =~= Seq::<u8>::empty());
    let done = ReadState { records: st.records.push(seq![field]), ..st };
    if field.len() == 0 || needs_quotes(field) {
        let open = seq![QUOTE];
        lemma_read_concat(st, open + escape_quotes(field), open);
        lemma_read_concat(st, open, escape_quotes(field));
        let inside = ReadState { mode: ReadMode::Quoted, ..st };
        lemma_read_one(st, QUOTE);
        assert(read_bytes(st, open) == inside);
        lemma_read_escaped(inside, field);
        let filled = ReadState { field: inside.field + field, ..inside };
        let closed = ReadState { mode: ReadMode::QuoteSeen, ..filled };
        lemma_read_one(filled, QUOTE);
        assert(read_bytes(filled, open) == closed);
        assert(st.field + field =~= field);
        assert(st.fields.push(field) =~= seq![field]);
        lemma_read_one(closed, LINE_FEED);
        assert(read_bytes(closed, end) == done);
    } else {
        lemma_read_plain(st, field);
        let filled = ReadState { field: st.field + field, mode: ReadMode::Unquoted, ..st };
        assert(st.field + field =~= field);
        assert(st.fields.push(field) =~= seq![field]);
        lemma_read_one(filled, LINE_FEED);
        assert(read_bytes(filled, end) == done);
    }
}

/// The record that stands for a token when its document is read.
pub open spec fn token_record(token: Seq<char>) -> Seq<Seq<u8>> {
    seq![encode_utf8(token)]
}

/// Reading the document of a run gives one record for each token, in order,
/// with the token's bytes as its one field; read as text, the records are the
/// tokens the document was written from.
pub proof fn lemma_round_trip(tokens: Seq<Seq<char>>)
    ensures
        read_records(csv_document(tokens)) == tokens.map_values(
            |token: Seq<char>| token_record(token),
        ),
        read_records(csv_document(tokens)).len() == tokens.len(),
        read_tokens(csv_document(tokens)) == tokens,
{
    lemma_read_document(tokens);
    let records = read_records(csv_document(tokens));
    let read = read_tokens(csv_document(tokens));
    assert forall|i: int| 0 <= i < tokens.len() implies read[i] == tokens[i] by {
        encode_utf8_decode_utf8(tokens[i]);
    }
    assert(read =~= tokens);
}

/// The document of a run, read back: as many records as the run has tokens,
/// one field in each, no record twice; and the records, read as text, are a
/// run as the tokens are.
pub proof fn lemma_document_of_run(
    tokens: Seq<Seq<char>>,
    alphabet: Seq<char>,
    count: nat,
    length: nat,
)
    requires
        is_run(tokens, alphabet, count, length),
    ensures
        read_records(csv_document(tokens)).len() == count,
        forall|i: int|
            0 <= i < count ==> (#[trigger] read_records(csv_document(tokens))[i]).len() == 1,
        read_records(csv_document(tokens)).no_duplicates(),
        is_run(read_tokens(csv_document(tokens)), alphabet, count, length),
{
    lemma_round_trip(tokens);
    let records = read_records(csv_document(tokens));
    assert forall|i: int, j: int|
        0 <= i < records.len() && 0 <= j < records.len() && i != j implies records[i]
        != records[j] by {
        encode_utf8_decode_utf8(tokens[i]);
        encode_utf8_decode_utf8(tokens[j]);
        assert(records[i][0] == encode_utf8(tokens[i]));
        assert(records[j][0] == encode_utf8(tokens[j]));
    }
}

/// The reader behind the document of `tokens`: at the start of a record, with
/// one record for each token.
proof fn lemma_read_document(tokens: Seq<Seq<char>>)
    ensures
        read_bytes(read_start(), csv_document(tokens)) == (ReadState {
            records: tokens.map_values(|token: Seq<char>| token_record(token)),
            ..read_start()
        }),
    decreases tokens.len(),
{
    let to_record = |token: Seq<char>| token_record(token);
    if tokens.len() == 0 {
        assert(tokens.map_values(to_record) =~= Seq::<Seq<Seq<u8>>>::empty());
    } else {
        let front = tokens.drop_last();
        lemma_read_document(front);
        let st = read_bytes(read_start(), csv_document(front));
        let last = encode_utf8(tokens.last());
        lemma_read_concat(read_start(), csv_document(front), csv_record(last));
        lemma_read_record(st, last);
        assert(front.map_values(to_record).push(token_record(tokens.last())) =~= tokens.map_values(
            to_record,
        ));
    }
}

/// Reading one more byte is one more step of the reader.
proof fn lemma_read_push(st: ReadState, bytes: Seq<u8>, byte: u8)
    ensures
        read_bytes(st, bytes.push(byte)) == read_byte(read_bytes(st, bytes), byte),
{
    assert(bytes.push(byte) =~= bytes + seq![byte]);
    lemma_read_concat(st, bytes, seq![byte]);
    lemma_read_one(read_bytes(st, bytes), byte);
}

/// Reads the records of a document, each as its fields, each field as its
/// bytes.
pub fn read_document(bytes: &[u8]) -> (records: Vec<Vec<Vec<u8>>>)
    ensures
        records.deep_view() == read_records(bytes@),
{
    let mut records: Vec<Vec<Vec<u8>>> = Vec::new();
    let mut fields: Vec<Vec<u8>> = Vec::new();
    let mut field: Vec<u8> = Vec::new();
    let mut mode = ReadMode::RecordStart;
    let mut i: usize = 0;
    proof {
        assert(bytes@.take(0) =~= Seq::<u8>::empty());
        assert(records.deep_view() =~= Seq::<Seq<Seq<u8>>>::empty());
        assert(fields.deep_view() =~= Seq::<Seq<u8>>::empty());
        assert(field.deep_view() =~= Seq::<u8>::empty());
    }
    while i < bytes.len()
        invariant
            i <= bytes@.len(),
            read_bytes(read_start(), bytes@.take(i as int)) == (ReadState {
                records: records.deep_view(),
                fields: fields.deep_view(),
                field: field.deep_view(),
                mode,
            }),
        decreases bytes@.len() - i,
    {
        let byte = bytes[i];
        let ghost before = ReadState {
            records: records.deep_view(),
            fields: fields.deep_view(),
            field: field.deep_view(),
            mode,
        };
        proof {
            assert(bytes@.take(i + 1) =~= bytes@.take(i as int).push(byte));
            lemma_read_push(read_start(), bytes@.take(i as int), byte);
        }
        let line_break = byte == LINE_FEED || byte == CARRIAGE_RETURN;
        let ends_record = line_break && !matches!(mode, ReadMode::RecordStart | ReadMode::Quoted);
        let ends_field = byte == COMMA && !matches!(mode, ReadMode::Quoted);
        if ends_record {
            fields.push(field);
            assert(fields.deep_view() =~= before.fields.push(before.field));
            records.push(fields);
            assert(records.deep_view() =~= before.records.push(before.fields.push(before.field)));
            fields = Vec::new();
            field = Vec::new();
            mode = ReadMode::RecordStart;
            assert(fields.deep_view() =~= Seq::<Seq<u8>>::empty());
            assert(field.deep_view() =~= Seq::<u8>::empty());
        } else if ends_field {
            fields.push(field);
            assert(fields.deep_view() =~= before.fields.push(before.field));
            field = Vec::new();
            mode = ReadMode::FieldStart;
            assert(field.deep_view() =~= Seq::<u8>::empty());
        } else if byte == QUOTE && !matches!(mode, ReadMode::Unquoted) {
            match mode {
                ReadMode::Quoted => {
                    mode = ReadMode::QuoteSeen;
                },
                ReadMode::QuoteSeen => {
                    field.push(byte);
                    assert(field.deep_view() =~= before.field.push(byte));
                    mode = ReadMode::Quoted;
                },
                _ => {
                    mode = ReadMode::Quoted;
                },
            }
        } else if !(line_break && matches!(mode, ReadMode::RecordStart)) {
            field.push(byte);
            assert(field.deep_view() =~= before.field.push(byte));
            if !matches!(mode, ReadMode::Quoted) {
                mode = ReadMode::Unquoted;
            }
        }
        i += 1;
    }
    assert(bytes@.take(bytes@.len() as int) =~= bytes@);
    if !matches!(mode, ReadMode::RecordStart) {
        let ghost before = ReadState {
            records: records.deep_view(),
            fields: fields.deep_view(),
            field: field.deep_view(),
            mode,
        };
        fields.push(field);
        assert(fields.deep_view() =~= before.fields.push(before.field));
        records.push(fields);
        assert(records.deep_view() =~= before.records.push(before.fields.push(before.field)));
    }
    records
}

} // verus!
