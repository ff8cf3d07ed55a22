//! The CSV form of a run: one record for each token, a single field in each.

use crate::error::RunError;
use vstd::prelude::*;
use vstd::utf8::encode_utf8;

verus! {

/// The byte that separates fields.
pub const COMMA: u8 = 44;

/// The byte that encloses a quoted field.
pub const QUOTE: u8 = 34;

/// The byte that ends a record.
pub const LINE_FEED: u8 = 10;

/// The other line-break byte.
pub const CARRIAGE_RETURN: u8 = 13;

/// The bytes that force a field into quotes.
pub open spec fn is_special(byte: u8) -> bool {
    byte == COMMA || byte == QUOTE || byte == LINE_FEED || byte == CARRIAGE_RETURN
}

/// Whether a field holds a byte that forces it into quotes.
pub open spec fn needs_quotes(field: Seq<u8>) -> bool {
    exists|i: int| 0 <= i < field.len() && is_special(#[trigger] field[i])
}

/// The field with each quote doubled.
pub open spec fn escape_quotes(field: Seq<u8>) -> Seq<u8>
    decreases field.len(),
{
    if field.len() == 0 {
        Seq::empty()
    } else if field[0] == QUOTE {
        seq![QUOTE, QUOTE] + escape_quotes(field.drop_first())
    } else {
        seq![field[0]] + escape_quotes(field.drop_first())
    }
}

/// A field as it stands in its record: as it is, or in quotes with its own
/// quotes doubled where it holds a special byte or is empty.
pub open spec fn csv_field(field: Seq<u8>) -> Seq<u8> {
    if field.len() == 0 || needs_quotes(field) {
        seq![QUOTE] + escape_quotes(field) + seq![QUOTE]
    } else {
        field
    }
}

/// The record of one field: the field and a line feed.
pub open spec fn csv_record(field: Seq<u8>) -> Seq<u8> {
    csv_field(field) + seq![LINE_FEED]
}

/// The document of a run: the records of its tokens, in order, each token
/// taken as its UTF-8 bytes.
pub open spec fn csv_document(tokens: Seq<Seq<char>>) -> Seq<u8>
    decreases tokens.len(),
{
    if tokens.len() == 0 {
        Seq::empty()
    } else {
        csv_document(tokens.drop_last()) + csv_record(encode_utf8(tokens.last()))
    }
}

/// The error type of the `csv` crate.
#[verifier::external_type_specification]
#[verifier::external_body]
pub struct ExCsvError(csv::Error);

/// `csv::Writer::write_record` on a writer in its default configuration over
/// an empty buffer, with the one field `token`, then `into_inner`: the buffer
/// holds the field, quoted where it is empty or holds a comma, a quote or a
/// line break, with its quotes doubled, and the terminating line feed.
///
/// The call succeeds: the writer fails only where the buffer under it refuses
/// a write, which a `Vec<u8>` never does, or where a record has another number
/// of fields than the first, and this record is the first.
#[verifier::external_body]
fn encode_record(token: &str) -> (result: Result<Vec<u8>, csv::Error>)
    ensures
        result is Ok,
        result matches Ok(bytes) ==> bytes@ == csv_record(encode_utf8(token@)),
{
    let mut writer = csv::WriterBuilder::new().from_writer(Vec::new());
    writer.write_record(std::slice::from_ref(&token))?;
    match writer.into_inner() {
        Ok(bytes) => Ok(bytes),
        Err(e) => Err(csv::Error::from(e.into_error())),
    }
}

/// The text of a `csv::Error`, as its `Display` gives it.
#[verifier::external_body]
fn error_text(error: &csv::Error) -> (text: String) {
    error.to_string()
}

/// Appends the record of `token` to `out`.
///
/// Writing into memory does not fail; the result is `Ok` on every input.
pub fn write_token(out: &mut Vec<u8>, token: &str) -> (result: Result<(), RunError>)
    ensures
        result is Ok,
        final(out)@ == old(out)@ + csv_record(encode_utf8(token@)),
{
    match encode_record(token) {
        Ok(mut record) => {
            out.append(&mut record);
            Ok(())
        },
        Err(e) => Err(RunError::Write { detail: error_text(&e) }),
    }
}

/// The document of `tokens`. The result is `Ok` on every input.
pub fn write_tokens(tokens: &Vec<String>) -> (result: Result<Vec<u8>, RunError>)
    ensures
        result matches Ok(bytes) && bytes@ == csv_document(tokens.deep_view()),
{
    let mut out: Vec<u8> = Vec::new();
    let mut i: usize = 0;
    while i < tokens.len()
        invariant
            i <= tokens.len(),
            out@ == csv_document(tokens.deep_view().take(i as int)),
        decreases tokens.len() - i,
    {
        proof {
            let done = tokens.deep_view().take(i as int);
            let next = tokens.deep_view().take(i + 1);
            assert(next.drop_last() =~= done);
            assert(next.last() == tokens[i as int]@);
        }
        match write_token(&mut out, tokens[i].as_str()) {
            Ok(()) => {},
            Err(e) => {
                return Err(e);
            },
        }
        i += 1;
    }
    assert(tokens.deep_view().take(tokens.len() as int) =~= tokens.deep_view());
    Ok(out)
}

} // verus!
