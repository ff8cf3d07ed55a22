use ticket_randomizer::encoding::{write_token, write_tokens};

fn record(token: &str) -> Vec<u8> {
    let mut out = Vec::new();
    write_token(&mut out, token).unwrap();
    out
}

#[test]
fn plain_token_is_written_as_it_is() {
    assert_eq!(record("AB12"), b"AB12\n");
}

#[test]
fn token_with_comma_is_quoted() {
    assert_eq!(record("a,b"), b"\"a,b\"\n");
}

#[test]
fn token_with_quote_is_quoted_and_the_quote_doubled() {
    assert_eq!(record("a\"b"), b"\"a\"\"b\"\n");
    assert_eq!(record("\""), b"\"\"\"\"\n");
    assert_eq!(record("\"\""), b"\"\"\"\"\"\"\n");
}

#[test]
fn token_with_line_break_is_quoted() {
    assert_eq!(record("a\nb"), b"\"a\nb\"\n");
    assert_eq!(record("a\rb"), b"\"a\rb\"\n");
}

#[test]
fn empty_token_is_a_pair_of_quotes() {
    assert_eq!(record(""), b"\"\"\n");
}

#[test]
fn other_punctuation_needs_no_quotes() {
    assert_eq!(record(".;:'!%#"), b".;:'!%#\n");
    assert_eq!(record(" a b "), b" a b \n");
}

#[test]
fn multibyte_token_is_written_as_utf8() {
    assert_eq!(record("\u{e9}t\u{e9}"), "\u{e9}t\u{e9}\n".as_bytes());
}

#[test]
fn record_is_appended_behind_what_is_there() {
    let mut out = b"x\n".to_vec();
    write_token(&mut out, "y,z").unwrap();
    assert_eq!(out, b"x\n\"y,z\"\n");
}

#[test]
fn long_token_crosses_the_writer_buffer() {
    let token = "ab\"".repeat(10_000);
    let mut expected = Vec::new();
    expected.push(b'"');
    for _ in 0..10_000 {
        expected.extend_from_slice(b"ab\"\"");
    }
    expected.extend_from_slice(b"\"\n");
    assert_eq!(record(&token), expected);
}

#[test]
fn document_is_the_records_in_order() {
    let tokens = vec!["abc".to_string(), "d,e".to_string(), "".to_string(), "f\"".to_string()];
    assert_eq!(write_tokens(&tokens).unwrap(), b"abc\n\"d,e\"\n\"\"\n\"f\"\"\"\n");
}

#[test]
fn document_of_no_tokens_is_empty() {
    assert_eq!(write_tokens(&Vec::new()).unwrap(), b"");
}

#[test]
fn document_reads_back_with_the_csv_reader() {
    let tokens = vec![
        "plain".to_string(),
        "with,comma".to_string(),
        "with\"quote".to_string(),
        "with\nbreak".to_string(),
        "\r".to_string(),
        ",.;:\"'!%#".to_string(),
        "\"\"".to_string(),
    ];
    let bytes = write_tokens(&tokens).unwrap();
    let mut reader = csv::ReaderBuilder::new().has_headers(false).from_reader(bytes.as_slice());
    let mut read = Vec::new();
    for row in reader.records() {
        let row = row.unwrap();
        assert_eq!(row.len(), 1);
        read.push(row.get(0).unwrap().to_string());
    }
    assert_eq!(read, tokens);
}

#[test]
fn writing_never_fails() {
    let mut out = Vec::new();
    for token in ["", ",", "\"", "\n", "\r\n", "a", "\u{1f600}", " ", "#comment"] {
        assert!(write_token(&mut out, token).is_ok());
    }
    let expected = "\"\"\n\",\"\n\"\"\"\"\n\"\n\"\n\"\r\n\"\na\n\u{1f600}\n \n#comment\n";
    assert_eq!(out, expected.as_bytes());
}
