use ticket_randomizer::encoding::write_tokens;
use ticket_randomizer::reading::read_document;

fn fields(record: &[&str]) -> Vec<Vec<u8>> {
    record.iter().map(|field| field.as_bytes().to_vec()).collect()
}

fn with_csv_reader(bytes: &[u8]) -> Vec<Vec<Vec<u8>>> {
    let mut reader =
        csv::ReaderBuilder::new().has_headers(false).flexible(true).from_reader(bytes);
    let mut records = Vec::new();
    for record in reader.byte_records() {
        let record = record.unwrap();
        records.push(record.iter().map(|field| field.to_vec()).collect());
    }
    records
}

#[test]
fn plain_records_are_read() {
    assert_eq!(read_document(b"abc\ndef\n"), vec![fields(&["abc"]), fields(&["def"])]);
}

#[test]
fn last_record_needs_no_line_break() {
    assert_eq!(read_document(b"abc\ndef"), vec![fields(&["abc"]), fields(&["def"])]);
}

#[test]
fn empty_document_has_no_records() {
    assert_eq!(read_document(b""), Vec::<Vec<Vec<u8>>>::new());
}

#[test]
fn commas_part_fields() {
    assert_eq!(read_document(b"a,b,,c\n"), vec![fields(&["a", "b", "", "c"])]);
}

#[test]
fn quoted_field_keeps_commas_line_breaks_and_doubled_quotes() {
    assert_eq!(read_document(b"\"a,b\"\n"), vec![fields(&["a,b"])]);
    assert_eq!(read_document(b"\"a\nb\"\n"), vec![fields(&["a\nb"])]);
    assert_eq!(read_document(b"\"a\"\"b\"\n"), vec![fields(&["a\"b"])]);
    assert_eq!(read_document(b"\"\"\n"), vec![fields(&[""])]);
}

#[test]
fn blank_lines_are_skipped() {
    assert_eq!(read_document(b"\n\na\n\nb\n\n"), vec![fields(&["a"]), fields(&["b"])]);
}

#[test]
fn carriage_return_ends_a_record_too() {
    assert_eq!(read_document(b"a\r\nb\rc\n"), vec![fields(&["a"]), fields(&["b"]), fields(&["c"])]);
}

#[test]
fn reader_agrees_with_the_csv_reader() {
    let documents: [&[u8]; 16] = [
        b"",
        b"a\n",
        b"a",
        b"a,b\nc,d\n",
        b"\"a,b\"\n\"c\"\"d\"\n",
        b"\"\"\n",
        b"a\r\nb\r\n",
        b"\n\na\n\n",
        b"\"multi\nline\",x\ny,\"z\"\n",
        b"a\"b,c\n",
        b",\n",
        b"a,\n",
        b",a\n",
        b"\"a\"b\n",
        b"x,\"\"\n",
        b"\"open",
    ];
    for document in documents {
        assert_eq!(read_document(document), with_csv_reader(document));
    }
}

#[test]
fn written_document_reads_back() {
    let tokens = vec![
        "plain".to_string(),
        "with,comma".to_string(),
        "with\"quote".to_string(),
        "with\nbreak".to_string(),
        "\r".to_string(),
        "".to_string(),
        ",.;:\"'!%#".to_string(),
        "\u{e9}\u{1f600}".to_string(),
    ];
    let bytes = write_tokens(&tokens).unwrap();
    let records = read_document(&bytes);
    assert_eq!(records.len(), tokens.len());
    for (record, token) in records.iter().zip(tokens.iter()) {
        assert_eq!(record, &vec![token.as_bytes().to_vec()]);
    }
    assert_eq!(records, with_csv_reader(&bytes));
}
