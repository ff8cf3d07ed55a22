use ticket_randomizer::alphabet::{build_character_set, CharClasses};
use ticket_randomizer::error::RunError;
use ticket_randomizer::reading::read_document;
use ticket_randomizer::run::{build_csv, CsvOutput};

fn read_back(bytes: &[u8]) -> Vec<String> {
    let mut reader = csv::ReaderBuilder::new().has_headers(false).from_reader(bytes);
    let mut rows = Vec::new();
    for row in reader.records() {
        let row = row.unwrap();
        assert_eq!(row.len(), 1);
        rows.push(row.get(0).unwrap().to_string());
    }
    rows
}

fn check_run(out: &CsvOutput, alphabet: &str, count: usize, length: usize) {
    assert_eq!(out.tokens.len(), count);
    for (i, token) in out.tokens.iter().enumerate() {
        assert_eq!(token.chars().count(), length);
        assert!(token.chars().all(|c| alphabet.contains(c)));
        assert!(!out.tokens[..i].contains(token));
    }
    assert_eq!(read_back(&out.bytes), out.tokens);
}

#[test]
fn three_tokens_of_four_from_capitals_and_digits() {
    let classes = CharClasses { capitals: true, lowercase: false, digits: true, specials: false };
    let alphabet = build_character_set(classes, "AEIOU0");
    let out = build_csv(&alphabet, 3, 4).unwrap();
    check_run(&out, "BCDFGHJKLMNPQRSTVWXYZ123456789", 3, 4);
    assert_eq!(out.bytes.len(), 15);
    assert_eq!(out.bytes.iter().filter(|&&b| b == b'\n').count(), 3);
}

#[test]
fn more_tokens_than_the_space_holds_is_refused() {
    let result = build_csv("ab", 3, 1);
    assert!(matches!(result, Err(RunError::TokenSpaceExhausted)));
}

#[test]
fn exactly_the_whole_space_is_produced() {
    let out = build_csv("ab", 2, 1).unwrap();
    check_run(&out, "ab", 2, 1);
    let mut tokens = out.tokens.clone();
    tokens.sort();
    assert_eq!(tokens, vec!["a", "b"]);
}

#[test]
fn whole_space_of_three_places() {
    let out = build_csv("xyz", 27, 3).unwrap();
    check_run(&out, "xyz", 27, 3);
}

#[test]
fn repeated_characters_do_not_widen_the_space() {
    assert!(matches!(build_csv("aab", 3, 1), Err(RunError::TokenSpaceExhausted)));
    let out = build_csv("aab", 2, 1).unwrap();
    check_run(&out, "ab", 2, 1);
}

#[test]
fn no_tokens_give_an_empty_document() {
    let out = build_csv("abc", 0, 5).unwrap();
    assert!(out.tokens.is_empty());
    assert!(out.bytes.is_empty());
    let out = build_csv("", 0, 5).unwrap();
    assert!(out.tokens.is_empty());
    assert!(out.bytes.is_empty());
}

#[test]
fn empty_alphabet_is_refused() {
    assert!(matches!(build_csv("", 1, 1), Err(RunError::TokenSpaceExhausted)));
}

#[test]
fn length_zero_allows_the_one_empty_token() {
    let out = build_csv("abc", 1, 0).unwrap();
    assert_eq!(out.tokens, vec![""]);
    assert_eq!(out.bytes, b"\"\"\n");
    assert!(matches!(build_csv("abc", 2, 0), Err(RunError::TokenSpaceExhausted)));
}

#[test]
fn punctuation_tokens_are_quoted_where_needed_and_read_back() {
    let classes = CharClasses { capitals: false, lowercase: false, digits: false, specials: true };
    let alphabet = build_character_set(classes, "");
    let out = build_csv(&alphabet, 81, 2).unwrap();
    check_run(&out, ",.;:\"'!%#", 81, 2);
    let text = String::from_utf8(out.bytes.clone()).unwrap();
    let mut at = 0;
    for token in &out.tokens {
        let row = if token.contains(',') || token.contains('"') {
            format!("\"{}\"\n", token.replace('"', "\"\""))
        } else {
            format!("{}\n", token)
        };
        assert_eq!(&text[at..at + row.len()], row);
        at += row.len();
    }
    assert_eq!(at, text.len());
}

#[test]
fn a_larger_run() {
    let classes = CharClasses { capitals: true, lowercase: true, digits: true, specials: false };
    let alphabet = build_character_set(classes, "");
    let out = build_csv(&alphabet, 2000, 8).unwrap();
    check_run(&out, &alphabet, 2000, 8);
    assert_eq!(out.bytes.len(), 2000 * 9);
}

#[test]
fn multibyte_alphabet() {
    let out = build_csv("\u{e9}\u{1f600}", 4, 2).unwrap();
    check_run(&out, "\u{e9}\u{1f600}", 4, 2);
}

#[test]
fn one_token_of_two_quotes() {
    let out = build_csv("\"", 1, 2).unwrap();
    assert_eq!(out.tokens, vec!["\"\""]);
    assert_eq!(out.bytes, b"\"\"\"\"\"\"\n");
    assert_eq!(read_back(&out.bytes), vec!["\"\""]);
    assert_eq!(read_document(&out.bytes), vec![vec![b"\"\"".to_vec()]]);
}

#[test]
fn a_run_of_one_token_always_succeeds() {
    for _ in 0..200 {
        let out = build_csv("ab", 1, 1).unwrap();
        check_run(&out, "ab", 1, 1);
    }
    let out = build_csv("z", 1, 7).unwrap();
    assert_eq!(out.tokens, vec!["zzzzzzz"]);
    assert_eq!(out.bytes, b"zzzzzzz\n");
}
