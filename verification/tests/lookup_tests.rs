use bibterm::format::{not_found_text, parse_error_text, render_report, usage_text};
use bibterm::lookup_report;
use bibterm::matching::find_matches;
use bibterm::records::{LookupKey, Scripture};

fn rec(book_name: &str, book_id: &str, chapter: i32, verse: i32, text: &str) -> Scripture {
    Scripture {
        chapter,
        verse,
        text: text.as_bytes().to_vec(),
        translation_id: b"KJV".to_vec(),
        book_id: book_id.as_bytes().to_vec(),
        book_name: book_name.as_bytes().to_vec(),
    }
}

fn key(book: &str, chapter: i32, verses: &[i32]) -> LookupKey {
    LookupKey { book: book.as_bytes().to_vec(), chapter, verses: verses.to_vec() }
}

fn dataset() -> Vec<Scripture> {
    vec![
        rec("Genesis", "Gen", 1, 1, "In the beginning"),
        rec("Genesis", "Gen", 1, 2, "And the earth"),
        rec("Genesis", "Gen", 2, 1, "Thus the heavens"),
        rec("John", "Jhn", 3, 16, "For God so loved"),
        rec("2 John", "2Jn", 1, 4, "I rejoiced greatly"),
    ]
}

#[test]
fn matches_by_full_name() {
    let m = find_matches(&dataset(), &key("Genesis", 1, &[1]));
    assert_eq!(m.len(), 1);
    assert_eq!(m[0].text, b"In the beginning".to_vec());
}

#[test]
fn matching_is_case_insensitive() {
    for book in ["genesis", "GENESIS", "Gen", "gEn"] {
        let m = find_matches(&dataset(), &key(book, 1, &[1]));
        assert_eq!(m.len(), 1, "book {book} should match");
        assert_eq!(m[0].verse, 1);
    }
}

#[test]
fn chapter_must_agree() {
    assert!(find_matches(&dataset(), &key("Genesis", 3, &[1])).is_empty());
}

#[test]
fn verse_must_be_asked_for() {
    assert!(find_matches(&dataset(), &key("Genesis", 1, &[5, 6])).is_empty());
}

#[test]
fn all_matches_kept_in_dataset_order() {
    let m = find_matches(&dataset(), &key("Genesis", 1, &[2, 1]));
    assert_eq!(m.len(), 2);
    assert_eq!(m[0].verse, 1);
    assert_eq!(m[1].verse, 2);
}

#[test]
fn report_has_header_and_one_line_per_match() {
    let out = lookup_report(&dataset(), &key("Genesis", 1, &[1, 2]));
    let expected = b"Genesis 1:\n1: In the beginning\n2: And the earth\n".to_vec();
    assert_eq!(out, expected);
}

#[test]
fn report_for_numeric_prefixed_book() {
    let out = lookup_report(&dataset(), &key("2 john", 1, &[4]));
    assert_eq!(out, b"2 John 1:\n4: I rejoiced greatly\n".to_vec());
}

#[test]
fn no_match_prints_not_found() {
    let out = lookup_report(&dataset(), &key("Ruth", 1, &[1]));
    assert_eq!(out, b"Could not find that scripture\n".to_vec());
}

#[test]
fn lookup_is_deterministic() {
    let k = key("Genesis", 1, &[1, 2]);
    let first = lookup_report(&dataset(), &k);
    let second = lookup_report(&dataset(), &k);
    assert_eq!(first, second);
}

#[test]
fn duplicate_records_all_retained() {
    let mut data = dataset();
    data.push(rec("Genesis", "Gen", 1, 1, "In the beginning"));
    let m = find_matches(&data, &key("Gen", 1, &[1]));
    assert_eq!(m.len(), 2);
}

#[test]
fn empty_dataset_reports_not_found() {
    let out = lookup_report(&Vec::new(), &key("Genesis", 1, &[1]));
    assert_eq!(out, not_found_text());
}

#[test]
fn render_report_of_nothing_is_not_found_message() {
    assert_eq!(render_report(&Vec::new()), b"Could not find that scripture\n".to_vec());
}

#[test]
fn fixed_messages_are_exact() {
    assert_eq!(usage_text(), b"Usage: `bibterm [book] [chapter] [verses]`\n".to_vec());
    assert_eq!(
        parse_error_text(),
        b"Error parsing scripture lookup key\nPlease ensure you enter a valid book, chapter, and verse\n"
            .to_vec()
    );
}

#[test]
fn negative_chapter_renders_with_sign() {
    let data = vec![rec("Odd", "Od", -2, 1, "strange")];
    let out = lookup_report(&data, &key("Odd", -2, &[1]));
    assert_eq!(out, b"Odd -2:\n1: strange\n".to_vec());
}

#[test]
fn first_match_takes_earliest_in_dataset_order() {
    let mut data = dataset();
    data.push(rec("Genesis", "Gen", 1, 1, "a later duplicate"));
    let out = bibterm::lookup_first_report(&data, &key("Gen", 1, &[1]));
    assert_eq!(out, b"Genesis 1:1\n\tIn the beginning\n".to_vec());
}

#[test]
fn first_match_report_not_found() {
    let out = bibterm::lookup_first_report(&dataset(), &key("Ruth", 1, &[1]));
    assert_eq!(out, b"Could not find that scripture\n".to_vec());
}

#[test]
fn find_first_match_agrees_with_find_matches_head() {
    let data = dataset();
    let k = key("Genesis", 1, &[1, 2]);
    let all = find_matches(&data, &k);
    let first = bibterm::matching::find_first_match(&data, &k).expect("a match exists");
    assert_eq!(first.verse, all[0].verse);
    assert_eq!(first.text, all[0].text);
}

#[test]
fn end_to_end_from_arguments_to_report() {
    let argv: Vec<Vec<u8>> = ["bibterm", "genesis", "1", "1-2"]
        .iter()
        .map(|s| s.as_bytes().to_vec())
        .collect();
    let key = match bibterm::parse::parse_args(&argv) {
        bibterm::parse::ParseOutcome::Key(k) => k,
        _ => panic!("expected a key"),
    };
    let out = lookup_report(&dataset(), &key);
    assert_eq!(out, b"Genesis 1:\n1: In the beginning\n2: And the earth\n".to_vec());
}
