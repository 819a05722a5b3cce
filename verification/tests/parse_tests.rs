use bibterm::parse::{parse_args, ParseOutcome};
use bibterm::records::LookupKey;

fn args(list: &[&str]) -> Vec<Vec<u8>> {
    list.iter().map(|s| s.as_bytes().to_vec()).collect()
}

fn key_of(list: &[&str]) -> LookupKey {
    match parse_args(&args(list)) {
        ParseOutcome::Key(k) => k,
        _ => panic!("expected a key"),
    }
}

#[test]
fn too_few_arguments_is_usage() {
    assert!(matches!(parse_args(&args(&["bibterm"])), ParseOutcome::Usage));
    assert!(matches!(parse_args(&args(&["bibterm", "John"])), ParseOutcome::Usage));
    assert!(matches!(parse_args(&args(&["bibterm", "John", "3"])), ParseOutcome::Usage));
}

#[test]
fn plain_book_single_verse() {
    let k = key_of(&["bibterm", "John", "3", "16"]);
    assert_eq!(k.book, b"John".to_vec());
    assert_eq!(k.chapter, 3);
    assert_eq!(k.verses, vec![16]);
}

#[test]
fn numeric_prefixed_book_is_joined() {
    let k = key_of(&["bibterm", "2", "John", "1", "4"]);
    assert_eq!(k.book, b"2 John".to_vec());
    assert_eq!(k.chapter, 1);
    assert_eq!(k.verses, vec![4]);
}

#[test]
fn range_token_expands_ascending() {
    let k = key_of(&["bibterm", "John", "3", "3-5"]);
    assert_eq!(k.verses, vec![3, 4, 5]);
}

#[test]
fn reversed_range_is_empty() {
    let k = key_of(&["bibterm", "John", "3", "5-3"]);
    assert_eq!(k.verses, Vec::<i32>::new());
}

#[test]
fn extra_range_part_is_ignored() {
    let k = key_of(&["bibterm", "John", "3", "3-5-7"]);
    assert_eq!(k.verses, vec![3, 4, 5]);
}

#[test]
fn verse_list_kept_in_order() {
    let k = key_of(&["bibterm", "John", "3", "16", "2", "9"]);
    assert_eq!(k.verses, vec![16, 2, 9]);
}

#[test]
fn negative_verse_in_list_parses() {
    let k = key_of(&["bibterm", "John", "3", "4", "-5"]);
    assert_eq!(k.verses, vec![4, -5]);
}

#[test]
fn malformed_chapter_is_invalid() {
    assert!(matches!(parse_args(&args(&["bibterm", "John", "abc", "16"])), ParseOutcome::Invalid));
}

#[test]
fn malformed_verse_is_invalid() {
    assert!(matches!(parse_args(&args(&["bibterm", "John", "3", "x"])), ParseOutcome::Invalid));
    assert!(matches!(parse_args(&args(&["bibterm", "John", "3", "16", "x"])), ParseOutcome::Invalid));
}

#[test]
fn malformed_range_bound_is_invalid() {
    assert!(matches!(parse_args(&args(&["bibterm", "John", "3", "3-"])), ParseOutcome::Invalid));
    assert!(matches!(parse_args(&args(&["bibterm", "John", "3", "-5"])), ParseOutcome::Invalid));
    assert!(matches!(parse_args(&args(&["bibterm", "John", "3", "a-5"])), ParseOutcome::Invalid));
}

#[test]
fn prefixed_book_without_verse_is_invalid() {
    assert!(matches!(parse_args(&args(&["bibterm", "2", "John", "3"])), ParseOutcome::Invalid));
}

#[test]
fn exit_codes_follow_outcome() {
    assert_eq!(parse_args(&args(&["bibterm"])).exit_code(), 1);
    assert_eq!(parse_args(&args(&["bibterm", "John", "abc", "16"])).exit_code(), 2);
    assert_eq!(parse_args(&args(&["bibterm", "John", "3", "16"])).exit_code(), 0);
}
