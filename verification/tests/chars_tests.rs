use taggen::parse_chars;
use taggen::length_conflicts;

#[test]
fn parse_chars_mixed_alphabet() {
    let chars = parse_chars("abc123").unwrap();
    assert_eq!(chars.value, vec!['a', 'b', 'c', '1', '2', '3']);
    assert!(chars.has_digit);
    assert!(chars.has_alphabetic);
}

#[test]
fn parse_chars_digits_only() {
    let chars = parse_chars("0123456789").unwrap();
    assert!(chars.has_digit);
    assert!(!chars.has_alphabetic);
}

#[test]
fn parse_chars_letters_only() {
    let chars = parse_chars("dfqsvz").unwrap();
    assert!(!chars.has_digit);
    assert!(chars.has_alphabetic);
}

#[test]
fn parse_chars_upper_and_lower() {
    let chars = parse_chars("AzZ9").unwrap();
    assert!(chars.has_digit);
    assert!(chars.has_alphabetic);
    assert_eq!(chars.value.len(), 4);
}

#[test]
fn parse_chars_deduplicates_repeated_symbols() {
    let chars = parse_chars("aab1a1").unwrap();
    assert_eq!(chars.value, vec!['a', 'b', '1']);
    assert!(chars.has_digit);
    assert!(chars.has_alphabetic);
}

#[test]
fn parse_chars_rejects_empty() {
    let err = parse_chars("").unwrap_err();
    assert_eq!(err, "not all chars is ascii alphanumeric");
}

#[test]
fn parse_chars_rejects_punctuation() {
    assert!(parse_chars("ab!").is_err());
    assert!(parse_chars("a b").is_err());
    assert!(parse_chars("a_1").is_err());
}

#[test]
fn length_conflict_only_for_length_one_mixed_alphabet() {
    let mixed = parse_chars("a1").unwrap();
    assert!(length_conflicts(&mixed, 1));
    assert!(!length_conflicts(&mixed, 2));
    let letters = parse_chars("ab").unwrap();
    assert!(!length_conflicts(&letters, 1));
}
