use flodo::text::{collapsed, parse_u64, same_str, split_words, trimmed};

#[test]
fn parsing_ids_accepts_what_the_standard_parser_does() {
    assert_eq!(parse_u64("42"), Some(42));
    assert_eq!(parse_u64("+7"), Some(7));
    assert_eq!(parse_u64("18446744073709551615"), Some(u64::MAX));
    assert_eq!(parse_u64("18446744073709551616"), None);
    assert_eq!(parse_u64(""), None);
    assert_eq!(parse_u64("+"), None);
    assert_eq!(parse_u64("-1"), None);
    assert_eq!(parse_u64("1a"), None);
    assert_eq!(parse_u64(" 1"), None);
}

#[test]
fn trimming_and_collapsing_follow_unicode_whitespace() {
    let v: Vec<char> = "\u{3000} a \u{a0}b\t\n".chars().collect();
    assert_eq!(trimmed(&v).into_iter().collect::<String>(), "a \u{a0}b");
    assert_eq!(collapsed(&v).into_iter().collect::<String>(), "a b");
    let words = split_words(&v);
    assert_eq!(words.len(), 2);
}

#[test]
fn same_str_compares_characters() {
    assert!(same_str("é", "é"));
    assert!(!same_str("e", "é"));
}
