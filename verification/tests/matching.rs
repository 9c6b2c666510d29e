use litephoton::matching::{compile_regex, regex_find_items, Matcher, MatchStrategyIterator, RegexError};
use litephoton::common::{check_keyword, check_regex};

#[test]
fn compile_regex_accepts_valid_pattern() {
    let re = compile_regex("a+").unwrap();
    assert_eq!(re.as_str(), "a+");
}

#[test]
fn compile_regex_refuses_invalid_pattern() {
    assert!(matches!(compile_regex("("), Err(RegexError::Invalid)));
    assert!(matches!(compile_regex("[a-"), Err(RegexError::Invalid)));
}

#[test]
fn regex_find_items_gives_matches_in_order() {
    let re = compile_regex("a+").unwrap();
    let items = regex_find_items(&re, b"caaab aa");
    assert_eq!(items, vec![&b"aaa"[..], &b"aa"[..]]);
    assert!(regex_find_items(&re, b"xyz").is_empty());
}

#[test]
fn keyword_matcher_yields_whole_line() {
    let m = Matcher::Keyword(b"or".to_vec());
    let it = m.best_match(b"word").unwrap();
    assert_eq!(it.collect_all(), vec![&b"word"[..]]);
    assert!(m.best_match(b"wood").is_none());
}

#[test]
fn regex_matcher_yields_matched_parts() {
    let m = Matcher::Regex(compile_regex("[0-9]+").unwrap());
    assert_eq!(m.match_items(b"x1y22"), vec![&b"1"[..], &b"22"[..]]);
    assert!(m.best_match(b"xyz").is_none());
    assert!(m.match_items(b"xyz").is_empty());
}

#[test]
fn both_matcher_prefers_keyword() {
    let m = Matcher::Both(b"x".to_vec(), compile_regex("[0-9]").unwrap());
    assert_eq!(m.match_items(b"x1"), vec![&b"x1"[..]]);
    assert_eq!(m.match_items(b"y12"), vec![&b"1"[..], &b"2"[..]]);
    assert!(m.best_match(b"yz").is_none());
}

#[test]
fn match_strategy_iterator_hands_out_each_once() {
    let mut it = MatchStrategyIterator::Keyword(Some(&b"line"[..]));
    assert_eq!(it.next(), Some(&b"line"[..]));
    assert_eq!(it.next(), None);
    let mut it = MatchStrategyIterator::Regex { items: vec![&b"a"[..], &b"b"[..]], next: 0 };
    assert_eq!(it.next(), Some(&b"a"[..]));
    assert_eq!(it.next(), Some(&b"b"[..]));
    assert_eq!(it.next(), None);
}

#[test]
fn check_keyword_needs_a_non_empty_keyword() {
    assert_eq!(check_keyword(b"abc", b"b"), Some(&b"abc"[..]));
    assert_eq!(check_keyword(b"abc", b"d"), None);
    assert_eq!(check_keyword(b"abc", b""), None);
}

#[test]
fn check_regex_outcomes() {
    assert_eq!(check_regex(b"a1b2", b"[0-9]"), Ok(Some(vec![&b"1"[..], &b"2"[..]])));
    assert_eq!(check_regex(b"ab", b"[0-9]"), Ok(Some(vec![])));
    assert_eq!(check_regex(b"a1", b""), Ok(None));
    assert_eq!(check_regex(b"a1", b"("), Err(RegexError::Invalid));
}

#[test]
fn check_regex_reads_pattern_bytes_lossily() {
    // An invalid byte in the pattern stands for U+FFFD.
    let line = "x\u{FFFD}a".as_bytes();
    assert_eq!(check_regex(line, b"\xffa"), Ok(Some(vec!["\u{FFFD}a".as_bytes()])));
}
