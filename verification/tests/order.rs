use std::cmp::Ordering;

use fuzzy_search::order::{first_mismatch, same_bytes};
use fuzzy_search::SearchResult;

fn hit(key: &str, value: u64, is_exact: bool) -> SearchResult {
    SearchResult { key: key.as_bytes().to_vec(), value, is_exact }
}

#[test]
fn first_mismatch_of_equal_keys_is_their_length() {
    assert_eq!(first_mismatch(b"abc", b"abc"), 3);
    assert_eq!(first_mismatch(b"", b""), 0);
}

#[test]
fn first_mismatch_stops_at_the_shorter_key() {
    assert_eq!(first_mismatch(b"ab", b"abc"), 2);
    assert_eq!(first_mismatch(b"abc", b"ab"), 2);
    assert_eq!(first_mismatch(b"", b"abc"), 0);
}

#[test]
fn first_mismatch_finds_the_first_difference() {
    assert_eq!(first_mismatch(b"abcx", b"abdx"), 2);
    assert_eq!(first_mismatch(b"xbc", b"abc"), 0);
}

#[test]
fn same_bytes_compares_whole_keys() {
    assert!(same_bytes(b"foo", b"foo"));
    assert!(same_bytes(b"", b""));
    assert!(!same_bytes(b"foo", b"fo"));
    assert!(!same_bytes(b"fo", b"foo"));
    assert!(!same_bytes(b"foo", b"fop"));
}

#[test]
fn new_marks_the_exact_match() {
    let exact = SearchResult::new(b"foo".to_vec(), 10, b"foo");
    assert_eq!(exact.key, b"foo".to_vec());
    assert_eq!(exact.value, 10);
    assert!(exact.is_exact);
    let near = SearchResult::new(b"food".to_vec(), 8, b"foo");
    assert!(!near.is_exact);
    let prefix = SearchResult::new(b"fo".to_vec(), 5, b"foo");
    assert!(!prefix.is_exact);
}

#[test]
fn exact_match_is_less_whatever_the_score() {
    let exact = hit("cat", 0, true);
    let near = hit("bat", u64::MAX, false);
    assert_eq!(exact.cmp(&near), Ordering::Less);
    assert_eq!(near.cmp(&exact), Ordering::Greater);
}

#[test]
fn higher_score_is_less_among_equal_exactness() {
    let high = hit("zzz", 9, false);
    let low = hit("aaa", 8, false);
    assert_eq!(high.cmp(&low), Ordering::Less);
    assert_eq!(low.cmp(&high), Ordering::Greater);
}

#[test]
fn smaller_key_is_less_among_equal_scores() {
    let bat = hit("bat", 3, false);
    let hat = hit("hat", 3, false);
    let ba = hit("ba", 3, false);
    assert_eq!(bat.cmp(&hat), Ordering::Less);
    assert_eq!(hat.cmp(&bat), Ordering::Greater);
    assert_eq!(ba.cmp(&bat), Ordering::Less);
    assert_eq!(bat.cmp(&ba), Ordering::Greater);
}

#[test]
fn keys_compare_as_unsigned_bytes() {
    let low = SearchResult { key: vec![0x7f], value: 1, is_exact: false };
    let high = SearchResult { key: vec![0x80], value: 1, is_exact: false };
    assert_eq!(low.cmp(&high), Ordering::Less);
}

#[test]
fn equal_matches_compare_equal() {
    let a = hit("foo", 10, true);
    let b = hit("foo", 10, true);
    assert_eq!(a.cmp(&b), Ordering::Equal);
    assert_eq!(a.partial_cmp(&b), Some(Ordering::Equal));
    assert!(a == b);
    assert!(!(a < b));
    assert!(a <= b);
}

#[test]
fn partial_cmp_is_cmp() {
    let exact = hit("cat", 1, true);
    let near = hit("bat", 7, false);
    assert_eq!(exact.partial_cmp(&near), Some(Ordering::Less));
    assert_eq!(near.partial_cmp(&exact), Some(Ordering::Greater));
    assert!(exact < near);
    assert!(near > exact);
    assert!(exact != near);
}

#[test]
fn outranks_is_strict() {
    let a = hit("foo", 10, false);
    let b = hit("foo", 10, false);
    let c = hit("foo", 9, false);
    assert!(!a.outranks(&b));
    assert!(a.outranks(&c));
    assert!(!c.outranks(&a));
}

#[test]
fn equality_looks_at_every_field() {
    let a = hit("foo", 10, false);
    assert!(a != hit("foo", 10, true));
    assert!(a != hit("foo", 11, false));
    assert!(a != hit("fop", 10, false));
}
