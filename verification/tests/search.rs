use fst::automaton::Levenshtein;
use fuzzy_search::models::{Search, SearchQuery};
use fuzzy_search::{perform_search, rank_stream, Index};
use fuzzy_search::service::{conclude, find_exact, requested_query, search, MATCH_DISTANCE};

fn index(entries: &[(&str, u64)]) -> Index {
    let mut sorted: Vec<(Vec<u8>, u64)> =
        entries.iter().map(|(k, v)| (k.as_bytes().to_vec(), *v)).collect();
    sorted.sort();
    Index::from_entries(&sorted).unwrap()
}

fn index_of(entries: Vec<(String, u64)>) -> Index {
    let mut sorted: Vec<(Vec<u8>, u64)> =
        entries.into_iter().map(|(k, v)| (k.into_bytes(), v)).collect();
    sorted.sort();
    Index::from_entries(&sorted).unwrap()
}

fn found(results: &[SearchQuery]) -> Vec<&str> {
    results.iter().map(|r| r.found.as_str()).collect()
}

fn entry(found: &str, score: &str) -> SearchQuery {
    SearchQuery { found: found.to_string(), score: score.to_string(), exist: true }
}

#[test]
fn exact_match_first_then_by_score() {
    let map = index(&[("foo", 10), ("food", 8), ("fo", 5)]);
    let results = perform_search(&map, "foo", 1);
    assert_eq!(results, vec![entry("foo", "10"), entry("food", "8"), entry("fo", "5")]);
}

#[test]
fn exactness_decides_before_score_and_key() {
    let map = index(&[("cat", 3), ("bat", 3)]);
    let results = perform_search(&map, "cat", 1);
    assert_eq!(results, vec![entry("cat", "3"), entry("bat", "3")]);
}

#[test]
fn exact_match_leads_with_the_lowest_score() {
    let map = index(&[("cat", 1), ("bat", 500), ("hat", 900), ("cart", 7)]);
    let results = perform_search(&map, "cat", 1);
    assert_eq!(found(&results), vec!["cat", "hat", "bat", "cart"]);
}

#[test]
fn equal_scores_are_ordered_by_key() {
    let map = index(&[("rat", 3), ("bat", 3), ("hat", 3), ("at", 3), ("mat", 4)]);
    let results = perform_search(&map, "cat", 1);
    assert_eq!(found(&results), vec!["mat", "at", "bat", "hat", "rat"]);
}

#[test]
fn fifty_matches_give_the_ten_best() {
    let mut entries: Vec<(String, u64)> = Vec::new();
    for (i, c) in ('a'..='z').enumerate() {
        if c != 't' {
            entries.push((format!("{}est", c), 100 + i as u64));
        }
    }
    for (i, c) in ('a'..='y').enumerate() {
        entries.push((format!("test{}", c), 200 + i as u64));
    }
    assert_eq!(entries.len(), 50);
    let map = index_of(entries);
    let results = perform_search(&map, "test", 1);
    assert_eq!(results.len(), 10);
    let expected: Vec<SearchQuery> = ('p'..='y')
        .rev()
        .enumerate()
        .map(|(i, c)| entry(&format!("test{}", c), &(224 - i as u64).to_string()))
        .collect();
    assert_eq!(results, expected);
}

#[test]
fn exact_match_counts_toward_the_ten() {
    let mut entries: Vec<(String, u64)> = vec![("test".to_string(), 0)];
    for (i, c) in ('a'..='z').enumerate() {
        entries.push((format!("test{}", c), 1 + i as u64));
    }
    let map = index_of(entries);
    let results = perform_search(&map, "test", 1);
    assert_eq!(results.len(), 10);
    assert_eq!(results[0], entry("test", "0"));
    assert_eq!(
        found(&results[1..]),
        vec!["testz", "testy", "testx", "testw", "testv", "testu", "testt", "tests", "testr"]
    );
}

#[test]
fn empty_index_gives_nothing() {
    let map = index(&[]);
    assert!(perform_search(&map, "foo", 1).is_empty());
}

#[test]
fn no_match_gives_nothing() {
    let map = index(&[("alpha", 1), ("beta", 2)]);
    assert!(perform_search(&map, "zzzzzz", 1).is_empty());
}

#[test]
fn query_that_builds_no_automaton_gives_nothing() {
    let query = "a".repeat(5000);
    assert!(Levenshtein::new(&query, 1).is_err());
    let map = index(&[("a", 1), ("aa", 2)]);
    assert!(perform_search(&map, &query, 1).is_empty());
}

#[test]
fn query_is_normalized_before_it_is_matched() {
    let map = index(&[("foo", 10), ("food", 8), ("fo", 5)]);
    let results = perform_search(&map, "  FoO\t", 1);
    assert_eq!(results, vec![entry("foo", "10"), entry("food", "8"), entry("fo", "5")]);
}

#[test]
fn distance_bounds_the_matches() {
    let map = index(&[("foo", 1), ("fooba", 2), ("foobar", 3), ("fob", 4)]);
    assert_eq!(found(&perform_search(&map, "foo", 0)), vec!["foo"]);
    assert_eq!(found(&perform_search(&map, "foo", 1)), vec!["foo", "fob"]);
    assert_eq!(found(&perform_search(&map, "foo", 2)), vec!["foo", "fob", "fooba"]);
}

#[test]
fn distance_counts_characters_not_bytes() {
    let map = index(&[("cafe", 1), ("café", 2), ("cafés", 3)]);
    let results = perform_search(&map, "CAFÉ", 1);
    assert_eq!(results, vec![entry("café", "2"), entry("cafés", "3"), entry("cafe", "1")]);
}

#[test]
fn empty_query_matches_within_its_distance() {
    let map = index(&[("a", 1), ("ab", 2), ("b", 3)]);
    assert_eq!(found(&perform_search(&map, "   ", 1)), vec!["b", "a"]);
}

#[test]
fn search_twice_gives_the_same() {
    let map = index(&[("foo", 10), ("food", 8), ("fo", 5), ("fob", 8), ("fop", 8)]);
    let first = perform_search(&map, "Foo", 1);
    let second = perform_search(&map, "Foo", 1);
    assert_eq!(first, second);
    assert_eq!(found(&first), vec!["foo", "fob", "food", "fop", "fo"]);
}

#[test]
fn service_searches_within_distance_one() {
    assert_eq!(MATCH_DISTANCE, 1);
    let map = index(&[("foo", 1), ("fooba", 2), ("fob", 4)]);
    assert_eq!(search(&map, "foo"), perform_search(&map, "foo", 1));
    assert_eq!(found(&search(&map, "foo")), vec!["foo", "fob"]);
}

#[test]
fn requested_query_is_the_trimmed_parameter() {
    let params = Search { q: "  Foo Bar \n".to_string() };
    assert_eq!(requested_query(&params), "Foo Bar");
}

#[test]
fn failed_search_concludes_with_nothing() {
    let outcome = conclude(None);
    assert!(outcome.results.is_empty());
    assert!(!outcome.found);
}

#[test]
fn empty_search_concludes_not_found() {
    let outcome = conclude(Some(Vec::new()));
    assert!(outcome.results.is_empty());
    assert!(!outcome.found);
}

#[test]
fn search_with_results_concludes_found() {
    let outcome = conclude(Some(vec![entry("foo", "10"), entry("fo", "5")]));
    assert_eq!(outcome.results, vec![entry("foo", "10"), entry("fo", "5")]);
    assert!(outcome.found);
}

#[test]
fn find_exact_answers_with_the_key_held() {
    let map = index(&[("foo", 10), ("food", 8), ("fo", 5)]);
    assert_eq!(find_exact(&map, " FOO "), vec![entry("foo", "10")]);
    assert_eq!(find_exact(&map, "fo"), vec![entry("fo", "5")]);
}

#[test]
fn find_exact_answers_nothing_for_a_key_not_held() {
    let map = index(&[("foo", 10), ("food", 8), ("fo", 5)]);
    assert!(find_exact(&map, "fop").is_empty());
    assert!(find_exact(&map, "").is_empty());
    assert!(find_exact(&index(&[]), "foo").is_empty());
}

#[test]
fn index_is_built_from_ascending_keys_only() {
    assert!(Index::from_entries(&vec![]).is_some());
    assert!(Index::from_entries(&vec![(b"a".to_vec(), 1), (b"b".to_vec(), 2)]).is_some());
    assert!(Index::from_entries(&vec![(b"a".to_vec(), 1), (b"ab".to_vec(), 0)]).is_some());
    assert!(Index::from_entries(&vec![(b"b".to_vec(), 1), (b"a".to_vec(), 2)]).is_none());
    assert!(Index::from_entries(&vec![(b"a".to_vec(), 1), (b"a".to_vec(), 2)]).is_none());
    assert!(Index::from_entries(&vec![(vec![0x80], 1), (vec![0x7f], 2)]).is_none());
}

#[test]
fn index_gets_the_score_of_a_key() {
    let map = index(&[("", 7), ("foo", 10), ("food", 8)]);
    assert_eq!(map.get(b"foo"), Some(10));
    assert_eq!(map.get(b"food"), Some(8));
    assert_eq!(map.get(b""), Some(7));
    assert_eq!(map.get(b"fo"), None);
    assert_eq!(map.get(b"foods"), None);
}

#[test]
fn stream_is_ranked_against_the_target() {
    let map = index(&[("fo", 5), ("fob", 9), ("foo", 1), ("food", 8), ("zzz", 100)]);
    let stream = map.search(Levenshtein::new("foo", 1).unwrap());
    let ranked = rank_stream(stream, b"foo");
    let keys: Vec<&[u8]> = ranked.iter().map(|r| r.key.as_slice()).collect();
    assert_eq!(keys, vec![&b"foo"[..], &b"fob"[..], &b"food"[..], &b"fo"[..]]);
    assert_eq!(ranked.iter().map(|r| r.is_exact).collect::<Vec<_>>(), vec![true, false, false, false]);
    assert_eq!(ranked.iter().map(|r| r.value).collect::<Vec<_>>(), vec![1, 9, 8, 5]);
}

#[test]
fn stream_ranked_against_another_target_has_no_exact_match() {
    let map = index(&[("fo", 5), ("foo", 1)]);
    let stream = map.search(Levenshtein::new("foo", 1).unwrap());
    let ranked = rank_stream(stream, b"bar");
    assert_eq!(ranked.iter().map(|r| r.is_exact).collect::<Vec<_>>(), vec![false, false]);
    assert_eq!(ranked.iter().map(|r| r.value).collect::<Vec<_>>(), vec![5, 1]);
}
