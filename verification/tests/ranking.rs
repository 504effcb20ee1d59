use fuzzy_search::{SearchResult, Shortlist, MAX_RESULTS};

fn hit(key: &str, value: u64, is_exact: bool) -> SearchResult {
    SearchResult { key: key.as_bytes().to_vec(), value, is_exact }
}

fn keys(list: Vec<SearchResult>) -> Vec<String> {
    list.into_iter().map(|r| String::from_utf8(r.key).unwrap()).collect()
}

#[test]
fn limit_is_ten() {
    assert_eq!(MAX_RESULTS, 10);
}

#[test]
fn empty_shortlist_holds_nothing() {
    let mut list = Shortlist::with_capacity(11);
    assert_eq!(list.len(), 0);
    assert!(list.pop().is_none());
    assert!(list.into_sorted_vec().is_empty());
}

#[test]
fn shortlist_sorts_what_is_pushed() {
    let mut list = Shortlist::with_capacity(11);
    list.push(hit("fo", 5, false));
    list.push(hit("food", 8, false));
    list.push(hit("foo", 10, true));
    assert_eq!(list.len(), 3);
    assert_eq!(keys(list.into_sorted_vec()), vec!["foo", "food", "fo"]);
}

#[test]
fn shortlist_puts_exact_first_whatever_the_score() {
    let mut list = Shortlist::with_capacity(11);
    list.push(hit("bat", 900, false));
    list.push(hit("cat", 1, true));
    list.push(hit("hat", 901, false));
    assert_eq!(keys(list.into_sorted_vec()), vec!["cat", "hat", "bat"]);
}

#[test]
fn shortlist_breaks_score_ties_by_key() {
    let mut list = Shortlist::with_capacity(11);
    list.push(hit("rat", 3, false));
    list.push(hit("bat", 3, false));
    list.push(hit("hat", 3, false));
    list.push(hit("ba", 3, false));
    assert_eq!(keys(list.into_sorted_vec()), vec!["ba", "bat", "hat", "rat"]);
}

#[test]
fn pop_takes_the_worst() {
    let mut list = Shortlist::with_capacity(11);
    list.push(hit("a", 1, false));
    list.push(hit("b", 3, false));
    list.push(hit("c", 2, false));
    let worst = list.pop().unwrap();
    assert_eq!(worst.key, b"a".to_vec());
    assert_eq!(worst.value, 1);
    assert_eq!(list.len(), 2);
    assert_eq!(keys(list.into_sorted_vec()), vec!["b", "c"]);
}

#[test]
fn push_then_pop_keeps_the_ten_best_of_fifty() {
    let mut list = Shortlist::with_capacity(MAX_RESULTS + 1);
    for i in 0..50u64 {
        let score = (i * 37) % 50;
        list.push(hit(&format!("key{:02}", i), score, false));
        if list.len() > MAX_RESULTS {
            list.pop();
        }
        assert!(list.len() <= MAX_RESULTS);
    }
    let scores: Vec<u64> = list.into_sorted_vec().into_iter().map(|r| r.value).collect();
    assert_eq!(scores, vec![49, 48, 47, 46, 45, 44, 43, 42, 41, 40]);
}

#[test]
fn pushed_duplicates_are_both_kept() {
    let mut list = Shortlist::with_capacity(11);
    list.push(hit("a", 1, false));
    list.push(hit("a", 1, false));
    assert_eq!(list.len(), 2);
}
