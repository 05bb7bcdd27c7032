use knowledge_base::matcher::{best_of, find_best, find_best_index, score, MAX_QUERY_LEN};
use knowledge_base::store::KnowledgeBase;

fn keys(items: &[&str]) -> Vec<String> {
    items.iter().map(|s| s.to_string()).collect()
}

#[test]
fn exact_match_wins() {
    assert_eq!(find_best("cat", &keys(&["cat", "dog"])), Some("cat".to_string()));
    assert_eq!(find_best("cat", &keys(&["dog", "cat"])), Some("cat".to_string()));
}

#[test]
fn exact_match_outranks_scattered_match() {
    assert_eq!(
        find_best("cat", &keys(&["c-a-t", "concatenate", "cat", "chat"])),
        Some("cat".to_string())
    );
    // Side by side beats scattered where both begin at the same place.
    assert_eq!(score("cat", "catxx"), Some(71));
    assert_eq!(score("cat", "cxaxt"), Some(55));
    assert_eq!(score("cat", "xcatx"), Some(55));
    assert_eq!(score("cat", "xcaxt"), Some(47));
    assert_eq!(find_best("cat", &keys(&["cxaxt", "catxx"])), Some("catxx".to_string()));
    assert_eq!(find_best("cat", &keys(&["xcaxt", "xcatx"])), Some("xcatx".to_string()));
}

#[test]
fn subsequence_match_is_found() {
    assert_eq!(find_best("ct", &keys(&["cat", "bird"])), Some("cat".to_string()));
}

#[test]
fn no_match_gives_none() {
    assert_eq!(find_best("xyz", &keys(&["cat", "dog"])), None);
    assert_eq!(find_best_index("xyz", &keys(&["cat", "dog"])), None);
}

#[test]
fn characters_out_of_order_do_not_match() {
    assert_eq!(score("tac", "cat"), None);
    assert_eq!(find_best("tc", &keys(&["cat"])), None);
}

#[test]
fn empty_key_set_gives_none() {
    assert_eq!(find_best("cat", &Vec::new()), None);
    assert_eq!(find_best("", &Vec::new()), None);
    assert_eq!(find_best("anything at all", &Vec::new()), None);
    assert_eq!(find_best_index("q", &Vec::new()), None);
}

#[test]
fn score_of_exact_match() {
    assert_eq!(score("cat", "cat"), Some(71));
}

#[test]
fn score_of_subsequence_match() {
    assert_eq!(score("ct", "cat"), Some(43));
}

#[test]
fn score_is_none_without_a_match() {
    assert_eq!(score("xyz", "cat"), None);
    assert_eq!(score("cats", "cat"), None);
}

#[test]
fn empty_query_scores_zero() {
    assert_eq!(score("", "cat"), Some(0));
    assert_eq!(score("", ""), Some(0));
    assert_eq!(find_best_index("", &keys(&["b", "a"])), Some(0));
}

#[test]
fn lower_case_query_ignores_case() {
    assert!(score("cat", "CAT").is_some());
    assert!(score("cat", "Cat").is_some());
}

#[test]
fn upper_case_query_matches_lower_case_key() {
    assert_eq!(find_best("CAT", &keys(&["cat"])), Some("cat".to_string()));
    assert_eq!(find_best("CAT", &keys(&["dog", "cat"])), Some("cat".to_string()));
    assert_eq!(find_best("cAt", &keys(&["bird", "CaT"])), Some("CaT".to_string()));
    let mut kb = KnowledgeBase::new();
    kb.insert("cat".to_string(), "meow".to_string()).unwrap();
    assert_eq!(kb.fuzzy_lookup("CAT"), Some(&"meow".to_string()));
    assert_eq!(kb.fuzzy_lookup("CT"), Some(&"meow".to_string()));
    assert_eq!(kb.fuzzy_lookup("XYZ"), None);
}

#[test]
fn case_is_disregarded_but_counts_in_the_score() {
    assert_eq!(score("Cat", "Cat"), Some(71));
    assert_eq!(score("Cat", "cat"), Some(69));
    assert_eq!(score("CAT", "cat"), Some(65));
    assert_eq!(score("cat", "CAT"), Some(65));
    assert_eq!(find_best("Cat", &keys(&["cat", "Cat"])), Some("Cat".to_string()));
    assert_eq!(score("É", "é"), None);
}

#[test]
fn score_does_not_depend_on_earlier_calls() {
    let fresh = score("aaa", "aaaa");
    let _ = score("a", "aaaaaa");
    let _ = score("abc", "a-b-c/abc");
    assert_eq!(score("aaa", "aaaa"), fresh);
}

#[test]
fn over_long_query_is_not_scored() {
    let long = "a".repeat(MAX_QUERY_LEN + 1);
    assert_eq!(score(&long, &long), None);
    assert_eq!(find_best(&long, &vec![long.clone()]), None);
}

#[test]
fn equal_scores_go_to_the_first_key() {
    assert_eq!(score("ca", "cab"), score("ca", "cat"));
    assert_eq!(find_best_index("ca", &keys(&["cab", "cat"])), Some(0));
    assert_eq!(find_best("ca", &keys(&["cab", "cat"])), Some("cab".to_string()));
    assert_eq!(find_best("ca", &keys(&["cat", "cab"])), Some("cat".to_string()));
    assert_eq!(find_best_index("x", &keys(&["x", "x", "x"])), Some(0));
}

#[test]
fn best_of_picks_the_first_highest() {
    assert_eq!(best_of(&vec![None, Some(3), Some(7), Some(7), Some(-1)]), Some(2));
    assert_eq!(best_of(&vec![Some(-5), None, Some(-9)]), Some(0));
    assert_eq!(best_of(&vec![Some(i64::MIN)]), Some(0));
    assert_eq!(best_of(&vec![None, Some(i64::MIN), Some(i64::MAX)]), Some(2));
}

#[test]
fn best_of_nothing_is_none() {
    assert_eq!(best_of(&Vec::new()), None);
    assert_eq!(best_of(&vec![None, None]), None);
}

#[test]
fn fuzzy_lookup_answers_with_the_value() {
    let mut kb = KnowledgeBase::new();
    kb.insert("favourite color".to_string(), "blue".to_string()).unwrap();
    kb.insert("capital of France".to_string(), "Paris".to_string()).unwrap();
    assert_eq!(kb.fuzzy_lookup("color"), Some(&"blue".to_string()));
    assert_eq!(kb.fuzzy_lookup("france"), Some(&"Paris".to_string()));
    assert_eq!(kb.fuzzy_lookup("capfr"), Some(&"Paris".to_string()));
    assert_eq!(kb.fuzzy_lookup("xyz"), None);
}

#[test]
fn fuzzy_lookup_in_empty_base_is_none() {
    let kb = KnowledgeBase::new();
    assert_eq!(kb.fuzzy_lookup("color"), None);
    assert_eq!(kb.fuzzy_lookup(""), None);
}

#[test]
fn fuzzy_lookup_does_not_change_the_base() {
    let mut kb = KnowledgeBase::new();
    kb.insert("cat".to_string(), "meow".to_string()).unwrap();
    let before = kb.snapshot();
    let _ = kb.fuzzy_lookup("ct");
    assert_eq!(kb.snapshot(), before);
}

#[test]
fn long_texts_are_scored() {
    let long_key = "a".repeat(100_000);
    assert!(score("aaaa", &long_key).is_some());
    let long = "ab".repeat(1000);
    assert!(score(&long, &long).is_some());
    let mut gap = String::from("a");
    gap.push_str(&"b".repeat(200_000));
    gap.push('a');
    assert!(score("aa", &gap).is_some());
    assert_eq!(score("aaa", &gap), None);
    assert_eq!(find_best("aa", &vec![gap.clone(), "aa".to_string()]), Some("aa".to_string()));
}
