use knowledge_base::store::{Fact, KnowledgeBase, LoadOutcome, StoreError, Stored};

fn pair(key: &str, value: &str) -> (String, String) {
    (key.to_string(), value.to_string())
}

#[test]
fn new_base_is_empty() {
    let kb = KnowledgeBase::new();
    assert_eq!(kb.len(), 0);
    assert!(kb.is_empty());
    assert_eq!(kb.identity(), None);
    assert!(kb.snapshot().is_empty());
    assert!(kb.keys().is_empty());
    assert_eq!(kb.fact(0), None);
}

#[test]
fn insert_adds_a_fact() {
    let mut kb = KnowledgeBase::new();
    assert_eq!(kb.insert("color".to_string(), "blue".to_string()), Ok(()));
    assert_eq!(kb.len(), 1);
    assert!(!kb.is_empty());
    assert_eq!(kb.get("color"), Some(&"blue".to_string()));
    assert_eq!(kb.get("colour"), None);
    assert_eq!(kb.find(&"color".to_string()), Some(0));
    assert_eq!(kb.find(&"shape".to_string()), None);
}

#[test]
fn insert_keeps_the_order_of_first_teaching() {
    let mut kb = KnowledgeBase::new();
    kb.insert("b".to_string(), "2".to_string()).unwrap();
    kb.insert("a".to_string(), "1".to_string()).unwrap();
    kb.insert("c".to_string(), "3".to_string()).unwrap();
    kb.insert("a".to_string(), "one".to_string()).unwrap();
    assert_eq!(kb.keys(), vec!["b".to_string(), "a".to_string(), "c".to_string()]);
    assert_eq!(kb.snapshot(), vec![pair("b", "2"), pair("a", "one"), pair("c", "3")]);
    assert_eq!(
        kb.fact(1),
        Some(&Fact { key: "a".to_string(), value: "one".to_string() })
    );
    assert_eq!(kb.fact(3), None);
}

#[test]
fn insert_twice_changes_nothing_the_second_time() {
    let mut kb = KnowledgeBase::new();
    kb.insert("sky".to_string(), "grey".to_string()).unwrap();
    kb.insert("color".to_string(), "blue".to_string()).unwrap();
    let once = kb.snapshot();
    kb.insert("color".to_string(), "blue".to_string()).unwrap();
    assert_eq!(kb.snapshot(), once);
    assert_eq!(kb.len(), 2);
}

#[test]
fn insert_of_a_known_key_overwrites_without_growing() {
    let mut kb = KnowledgeBase::new();
    kb.insert("color".to_string(), "blue".to_string()).unwrap();
    kb.insert("shape".to_string(), "round".to_string()).unwrap();
    assert_eq!(kb.len(), 2);
    kb.insert("color".to_string(), "red".to_string()).unwrap();
    assert_eq!(kb.len(), 2);
    assert_eq!(kb.get("color"), Some(&"red".to_string()));
    assert_eq!(kb.get("shape"), Some(&"round".to_string()));
}

#[test]
fn keys_are_compared_exactly() {
    let mut kb = KnowledgeBase::new();
    kb.insert("Color".to_string(), "blue".to_string()).unwrap();
    kb.insert("color".to_string(), "red".to_string()).unwrap();
    kb.insert(" color".to_string(), "green".to_string()).unwrap();
    assert_eq!(kb.len(), 3);
    assert_eq!(kb.get("Color"), Some(&"blue".to_string()));
    assert_eq!(kb.get("color"), Some(&"red".to_string()));
    assert_eq!(kb.get(" color"), Some(&"green".to_string()));
}

#[test]
fn empty_key_is_refused() {
    let mut kb = KnowledgeBase::new();
    kb.insert("color".to_string(), "blue".to_string()).unwrap();
    assert_eq!(
        kb.insert(String::new(), "x".to_string()),
        Err(StoreError::EmptyKey)
    );
    assert_eq!(kb.snapshot(), vec![pair("color", "blue")]);
}

#[test]
fn empty_value_is_taken() {
    let mut kb = KnowledgeBase::new();
    assert_eq!(kb.insert("k".to_string(), String::new()), Ok(()));
    assert_eq!(kb.get("k"), Some(&String::new()));
}

#[test]
fn bulk_insert_applies_pairs_in_order() {
    let mut kb = KnowledgeBase::new();
    kb.insert("a".to_string(), "0".to_string()).unwrap();
    let pairs = vec![pair("b", "1"), pair("", "skipped"), pair("a", "2"), pair("b", "3")];
    assert_eq!(kb.bulk_insert(&pairs), 3);
    assert_eq!(kb.snapshot(), vec![pair("a", "2"), pair("b", "3")]);
}

#[test]
fn bulk_insert_of_nothing_changes_nothing() {
    let mut kb = KnowledgeBase::new();
    kb.insert("a".to_string(), "0".to_string()).unwrap();
    assert_eq!(kb.bulk_insert(&Vec::new()), 0);
    assert_eq!(kb.snapshot(), vec![pair("a", "0")]);
}

#[test]
fn reset_forgets_facts_and_name() {
    let mut kb = KnowledgeBase::new();
    kb.set_identity("Ada".to_string());
    kb.insert("color".to_string(), "blue".to_string()).unwrap();
    kb.reset();
    assert!(kb.is_empty());
    assert_eq!(kb.len(), 0);
    assert_eq!(kb.identity(), None);
    assert_eq!(kb.get("color"), None);
    // What is written out after a reset loads as an empty base again.
    let (again, outcome) = KnowledgeBase::load(Stored::Document(
        kb.identity().cloned(),
        kb.snapshot(),
    ));
    assert_eq!(outcome, LoadOutcome::Fresh);
    assert!(again.is_empty());
    assert_eq!(again.identity(), None);
}

#[test]
fn identity_is_kept() {
    let mut kb = KnowledgeBase::new();
    assert_eq!(kb.identity(), None);
    kb.set_identity("Ada".to_string());
    assert_eq!(kb.identity(), Some(&"Ada".to_string()));
    kb.insert("color".to_string(), "blue".to_string()).unwrap();
    assert_eq!(kb.identity(), Some(&"Ada".to_string()));
}

#[test]
fn introduce_trims_the_name() {
    let mut kb = KnowledgeBase::new();
    kb.insert("color".to_string(), "blue".to_string()).unwrap();
    kb.introduce("  Grace Hopper \n");
    assert_eq!(kb.identity(), Some(&"Grace Hopper".to_string()));
    assert_eq!(kb.len(), 1);
}

#[test]
fn snapshot_and_from_parts_round_trip() {
    let mut kb = KnowledgeBase::new();
    kb.set_identity("Ada".to_string());
    kb.insert("b".to_string(), "2".to_string()).unwrap();
    kb.insert("a".to_string(), "".to_string()).unwrap();
    kb.insert("→".to_string(), "arrow".to_string()).unwrap();
    let again = KnowledgeBase::from_parts(kb.identity().cloned(), &kb.snapshot());
    assert_eq!(again.identity(), kb.identity());
    assert_eq!(again.snapshot(), kb.snapshot());
    assert_eq!(again.keys(), kb.keys());
}

#[test]
fn from_parts_keeps_the_last_value_of_a_repeated_key() {
    let pairs = vec![pair("a", "1"), pair("b", "2"), pair("a", "3"), pair("", "4")];
    let kb = KnowledgeBase::from_parts(None, &pairs);
    assert_eq!(kb.snapshot(), vec![pair("a", "3"), pair("b", "2")]);
    assert_eq!(kb.identity(), None);
}

#[test]
fn load_of_missing_store_starts_empty() {
    let (kb, outcome) = KnowledgeBase::load(Stored::Missing);
    assert_eq!(outcome, LoadOutcome::RecoveredFromMissing);
    assert!(kb.is_empty());
    assert_eq!(kb.identity(), None);
}

#[test]
fn load_of_corrupt_store_starts_empty() {
    let (kb, outcome) = KnowledgeBase::load(Stored::Corrupt);
    assert_eq!(outcome, LoadOutcome::RecoveredFromCorrupt);
    assert!(kb.is_empty());
    assert_eq!(kb.identity(), None);
}

#[test]
fn load_of_document_restores_it() {
    let stored = Stored::Document(
        Some("Ada".to_string()),
        vec![pair("color", "blue"), pair("shape", "round")],
    );
    let (kb, outcome) = KnowledgeBase::load(stored);
    assert_eq!(outcome, LoadOutcome::Fresh);
    assert_eq!(kb.identity(), Some(&"Ada".to_string()));
    assert_eq!(kb.snapshot(), vec![pair("color", "blue"), pair("shape", "round")]);
}

#[test]
fn default_base_is_empty() {
    let kb = KnowledgeBase::default();
    assert!(kb.is_empty());
    assert_eq!(kb.identity(), None);
}

#[test]
fn number_of_facts_follows_the_keys() {
    let mut kb = KnowledgeBase::new();
    for (i, key) in ["a", "b", "a", "c", "b", "a"].iter().enumerate() {
        kb.insert(key.to_string(), i.to_string()).unwrap();
    }
    assert_eq!(kb.len(), 3);
    assert_eq!(kb.snapshot(), vec![pair("a", "5"), pair("b", "4"), pair("c", "3")]);
}
