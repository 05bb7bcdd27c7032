use knowledge_base::store::{Fact, KnowledgeBase};
use knowledge_base::teaching::{begin, is_sentinel, step, TeachEffect, TeachState};

fn pair(key: &str, value: &str) -> (String, String) {
    (key.to_string(), value.to_string())
}

#[test]
fn session_begins_awaiting_a_key() {
    assert_eq!(begin(), TeachState::AwaitingKey);
}

#[test]
fn key_then_value_commits_the_pair() {
    let mut kb = KnowledgeBase::new();
    let (state, effect) = step(begin(), " color \n", &mut kb);
    assert_eq!(state, TeachState::AwaitingValue("color".to_string()));
    assert_eq!(effect, TeachEffect::KeyTaken);
    assert!(kb.is_empty());
    let (state, effect) = step(state, "  blue\n", &mut kb);
    assert_eq!(state, TeachState::AwaitingKey);
    assert_eq!(
        effect,
        TeachEffect::Learned(Fact { key: "color".to_string(), value: "blue".to_string() })
    );
    assert_eq!(kb.snapshot(), vec![pair("color", "blue")]);
}

#[test]
fn done_as_key_ends_the_session() {
    let mut kb = KnowledgeBase::new();
    let (state, effect) = step(begin(), "done\n", &mut kb);
    assert_eq!(state, TeachState::Idle);
    assert_eq!(effect, TeachEffect::Finished);
    assert!(kb.is_empty());
}

#[test]
fn done_as_value_commits_nothing_and_keeps_earlier_pairs() {
    let mut kb = KnowledgeBase::new();
    let (state, _) = step(begin(), "color", &mut kb);
    let (state, _) = step(state, "blue", &mut kb);
    let (state, _) = step(state, "shape", &mut kb);
    assert_eq!(state, TeachState::AwaitingValue("shape".to_string()));
    let (state, effect) = step(state, "done", &mut kb);
    assert_eq!(state, TeachState::Idle);
    assert_eq!(effect, TeachEffect::Finished);
    assert_eq!(kb.snapshot(), vec![pair("color", "blue")]);
    assert_eq!(kb.get("shape"), None);
}

#[test]
fn done_is_recognised_in_any_case_and_with_blanks() {
    assert!(is_sentinel("done"));
    assert!(is_sentinel("DONE"));
    assert!(is_sentinel("  DoNe \n"));
    assert!(!is_sentinel("done."));
    assert!(!is_sentinel("do ne"));
    assert!(!is_sentinel("don"));
    assert!(!is_sentinel(""));
    let mut kb = KnowledgeBase::new();
    let (state, _) = step(begin(), "k", &mut kb);
    let (state, effect) = step(state, " Done ", &mut kb);
    assert_eq!(state, TeachState::Idle);
    assert_eq!(effect, TeachEffect::Finished);
    assert!(kb.is_empty());
}

#[test]
fn several_pairs_in_one_session() {
    let mut kb = KnowledgeBase::new();
    let mut state = begin();
    for line in ["a", "1", "b", "2", "a", "3", "done"] {
        let (next, _) = step(state, line, &mut kb);
        state = next;
    }
    assert_eq!(state, TeachState::Idle);
    assert_eq!(kb.snapshot(), vec![pair("a", "3"), pair("b", "2")]);
}

#[test]
fn empty_key_is_refused_when_its_value_comes() {
    let mut kb = KnowledgeBase::new();
    let (state, effect) = step(begin(), "   ", &mut kb);
    assert_eq!(state, TeachState::AwaitingValue(String::new()));
    assert_eq!(effect, TeachEffect::KeyTaken);
    let (state, effect) = step(state, "value", &mut kb);
    assert_eq!(state, TeachState::AwaitingKey);
    assert_eq!(effect, TeachEffect::Refused);
    assert!(kb.is_empty());
}

#[test]
fn empty_value_is_committed() {
    let mut kb = KnowledgeBase::new();
    let (state, _) = step(begin(), "k", &mut kb);
    let (_, effect) = step(state, "", &mut kb);
    assert_eq!(
        effect,
        TeachEffect::Learned(Fact { key: "k".to_string(), value: String::new() })
    );
    assert_eq!(kb.get("k"), Some(&String::new()));
}

#[test]
fn lines_outside_a_session_are_ignored() {
    let mut kb = KnowledgeBase::new();
    kb.insert("a".to_string(), "1".to_string()).unwrap();
    let (state, effect) = step(TeachState::Idle, "color", &mut kb);
    assert_eq!(state, TeachState::Idle);
    assert_eq!(effect, TeachEffect::Ignored);
    assert_eq!(kb.snapshot(), vec![pair("a", "1")]);
}

#[test]
fn teaching_keeps_the_name() {
    let mut kb = KnowledgeBase::new();
    kb.set_identity("Ada".to_string());
    let (state, _) = step(begin(), "k", &mut kb);
    let _ = step(state, "v", &mut kb);
    assert_eq!(kb.identity(), Some(&"Ada".to_string()));
}

#[test]
fn abort_after_many_pairs_keeps_the_last_value_of_each_key() {
    let mut kb = KnowledgeBase::new();
    kb.insert("old".to_string(), "kept".to_string()).unwrap();
    let mut state = begin();
    let typed = [
        ("a", "1"), ("b", "2"), (" a ", " 3 "), ("c", ""), ("b", "4"), ("", "lost"), ("a", "5"),
    ];
    for (key, value) in typed {
        let (next, _) = step(state, key, &mut kb);
        let (next, _) = step(next, value, &mut kb);
        state = next;
        assert_eq!(state, TeachState::AwaitingKey);
    }
    let (state, _) = step(state, "pending", &mut kb);
    let (state, effect) = step(state, "DONE", &mut kb);
    assert_eq!(state, TeachState::Idle);
    assert_eq!(effect, TeachEffect::Finished);
    assert_eq!(
        kb.snapshot(),
        vec![pair("old", "kept"), pair("a", "5"), pair("b", "4"), pair("c", "")]
    );
    assert_eq!(kb.get("pending"), None);
}
