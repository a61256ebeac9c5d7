use chatspy::match_pattern::{MatchMode, MatchPattern};
use chatspy::PatternStorage;

fn pattern_with(words: &[&str]) -> MatchPattern {
    MatchPattern::builder()
        .words(words.iter().map(|w| w.to_string()).collect())
        .build()
}

#[test]
fn first_registration_becomes_active_without_asking() {
    let mut s = PatternStorage::new();
    assert!(s.default_pattern().is_none());
    s.add("first".to_string(), pattern_with(&["aaa"]), false)
        .unwrap();
    let active = s.default_pattern().expect("the first pattern becomes active");
    assert_eq!(active.words(), &vec!["aaa".to_string()]);
}

#[test]
fn duplicate_name_fails_and_keeps_the_active_pattern() {
    let mut s = PatternStorage::new();
    s.add("foo".to_string(), pattern_with(&["aaa"]), false)
        .unwrap();
    let second = s.add("foo".to_string(), pattern_with(&["bbb"]), true);
    assert!(second.is_err());
    let active = s.default_pattern().unwrap();
    assert_eq!(active.words(), &vec!["aaa".to_string()]);
    assert!(s.contains_name("foo"));
}

#[test]
fn explicit_default_supersedes_the_active_pattern() {
    let mut s = PatternStorage::new();
    s.add("one".to_string(), pattern_with(&["aaa"]), false)
        .unwrap();
    s.add("two".to_string(), pattern_with(&["bbb"]), true)
        .unwrap();
    let active = s.default_pattern().unwrap();
    assert_eq!(active.words(), &vec!["bbb".to_string()]);
}

#[test]
fn later_registration_without_default_keeps_the_active_pattern() {
    let mut s = PatternStorage::new();
    s.add("one".to_string(), pattern_with(&["aaa"]), false)
        .unwrap();
    s.add("two".to_string(), pattern_with(&["bbb"]), false)
        .unwrap();
    let active = s.default_pattern().unwrap();
    assert_eq!(active.words(), &vec!["aaa".to_string()]);
}

#[test]
fn default_is_an_empty_registry() {
    let s = PatternStorage::default();
    assert!(s.default_pattern().is_none());
    assert!(!s.contains_name("anything"));
    let _ = MatchMode::default();
}
