use chatspy::match_pattern::{MatchMode, MatchPattern};

#[test]
fn mutation() {
    let mut p = MatchPattern::new();
    assert_eq!((p.min_len(), p.max_len()), (0, 0));

    p.insert("a");
    assert_eq!((p.min_len(), p.max_len()), (1, 1));

    p.insert("abc");
    assert_eq!((p.min_len(), p.max_len()), (1, 3));

    p.extend(vec![
        "s".to_string(),
        "as".to_string(),
        "abcd".to_string(),
        "abcde".to_string(),
    ]);
    assert_eq!((p.min_len(), p.max_len()), (1, 5));

    p.remove("a");
    assert_eq!((p.min_len(), p.max_len()), (1, 5));

    p.remove("s");
    assert_eq!((p.min_len(), p.max_len()), (2, 5));
}

#[test]
fn pattern() {
    let text = "some example text to match";

    let mut p = MatchPattern::new();
    assert_eq!(p.match_str(text), false);

    p.insert("mat");
    assert_eq!(p.match_str(text), false);

    p.insert("example");
    assert_eq!(p.match_str(text), true);
    p.remove("example");

    p.set_mode(MatchMode::Inclusive);
    assert_eq!(p.match_str(text), true);
}

#[test]
fn substring_mode_contiguous_run() {
    let mut p = MatchPattern::new();
    p.set_mode(MatchMode::Inclusive);
    p.insert("mat");
    // The token "match" contains "mat" as a contiguous run.
    assert!(p.match_str("some example text to match"));
    // No token of this message contains "mat" as a contiguous run.
    assert!(!p.match_str("m a t spread out"));

    let mut q = MatchPattern::new();
    q.set_mode(MatchMode::Inclusive);
    q.insert("example");
    assert!(q.match_str("some example text to match"));
}

#[test]
fn exact_mode_rejects_longer_token() {
    let mut p = MatchPattern::new();
    p.set_mode(MatchMode::Exclusive);
    p.insert("example");
    assert!(!p.match_str("examples"));
    assert!(p.match_str("example"));
}

#[test]
fn words_are_normalized_on_insert() {
    let mut p = MatchPattern::new();
    p.insert("ExAmPle");
    assert_eq!(p.words(), &vec!["example".to_string()]);
    // Tokens are normalized the same way before comparison.
    assert!(p.match_str("an EXAMPLE here"));
}

#[test]
fn builder_chains() {
    let p = MatchPattern::builder()
        .inclusive()
        .words(vec!["kek".to_string(), "jopa".to_string()])
        .build();
    assert!(matches!(p.mode(), MatchMode::Inclusive));
    assert_eq!(p.min_len(), 3);
    assert_eq!(p.max_len(), 4);
    assert!(p.match_str("total kekw"));

    let q = MatchPattern::builder().mode(MatchMode::Exclusive).build();
    assert!(matches!(q.mode(), MatchMode::Exclusive));
}

#[test]
fn remove_reports_presence() {
    let mut p = MatchPattern::new();
    p.insert("abc");
    assert!(!p.remove("zzz"));
    assert!(p.remove("abc"));
    assert_eq!((p.min_len(), p.max_len()), (0, 0));
}

#[test]
fn remove_position_bounds() {
    let mut p = MatchPattern::new();
    p.insert("abc");
    assert!(!p.remove_position(1));
    assert!(p.remove_position(0));
    assert_eq!(p.words().len(), 0);
}

#[test]
fn minmax_of_explicit_lists() {
    assert_eq!(MatchPattern::get_minmax_len(&vec![]), (0, 0));
    assert_eq!(
        MatchPattern::get_minmax_len(&vec!["abc".to_string(), "a".to_string(), "abcd".to_string()]),
        (1, 4)
    );
}
