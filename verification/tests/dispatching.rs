use chatspy::dispatch::{apply_add, process_message, route, Route};
use chatspy::match_pattern::{MatchMode, MatchPattern};
use chatspy::protocol::{Action, ActionRes, AddAction, GetAction, TwitchAction};
use chatspy::PatternStorage;

#[test]
fn commands_route_to_their_components() {
    let r = route(Action::Twitch(TwitchAction::Join(vec!["c".to_string()])));
    assert!(matches!(r, Route::Connection(TwitchAction::Join(_))));

    let r = route(Action::Add(AddAction::Pattern {
        name: "p".to_string(),
        raw_pattern: (vec!["w".to_string()], MatchMode::Inclusive),
        default: true,
    }));
    match r {
        Route::AddPattern {
            name,
            words,
            mode,
            default,
        } => {
            assert_eq!(name, "p");
            assert_eq!(words, vec!["w".to_string()]);
            assert!(matches!(mode, MatchMode::Inclusive));
            assert!(default);
        }
        _ => panic!("an add command routes to the registry"),
    }

    let r = route(Action::Get(GetAction::Messages {
        channel: Some("c".to_string()),
        author: None,
    }));
    assert!(matches!(r, Route::Query { channel: Some(_), author: None }));

    assert!(matches!(route(Action::Kill), Route::Shutdown));
}

#[test]
fn apply_add_registers_and_reports_conflicts() {
    let mut storage = PatternStorage::new();
    let r = apply_add(
        &mut storage,
        "first".to_string(),
        vec!["Word".to_string()],
        MatchMode::Exclusive,
        false,
    );
    assert!(matches!(r, ActionRes::Success));
    assert_eq!(
        storage.default_pattern().unwrap().words(),
        &vec!["word".to_string()]
    );

    let r = apply_add(
        &mut storage,
        "first".to_string(),
        vec!["other".to_string()],
        MatchMode::Inclusive,
        true,
    );
    assert!(matches!(r, ActionRes::Failure { .. }));
    assert_eq!(
        storage.default_pattern().unwrap().words(),
        &vec!["word".to_string()]
    );
}

#[test]
fn worker_persists_exactly_the_matching_messages() {
    let pattern = MatchPattern::builder()
        .inclusive()
        .words(vec!["example".to_string()])
        .build();

    let hit = process_message(&pattern, ":n!u@h PRIVMSG #c :some example text to match");
    let m = hit.expect("a matching chat line is persisted");
    assert_eq!(m.channel, "c");
    assert_eq!(m.author, "n");
    assert_eq!(m.message, "some example text to match");

    assert!(process_message(&pattern, ":n!u@h PRIVMSG #c :nothing here").is_none());
    assert!(process_message(&pattern, "PING :not a chat line").is_none());
}

#[test]
fn each_message_sees_one_pattern_snapshot() {
    let old_pattern = MatchPattern::builder()
        .exclusive()
        .words(vec!["alpha".to_string()])
        .build();
    let new_pattern = MatchPattern::builder()
        .exclusive()
        .words(vec!["beta".to_string()])
        .build();
    let raw = ":n!u@h PRIVMSG #c :alpha";

    // Before the swap the message matches; after the swap it does not.
    // Either way one call reads exactly one pattern.
    assert!(process_message(&old_pattern, raw).is_some());
    assert!(process_message(&new_pattern, raw).is_none());
}
