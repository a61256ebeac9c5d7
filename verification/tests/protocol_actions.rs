use chatspy::match_pattern::MatchMode;
use chatspy::protocol::{
    parse_add, parse_get, parse_join, parse_part, parse_start, Action, AddAction, AddCommand,
    Error, GetAction, GetCommand, PartAction, StartAction, TwitchAction,
};

#[test]
fn start_with_channels_prejoins() {
    let a = parse_start(Some(vec!["a".to_string()]));
    assert!(matches!(
        a,
        Action::Twitch(TwitchAction::Start(StartAction::Prejoin(ref c))) if c == &vec!["a".to_string()]
    ));
    let b = parse_start(None);
    assert!(matches!(
        b,
        Action::Twitch(TwitchAction::Start(StartAction::Simple))
    ));
}

#[test]
fn part_without_channels_means_all() {
    let a = parse_part(None);
    assert!(matches!(a, Action::Twitch(TwitchAction::Part(PartAction::All))));
    let b = parse_part(Some(vec!["x".to_string()]));
    assert!(matches!(
        b,
        Action::Twitch(TwitchAction::Part(PartAction::Listed(ref c))) if c == &vec!["x".to_string()]
    ));
}

#[test]
fn join_carries_its_channels() {
    let a = parse_join(vec!["x".to_string(), "y".to_string()]);
    assert!(matches!(
        a,
        Action::Twitch(TwitchAction::Join(ref c)) if c.len() == 2
    ));
}

#[test]
fn add_fills_in_missing_mode_and_default() {
    let a = parse_add(AddCommand::Pattern {
        name: "p".to_string(),
        words: vec!["w".to_string()],
        default: None,
        mode: None,
    });
    match a {
        Action::Add(AddAction::Pattern {
            name,
            raw_pattern,
            default,
        }) => {
            assert_eq!(name, "p");
            assert_eq!(raw_pattern.0, vec!["w".to_string()]);
            assert!(matches!(raw_pattern.1, MatchMode::Exclusive));
            assert!(!default);
        }
        _ => panic!("an add command routes to the registry"),
    }

    let b = parse_add(AddCommand::Pattern {
        name: "q".to_string(),
        words: vec![],
        default: Some(true),
        mode: Some(MatchMode::Inclusive),
    });
    match b {
        Action::Add(AddAction::Pattern {
            raw_pattern,
            default,
            ..
        }) => {
            assert!(matches!(raw_pattern.1, MatchMode::Inclusive));
            assert!(default);
        }
        _ => panic!("an add command routes to the registry"),
    }
}

#[test]
fn get_carries_its_filters() {
    let a = parse_get(GetCommand::Messages {
        author: Some("alice".to_string()),
        channel: None,
    });
    match a {
        Action::Get(GetAction::Messages { channel, author }) => {
            assert_eq!(author.as_deref(), Some("alice"));
            assert!(channel.is_none());
        }
        _ => panic!("a get command routes to the store"),
    }
}

#[test]
fn join_failure_text() {
    let e = Error::JoinFail {
        channel: "somechannel".to_string(),
    };
    assert_eq!(e.message(), "failed to join to channel: somechannel");
}
