use chatspy::protocol::{ActionRes, FailureLevel, PartAction, StartAction, TwitchAction};
use chatspy::twitch::{
    handle_irc, parse_privmsg, split_msg, ClientState, IrcEffect, IrcMessage, TwitchClient,
    TwitchCmdType, TwitchInfoCmd,
};

#[test]
fn parse_privmsg_extracts_fields() {
    let m = parse_privmsg(":nick!user@host PRIVMSG #somechannel :hello world").unwrap();
    assert_eq!(m.channel, "somechannel");
    assert_eq!(m.author, "nick");
    assert_eq!(m.message, "hello world");
}

#[test]
fn parse_privmsg_keeps_colons_in_body() {
    let m = parse_privmsg(":a!u@h PRIVMSG #c :one:two:three").unwrap();
    assert_eq!(m.message, "one:two:three");
}

#[test]
fn parse_privmsg_drops_malformed_lines() {
    assert!(parse_privmsg("no colons at all").is_none());
    assert!(parse_privmsg(":only PRIVMSG").is_none());
    assert!(parse_privmsg("PING :tmi.twitch.tv").is_none());
}

#[test]
fn ping_frame_yields_one_pong_and_no_chat_event() {
    let mut client = TwitchClient::new();
    client.begin_connect();
    let _auth = client.transport_connected("", "justinfan1337");
    let effects = client.on_frame("PING :tmi.twitch.tv").unwrap();
    assert_eq!(effects.len(), 1);
    match &effects[0] {
        IrcEffect::SendFrame(f) => assert_eq!(f, "PONG :tmi.twitch.tv"),
        IrcEffect::EmitMessage(_) => panic!("a keepalive must not produce a chat event"),
    }
}

#[test]
fn auth_frames_are_pass_then_nick() {
    let mut client = TwitchClient::new();
    client.begin_connect();
    let auth = client.transport_connected("s3cret", "justinfan1337");
    assert_eq!(auth, vec!["PASS oauth:s3cret".to_string(), "NICK justinfan1337".to_string()]);
}

#[test]
fn split_msg_classifies_lines_in_order() {
    let frames =
        split_msg("PING :a\r\n:n!u@h PRIVMSG #c :hi\r\nPING :b\r\n").unwrap();
    assert_eq!(frames.len(), 3);
    assert!(matches!(&frames[0], IrcMessage::Ping(s) if s == "PONG :a"));
    assert!(matches!(&frames[1], IrcMessage::Privmsg(s) if s == ":n!u@h PRIVMSG #c :hi"));
    assert!(matches!(&frames[2], IrcMessage::Ping(s) if s == "PONG :b"));
}

#[test]
fn split_msg_rejects_unknown_commands() {
    assert!(split_msg("BOGUS nonsense\r\n").is_err());
}

#[test]
fn join_then_part_leaves_remaining_membership() {
    let mut client = TwitchClient::new();
    client.begin_connect();
    let _ = client.transport_connected("", "justinfan1337");
    let _ = client.on_frame("PING :x").unwrap();

    let join_frames = client.join_many(&vec!["a".to_string(), "b".to_string()]);
    assert_eq!(join_frames, vec!["JOIN #a".to_string(), "JOIN #b".to_string()]);

    let (part_frames, parted) = client.part_many(&vec!["a".to_string()]);
    assert_eq!(part_frames, vec!["PART #a".to_string()]);
    assert_eq!(parted, vec!["a".to_string()]);

    assert_eq!(client.channels(), &vec!["b".to_string()]);

    let (reply, frames, stop) =
        client.handle_cmd(TwitchCmdType::Info(TwitchInfoCmd::Channels));
    assert!(frames.is_empty());
    assert!(!stop);
    match reply {
        ActionRes::Data(json) => {
            assert_eq!(json, "{\n  \"twitch\": [\n    \"b\"\n  ]\n}");
        }
        _ => panic!("an info query replies with data"),
    }
}

#[test]
fn join_is_idempotent() {
    let mut client = TwitchClient::new();
    client.begin_connect();
    let _ = client.transport_connected("", "justinfan1337");
    let _ = client.on_frame("PING :x").unwrap();
    let f1 = client.join("a".to_string());
    let f2 = client.join("a".to_string());
    assert_eq!(f1, "JOIN #a");
    assert_eq!(f2, "JOIN #a");
    assert_eq!(client.channels(), &vec!["a".to_string()]);
}

#[test]
fn part_of_never_joined_channel_succeeds_with_empty_list() {
    let mut client = TwitchClient::new();
    client.begin_connect();
    let _ = client.transport_connected("", "justinfan1337");
    let _ = client.on_frame("PING :x").unwrap();

    let (frames, parted) = client.part_many(&vec!["ghost".to_string()]);
    assert_eq!(frames, vec!["PART #ghost".to_string()]);
    assert!(parted.is_empty());

    let (reply, _frames, stop) = client.handle_cmd(TwitchCmdType::Connection(
        TwitchAction::Part(PartAction::Listed(vec!["other".to_string()])),
    ));
    assert!(matches!(reply, ActionRes::Success));
    assert!(!stop);

    assert!(client.part("ghost").is_none());
}

#[test]
fn part_all_releases_the_connection() {
    let mut client = TwitchClient::new();
    client.begin_connect();
    let _ = client.transport_connected("", "justinfan1337");
    let _ = client.on_frame("PING :x").unwrap();

    let (reply, frames, stop) =
        client.handle_cmd(TwitchCmdType::Connection(TwitchAction::Part(PartAction::All)));
    assert!(matches!(reply, ActionRes::Success));
    assert!(frames.is_empty());
    assert!(stop);
    client.close();
}

#[test]
fn start_on_running_connection_is_a_critical_failure() {
    let mut client = TwitchClient::new();
    client.begin_connect();
    let _ = client.transport_connected("", "justinfan1337");
    let _ = client.on_frame("PING :x").unwrap();

    let (reply, frames, stop) = client.handle_cmd(TwitchCmdType::Connection(
        TwitchAction::Start(StartAction::Simple),
    ));
    match reply {
        ActionRes::Failure { errors, level } => {
            assert!(errors.is_empty());
            assert!(matches!(level, FailureLevel::Critical));
        }
        _ => panic!("a start command against a running connection fails"),
    }
    assert!(frames.is_empty());
    assert!(!stop);
}

#[test]
fn effects_preserve_line_order() {
    let mut client = TwitchClient::new();
    client.begin_connect();
    let _ = client.transport_connected("", "justinfan1337");
    let effects = client
        .on_frame("PING :a\r\n:n!u@h PRIVMSG #c :hi\r\nPING :b")
        .unwrap();
    assert_eq!(effects.len(), 3);
    assert!(matches!(&effects[0], IrcEffect::SendFrame(s) if s == "PONG :a"));
    assert!(matches!(&effects[1], IrcEffect::EmitMessage(s) if s == ":n!u@h PRIVMSG #c :hi"));
    assert!(matches!(&effects[2], IrcEffect::SendFrame(s) if s == "PONG :b"));
}

#[test]
fn client_states_advance() {
    let mut client = TwitchClient::new();
    client.begin_connect();
    let _ = client.transport_connected("", "justinfan1337");
    let _ = client.on_frame(":tmi.twitch.tv 001 justinfan1337 :Welcome").unwrap();
    let (_, _, stop) =
        client.handle_cmd(TwitchCmdType::Connection(TwitchAction::Part(PartAction::All)));
    assert!(stop);
    client.close();
    let _ = ClientState::Closed;
}

#[test]
fn classified_lines_map_to_their_effects() {
    let e = handle_irc(IrcMessage::Ping("PONG :x".to_string()));
    assert!(matches!(e, IrcEffect::SendFrame(s) if s == "PONG :x"));
    let e = handle_irc(IrcMessage::Privmsg(":line".to_string()));
    assert!(matches!(e, IrcEffect::EmitMessage(s) if s == ":line"));
}
