//! The external command surface: the envelopes a client sends over the local
//! socket, the replies it gets back, and the constructors that build an
//! [`Action`] from parsed command-line input.

use crate::match_pattern::MatchMode;
use vstd::prelude::*;
use vstd::string::StringExecFns;

verus! {

/// Which channels a part command covers.
#[derive(Debug)]
pub enum PartAction {
    All,
    Listed(Vec<String>),
}

/// How a connection is started: bare, or joining channels right away.
#[derive(Debug)]
pub enum StartAction {
    Simple,
    Prejoin(Vec<String>),
}

/// Registers a named pattern, optionally making it the active one.
#[derive(Debug)]
pub enum AddAction {
    Pattern { name: String, raw_pattern: (Vec<String>, MatchMode), default: bool },
}

/// A command addressed to the protocol connection.
#[derive(Debug)]
pub enum TwitchAction {
    Join(Vec<String>),
    Start(StartAction),
    Part(PartAction),
}

/// Reads persisted messages, optionally filtered by author and channel.
#[derive(Debug)]
pub enum GetAction {
    Messages { channel: Option<String>, author: Option<String> },
}

/// One external command envelope.
#[derive(Debug)]
pub enum Action {
    Twitch(TwitchAction),
    Add(AddAction),
    Get(GetAction),
    Kill,
}

/// A command-level error reported back to the caller.
#[derive(Debug)]
pub enum Error {
    JoinFail { channel: String },
}

impl Error {
    /// The human-readable text of this error.
    pub fn message(&self) -> (r: String)
        ensures
            match self {
                Error::JoinFail { channel } => r@ == "failed to join to channel: "@ + channel@,
            },
    {
        match self {
            Error::JoinFail { channel } => {
                let mut s = String::from_str("failed to join to channel: ");
                s.append(channel.as_str());
                s
            }
        }
    }
}

/// Whether a failure sank the whole command or only part of it.
#[derive(Debug, Clone, Copy, PartialEq, Eq, Structural)]
pub enum FailureLevel {
    Critical,
    Uncritical,
}

/// The single reply each command envelope gets.
#[derive(Debug)]
pub enum ActionRes {
    Failure { errors: Vec<Error>, level: FailureLevel },
    Data(String),
    Success,
}

/// The add subcommand as parsed from the command line.
#[derive(Debug)]
pub enum AddCommand {
    Pattern { name: String, words: Vec<String>, default: Option<bool>, mode: Option<MatchMode> },
}

/// The get subcommand as parsed from the command line.
#[derive(Debug)]
pub enum GetCommand {
    Messages { author: Option<String>, channel: Option<String> },
}

/// A start command: prejoin the listed channels, or none.
pub fn parse_start(chs: Option<Vec<String>>) -> (r: Action)
    ensures
        match chs {
            Some(c) => r == Action::Twitch(TwitchAction::Start(StartAction::Prejoin(c))),
            None => r == Action::Twitch(TwitchAction::Start(StartAction::Simple)),
        },
{
    if let Some(chs) = chs {
        Action::Twitch(TwitchAction::Start(StartAction::Prejoin(chs)))
    } else {
        Action::Twitch(TwitchAction::Start(StartAction::Simple))
    }
}

/// A part command: the listed channels, or all of them.
pub fn parse_part(channels: Option<Vec<String>>) -> (r: Action)
    ensures
        match channels {
            Some(c) => r == Action::Twitch(TwitchAction::Part(PartAction::Listed(c))),
            None => r == Action::Twitch(TwitchAction::Part(PartAction::All)),
        },
{
    let a = match channels {
        None => PartAction::All,
        Some(c) => PartAction::Listed(c),
    };
    Action::Twitch(TwitchAction::Part(a))
}

/// A join command for the listed channels.
pub fn parse_join(channels: Vec<String>) -> (r: Action)
    ensures
        r == Action::Twitch(TwitchAction::Join(channels)),
{
    Action::Twitch(TwitchAction::Join(channels))
}

/// An add-pattern command; a missing mode or default flag falls back to
/// the mode a pattern starts in and to not making it the default.
pub fn parse_add(a: AddCommand) -> (r: Action)
    ensures
        match a {
            AddCommand::Pattern { name, words, default, mode } => r == (Action::Add(
                AddAction::Pattern {
                    name,
                    raw_pattern: (
                        words,
                        match mode {
                            Some(m) => m,
                            None => MatchMode::Exclusive,
                        },
                    ),
                    default: match default {
                        Some(d) => d,
                        None => false,
                    },
                },
            )),
        },
{
    match a {
        AddCommand::Pattern { name, words, default, mode } => {
            let m = match mode {
                Some(m) => m,
                None => MatchMode::default(),
            };
            let d = match default {
                Some(d) => d,
                None => false,
            };
            Action::Add(AddAction::Pattern { raw_pattern: (words, m), name, default: d })
        }
    }
}

/// A query command for persisted messages.
pub fn parse_get(a: GetCommand) -> (r: Action)
    ensures
        match a {
            GetCommand::Messages { author, channel } => r == (Action::Get(GetAction::Messages {
                channel,
                author,
            })),
        },
{
    match a {
        GetCommand::Messages { author, channel } => {
            Action::Get(GetAction::Messages { author, channel })
        }
    }
}

} // verus!
