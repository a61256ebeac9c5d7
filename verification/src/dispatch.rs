//! The command-dispatch decisions: where each external command goes, how an
//! add-pattern command mutates the registry, and what the ingestion worker
//! does with one raw chat message against one snapshot of the active pattern.

use crate::match_pattern::{find_word, norm_of, MatchMode, MatchPattern};
use crate::protocol::{Action, ActionRes, AddAction, FailureLevel, GetAction, TwitchAction};
use crate::twitch::{parse_privmsg, privmsg_fields_of, UserMessage};
use crate::PatternStorage;
use vstd::prelude::*;

verus! {

/// Where the dispatcher sends one external command.
#[derive(Debug)]
pub enum Route {
    /// To the protocol connection.
    Connection(TwitchAction),
    /// To the pattern registry.
    AddPattern { name: String, words: Vec<String>, mode: MatchMode, default: bool },
    /// To the persisted store.
    Query { author: Option<String>, channel: Option<String> },
    /// Stop the daemon.
    Shutdown,
}

/// The dispatcher's routing decision for one command envelope.
pub fn route(action: Action) -> (r: Route)
    ensures
        match action {
            Action::Twitch(a) => r == Route::Connection(a),
            Action::Add(AddAction::Pattern { name, raw_pattern, default }) => r == (
            Route::AddPattern { name, words: raw_pattern.0, mode: raw_pattern.1, default }),
            Action::Get(GetAction::Messages { channel, author }) => r == (Route::Query {
                author,
                channel,
            }),
            Action::Kill => r == Route::Shutdown,
        },
{
    match action {
        Action::Twitch(a) => Route::Connection(a),
        Action::Add(AddAction::Pattern { name, raw_pattern, default }) => {
            Route::AddPattern { name, words: raw_pattern.0, mode: raw_pattern.1, default }
        },
        Action::Get(GetAction::Messages { channel, author }) => Route::Query { author, channel },
        Action::Kill => Route::Shutdown,
    }
}

/// Builds a pattern from a raw word list and mode and registers it under
/// `name`. A name conflict is reported as a failed command and mutates
/// nothing; the reply is the command's single answer either way.
pub fn apply_add(
    storage: &mut PatternStorage,
    name: String,
    words: Vec<String>,
    mode: MatchMode,
    default: bool,
) -> (r: ActionRes)
    requires
        old(storage).wf(),
    ensures
        final(storage).wf(),
        find_word(old(storage).spec_names(), name@) != -1 ==> {
            &&& (r matches ActionRes::Failure { errors, level } ==> errors@.len() == 0 && level
                == FailureLevel::Critical)
            &&& r is Failure
            &&& *final(storage) == *old(storage)
        },
        find_word(old(storage).spec_names(), name@) == -1 ==> {
            &&& r is Success
            &&& final(storage).spec_names() == old(storage).spec_names().push(name@)
            &&& final(storage).spec_patterns().len() == old(storage).spec_patterns().len() + 1
            &&& ({
                let p = final(storage).spec_patterns().last();
                &&& p.spec_mode() == mode
                &&& p.spec_words() == words@.map_values(
                    |w: String| norm_of(Seq::<char>::empty(), w@),
                )
            })
            &&& final(storage).spec_active() == (if old(storage).spec_active() is None || default {
                Some(old(storage).spec_patterns().len() as usize)
            } else {
                old(storage).spec_active()
            })
        },
{
    let p = MatchPattern::builder().mode(mode).words(words).build();
    match storage.add(name, p, default) {
        Ok(()) => ActionRes::Success,
        Err(()) => ActionRes::Failure { errors: Vec::new(), level: FailureLevel::Critical },
    }
}

/// What one ingestion worker does with one raw chat message against one
/// snapshot of the active pattern: the message is persisted exactly when it
/// parses as a chat line and its text matches the pattern. The snapshot is
/// taken once per message, so one message never sees a mix of two patterns.
pub fn process_message(pattern: &MatchPattern, raw: &str) -> (r: Option<UserMessage>)
    requires
        pattern.wf(),
    ensures
        match (r, privmsg_fields_of(raw@)) {
            (Some(m), Some(f)) => {
                &&& pattern.spec_match(f.2)
                &&& m.channel@ == f.0
                &&& m.author@ == f.1
                &&& m.message@ == f.2
            },
            (None, Some(f)) => !pattern.spec_match(f.2),
            (None, None) => true,
            (Some(_), None) => false,
        },
{
    match parse_privmsg(raw) {
        Some(privmsg) => {
            if pattern.match_str(privmsg.message.as_str()) {
                Some(privmsg)
            } else {
                None
            }
        },
        None => None,
    }
}

} // verus!
