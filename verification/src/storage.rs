//! The persisted store's data shapes: the rows the daemon reads and writes,
//! the exact SQL text and parameter lists it hands to the store, and the
//! classification of initialization errors. The store itself runs outside
//! the library; it receives these values unchanged.

use crate::twitch::UserMessage;
use vstd::prelude::*;
use vstd::string::StringExecFns;

verus! {

/// A stored credential row.
#[derive(Debug, Clone)]
pub struct TwitchToken {
    pub id: Option<u64>,
    pub token: Option<String>,
    pub login: Option<String>,
}

/// A persisted matched message, with its store-assigned identity and time.
#[derive(Debug)]
pub struct TwitchMessage {
    pub id: u64,
    pub author: String,
    pub message: String,
    pub channel: String,
    pub time: String,
}

/// The statement that creates the credential table.
pub fn create_token_table_sql() -> (r: String)
    ensures
        r@
            == "CREATE TABLE token (id INTEGER PRIMARY KEY, token TEXT NOT NULL, login TEXT NOT NULL)"@,
{
    String::from_str(
        "CREATE TABLE token (id INTEGER PRIMARY KEY, token TEXT NOT NULL, login TEXT NOT NULL)",
    )
}

/// The statement that creates the message table.
pub fn create_messages_table_sql() -> (r: String)
    ensures
        r@
            == "CREATE TABLE messages (id      INTEGER PRIMARY KEY,author  TEXT NOT NULL,message TEXT NOT NULL,channel TEXT NOT NULL,time    TIMESTAMP DATETIME DEFAULT CURRENT_TIMESTAMP)"@,
{
    String::from_str(
        "CREATE TABLE messages (id      INTEGER PRIMARY KEY,author  TEXT NOT NULL,message TEXT NOT NULL,channel TEXT NOT NULL,time    TIMESTAMP DATETIME DEFAULT CURRENT_TIMESTAMP)",
    )
}

/// The statement and parameters that persist one credential.
pub fn insert_token_query(token: String, login: String) -> (r: (String, Vec<String>))
    ensures
        r.0@ == "INSERT INTO token (token, login) VALUES (?1, ?2)"@,
        r.1@.len() == 2,
        r.1@[0] == token,
        r.1@[1] == login,
{
    let mut params: Vec<String> = Vec::new();
    params.push(token);
    params.push(login);
    (String::from_str("INSERT INTO token (token, login) VALUES (?1, ?2)"), params)
}

/// The statement that reads every stored credential.
pub fn select_tokens_sql() -> (r: String)
    ensures
        r@ == "SELECT * FROM token"@,
{
    String::from_str("SELECT * FROM token")
}

/// The statement and parameters that persist one matched message.
pub fn insert_message_query(privmsg: UserMessage) -> (r: (String, Vec<String>))
    ensures
        r.0@ == "INSERT INTO messages (author, message, channel) VALUES (?1, ?2, ?3)"@,
        r.1@.len() == 3,
        r.1@[0] == privmsg.author,
        r.1@[1] == privmsg.message,
        r.1@[2] == privmsg.channel,
{
    let mut params: Vec<String> = Vec::new();
    params.push(privmsg.author);
    params.push(privmsg.message);
    params.push(privmsg.channel);
    (String::from_str("INSERT INTO messages (author, message, channel) VALUES (?1, ?2, ?3)"), params)
}

/// The statement and parameters that read persisted messages: unfiltered,
/// by author, by channel, or by both.
pub fn get_messages_query(author: Option<String>, channel: Option<String>) -> (r: (
    String,
    Vec<String>,
))
    ensures
        match (author, channel) {
            (Option::None, Option::None) => r.0@ == "SELECT * FROM messages"@ && r.1@.len() == 0,
            (Option::Some(a), Option::Some(ch)) => r.0@
                == "SELECT * FROM messages WHERE author=?1 AND channel=?2"@ && r.1@.len() == 2
                && r.1@[0] == a && r.1@[1] == ch,
            (Option::None, Option::Some(ch)) => r.0@ == "SELECT * FROM messages WHERE channel=?1"@
                && r.1@.len() == 1 && r.1@[0] == ch,
            (Option::Some(a), Option::None) => r.0@ == "SELECT * FROM messages WHERE author=?1"@
                && r.1@.len() == 1 && r.1@[0] == a,
        },
{
    let mut params: Vec<String> = Vec::new();
    match (author, channel) {
        (Option::None, Option::None) => (String::from_str("SELECT * FROM messages"), params),
        (Option::Some(a), Option::Some(ch)) => {
            params.push(a);
            params.push(ch);
            (String::from_str("SELECT * FROM messages WHERE author=?1 AND channel=?2"), params)
        },
        (Option::None, Option::Some(ch)) => {
            params.push(ch);
            (String::from_str("SELECT * FROM messages WHERE channel=?1"), params)
        },
        (Option::Some(a), Option::None) => {
            params.push(a);
            (String::from_str("SELECT * FROM messages WHERE author=?1"), params)
        },
    }
}

/// What the store reported about a failed statement, reduced to the fields
/// the initialization policy reads.
#[derive(Debug, Clone, Copy, PartialEq, Eq, Structural)]
pub struct StoreErrorInfo {
    /// The failure came in as an input error on the SQL statement.
    pub is_input_error: bool,
    /// The store gave no specific primary error code.
    pub code_is_unknown: bool,
    /// The store's extended error code.
    pub extended_code: i32,
}

/// Whether a table-creation failure is the benign "table already exists"
/// report, which initialization swallows; every other failure is fatal.
pub fn table_exists_error(e: StoreErrorInfo) -> (r: bool)
    ensures
        r == (e.is_input_error && e.code_is_unknown && e.extended_code == 1),
{
    e.is_input_error && e.code_is_unknown && e.extended_code == 1
}

} // verus!
