use chatspy::storage::{
    create_messages_table_sql, create_token_table_sql, get_messages_query, insert_message_query,
    insert_token_query, select_tokens_sql, table_exists_error, StoreErrorInfo, TwitchMessage,
    TwitchToken,
};
use chatspy::twitch::UserMessage;

fn info_of(e: &rusqlite::Error) -> StoreErrorInfo {
    match e {
        rusqlite::Error::SqlInputError { error, .. } => StoreErrorInfo {
            is_input_error: true,
            code_is_unknown: error.code == rusqlite::ffi::ErrorCode::Unknown,
            extended_code: error.extended_code,
        },
        _ => StoreErrorInfo {
            is_input_error: false,
            code_is_unknown: false,
            extended_code: 0,
        },
    }
}

#[test]
fn query_shapes_cover_all_four_filters() {
    let (sql, params) = get_messages_query(None, None);
    assert_eq!(sql, "SELECT * FROM messages");
    assert!(params.is_empty());

    let (sql, params) = get_messages_query(Some("alice".to_string()), None);
    assert_eq!(sql, "SELECT * FROM messages WHERE author=?1");
    assert_eq!(params, vec!["alice".to_string()]);

    let (sql, params) = get_messages_query(None, Some("chan".to_string()));
    assert_eq!(sql, "SELECT * FROM messages WHERE channel=?1");
    assert_eq!(params, vec!["chan".to_string()]);

    let (sql, params) = get_messages_query(Some("alice".to_string()), Some("chan".to_string()));
    assert_eq!(sql, "SELECT * FROM messages WHERE author=?1 AND channel=?2");
    assert_eq!(params, vec!["alice".to_string(), "chan".to_string()]);
}

#[test]
fn insert_shapes_carry_the_fields() {
    let (sql, params) = insert_message_query(UserMessage {
        channel: "c".to_string(),
        author: "a".to_string(),
        message: "m".to_string(),
    });
    assert_eq!(sql, "INSERT INTO messages (author, message, channel) VALUES (?1, ?2, ?3)");
    assert_eq!(params, vec!["a".to_string(), "m".to_string(), "c".to_string()]);

    let (sql, params) = insert_token_query("tok".to_string(), "log".to_string());
    assert_eq!(sql, "INSERT INTO token (token, login) VALUES (?1, ?2)");
    assert_eq!(params, vec!["tok".to_string(), "log".to_string()]);
}

#[test]
fn classifier_truth_table() {
    let benign = StoreErrorInfo {
        is_input_error: true,
        code_is_unknown: true,
        extended_code: 1,
    };
    assert!(table_exists_error(benign));
    assert!(!table_exists_error(StoreErrorInfo { extended_code: 2, ..benign }));
    assert!(!table_exists_error(StoreErrorInfo { is_input_error: false, ..benign }));
    assert!(!table_exists_error(StoreErrorInfo { code_is_unknown: false, ..benign }));
}

#[test]
fn duplicate_table_creation_is_benign_against_a_real_store() {
    let conn = rusqlite::Connection::open_in_memory().unwrap();
    conn.execute(&create_token_table_sql(), ()).unwrap();
    let again = conn.execute(&create_token_table_sql(), ());
    let err = again.expect_err("creating the same table twice fails");
    assert!(table_exists_error(info_of(&err)));

    conn.execute(&create_messages_table_sql(), ()).unwrap();
    let again = conn.execute(&create_messages_table_sql(), ());
    let err = again.expect_err("creating the same table twice fails");
    assert!(table_exists_error(info_of(&err)));

    // A genuinely different failure is not swallowed.
    let other = conn.execute("INSERT INTO token (token) VALUES (?1)", ["x"]);
    let err = other.expect_err("the login column is NOT NULL");
    assert!(!table_exists_error(info_of(&err)));
}

#[test]
fn statements_round_trip_through_a_real_store() {
    let conn = rusqlite::Connection::open_in_memory().unwrap();
    conn.execute(&create_token_table_sql(), ()).unwrap();
    conn.execute(&create_messages_table_sql(), ()).unwrap();

    let (sql, params) = insert_token_query("t0k".to_string(), "someone".to_string());
    conn.execute(&sql, rusqlite::params_from_iter(params)).unwrap();
    let tokens: Vec<TwitchToken> = conn
        .prepare(&select_tokens_sql())
        .unwrap()
        .query_map([], |row| {
            Ok(TwitchToken {
                id: Some(row.get::<_, i64>(0)? as u64),
                token: Some(row.get(1)?),
                login: Some(row.get(2)?),
            })
        })
        .unwrap()
        .map(|t| t.unwrap())
        .collect();
    assert_eq!(tokens.len(), 1);
    assert_eq!(tokens[0].login.as_deref(), Some("someone"));

    let (sql, params) = insert_message_query(UserMessage {
        channel: "chan".to_string(),
        author: "alice".to_string(),
        message: "hello".to_string(),
    });
    conn.execute(&sql, rusqlite::params_from_iter(params)).unwrap();

    let (sql, params) = get_messages_query(Some("alice".to_string()), Some("chan".to_string()));
    let rows: Vec<TwitchMessage> = conn
        .prepare(&sql)
        .unwrap()
        .query_map(rusqlite::params_from_iter(params), |row| {
            Ok(TwitchMessage {
                id: row.get::<_, i64>(0)? as u64,
                author: row.get(1)?,
                message: row.get(2)?,
                channel: row.get(3)?,
                time: row.get(4).unwrap_or_default(),
            })
        })
        .unwrap()
        .map(|m| m.unwrap())
        .collect();
    assert_eq!(rows.len(), 1);
    assert_eq!(rows[0].message, "hello");

    let (sql, params) = get_messages_query(Some("nobody".to_string()), None);
    let n = conn
        .prepare(&sql)
        .unwrap()
        .query_map(rusqlite::params_from_iter(params), |_row| Ok(()))
        .unwrap()
        .count();
    assert_eq!(n, 0);
}
