use mini_ftp::client::{ClientSession, ClientState, OpenDecision, UserReplyOutcome};
use mini_ftp::reply::ReplyCode;
use mini_ftp::server::{ServerSession, ServerState};
use mini_ftp::table::UserTable;

fn s(x: &str) -> String {
    String::from(x)
}

fn demo_table() -> UserTable {
    let mut t = UserTable::new();
    t.add(s("alice"), s("wonderland"));
    t.add(s("bob"), s("builder"));
    t
}

#[test]
fn known_user_advances_and_replies_200() {
    let table = demo_table();
    let mut session = ServerSession::new();
    assert_eq!(session.state, ServerState::Connected);
    let reply = session.handle_user(&table, "alice");
    assert_eq!(reply, ReplyCode::Success);
    assert_eq!(reply.to_bytes(), b"200\0".to_vec());
    assert_eq!(session.state, ServerState::UserSent);
    assert_eq!(session.expected_pass.as_deref(), Some("wonderland"));
}

#[test]
fn second_user_replies_600_and_stays() {
    let table = demo_table();
    let mut session = ServerSession::new();
    session.handle_user(&table, "alice");
    let reply = session.handle_user(&table, "bob");
    assert_eq!(reply, ReplyCode::BadState);
    assert_eq!(reply.to_bytes(), b"600\0".to_vec());
    assert_eq!(session.state, ServerState::UserSent);
    assert_eq!(session.expected_pass.as_deref(), Some("wonderland"));
}

#[test]
fn unknown_user_replies_500_and_stays_connected() {
    let table = demo_table();
    let mut session = ServerSession::new();
    let reply = session.handle_user(&table, "ghost");
    assert_eq!(reply, ReplyCode::NotFound);
    assert_eq!(reply.to_bytes(), b"500\0".to_vec());
    assert_eq!(session.state, ServerState::Connected);
    assert!(session.expected_pass.is_none());
}

#[test]
fn table_lookup_and_override() {
    let mut t = UserTable::new();
    assert!(t.lookup("alice").is_none());
    t.add(s("alice"), s("first"));
    assert_eq!(t.lookup("alice").map(String::as_str), Some("first"));
    t.add(s("alice"), s("second"));
    assert_eq!(t.lookup("alice").map(String::as_str), Some("second"));
    assert!(t.lookup("alic").is_none());
    assert!(t.lookup("").is_none());
}

#[test]
fn reply_code_table_is_closed() {
    assert_eq!(ReplyCode::from_bytes(b"200\0"), Some(ReplyCode::Success));
    assert_eq!(ReplyCode::from_bytes(b"500\0"), Some(ReplyCode::NotFound));
    assert_eq!(ReplyCode::from_bytes(b"600\0"), Some(ReplyCode::BadState));
    assert_eq!(ReplyCode::from_bytes(b"700\0"), None);
    assert_eq!(ReplyCode::from_bytes(b"2000"), None);
    assert_eq!(ReplyCode::from_bytes(b"\0\0\0\0"), None);
}

#[test]
fn open_is_idempotent() {
    let mut session = ClientSession::new();
    assert_eq!(session.state, ClientState::Disconnected);
    assert_eq!(session.handle_open(), OpenDecision::Connect);
    session.connection_opened();
    assert_eq!(session.state, ClientState::Connected);
    assert!(session.holds_transport);
    let before = session;
    assert_eq!(session.handle_open(), OpenDecision::AlreadyOpen);
    assert_eq!(session, before);
}

#[test]
fn user_gate_and_replies() {
    let mut session = ClientSession::new();
    assert!(!session.may_send_user());
    session.connection_opened();
    assert!(session.may_send_user());

    let mut ok = session;
    assert_eq!(ok.handle_user_reply(b"200\0"), UserReplyOutcome::Accepted);
    assert_eq!(ok.state, ClientState::SentUser);
    assert!(!ok.may_send_user());

    let mut unknown = session;
    assert_eq!(unknown.handle_user_reply(b"500\0"), UserReplyOutcome::UnknownUser);
    assert_eq!(unknown, session);

    let mut not_now = session;
    assert_eq!(not_now.handle_user_reply(b"600\0"), UserReplyOutcome::NotNow);
    assert_eq!(not_now, session);

    let mut junk = session;
    assert_eq!(
        junk.handle_user_reply(b"999\0"),
        UserReplyOutcome::ProtocolViolation
    );
    assert_eq!(junk, session);
}
