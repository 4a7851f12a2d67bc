use mcp_core::errors::SessionError;
use mcp_core::protocol::{
    finish_notification, finish_request, plan_send, route_stdout_line, MessageClass,
    REPLY_TIMEOUT_MS,
};
use mcp_core::registry::Registry;

#[test]
fn duplicate_start_is_refused() {
    let mut reg = Registry::new();
    let first = reg.install(String::from("srv"), Ok(0));
    assert!(first.is_ok());
    let second = reg.install(String::from("srv"), Ok(1));
    assert!(matches!(second, Err(SessionError::DuplicateSession)));
    assert!(reg.contains(&String::from("srv")));
}

#[test]
fn failed_spawn_leaves_no_entry() {
    let mut reg = Registry::new();
    let r = reg.install(String::from("srv"), Err(String::from("no such file")));
    assert!(matches!(r, Err(SessionError::SpawnFailure(_))));
    assert!(!reg.contains(&String::from("srv")));
}

#[test]
fn successful_start_confirms_and_registers() {
    let mut reg = Registry::new();
    let r = reg.install(String::from("alpha"), Ok(7));
    assert_eq!(r.unwrap(), "Process alpha started successfully");
    assert!(reg.contains(&String::from("alpha")));
    assert_eq!(reg.lookup_slot(&String::from("alpha")).unwrap(), 7);
}

#[test]
fn unknown_identifier_is_not_found() {
    let reg = Registry::new();
    let r = reg.lookup_slot(&String::from("never-started"));
    assert!(matches!(r, Err(SessionError::SessionNotFound)));
}

#[test]
fn request_is_classified_by_correlation_identifier() {
    let with_id = "{\"id\":1,\"jsonrpc\":\"2.0\",\"method\":\"ping\"}";
    assert!(matches!(plan_send(with_id), Ok(MessageClass::Request)));
    let without_id = "{\"jsonrpc\":\"2.0\",\"method\":\"ping\"}";
    assert!(matches!(plan_send(without_id), Ok(MessageClass::Notification)));
    let null_id = "{\"id\":null,\"jsonrpc\":\"2.0\",\"method\":\"ping\"}";
    assert!(matches!(plan_send(null_id), Ok(MessageClass::Notification)));
}

#[test]
fn malformed_text_is_rejected_before_any_write() {
    assert!(matches!(
        plan_send("not json at all"),
        Err(SessionError::MalformedMessage)
    ));
    let missing_method = "{\"jsonrpc\":\"2.0\"}";
    assert!(matches!(
        plan_send(missing_method),
        Err(SessionError::MalformedMessage)
    ));
    let wrong_types = "{\"jsonrpc\":2,\"method\":\"ping\"}";
    assert!(matches!(
        plan_send(wrong_types),
        Err(SessionError::MalformedMessage)
    ));
}

#[test]
fn notification_returns_empty_reply_at_once() {
    let r = finish_notification(Ok(()));
    assert_eq!(r.unwrap(), "");
}

#[test]
fn request_returns_the_reply_line_verbatim() {
    let line = String::from("{\"id\":1,\"jsonrpc\":\"2.0\",\"result\":{}}");
    let r = finish_request(Ok(()), Some(line.clone()));
    assert_eq!(r.unwrap(), line);
}

#[test]
fn request_without_reply_times_out() {
    let r = finish_request(Ok(()), None);
    assert!(matches!(r, Err(SessionError::ReplyTimeout)));
    assert_eq!(REPLY_TIMEOUT_MS, 5000);
}

#[test]
fn failed_write_surfaces_as_write_failure() {
    let r = finish_request(Err(String::from("broken pipe")), None);
    assert!(matches!(r, Err(SessionError::WriteFailure(_))));
    let n = finish_notification(Err(String::from("broken pipe")));
    assert!(matches!(n, Err(SessionError::WriteFailure(_))));
}

#[test]
fn stdout_line_is_copied_to_both_sinks() {
    let (channel, broadcast) = route_stdout_line(String::from("hello"), true);
    assert_eq!(channel.unwrap(), "hello");
    assert_eq!(broadcast, "hello");
    let (gone, still) = route_stdout_line(String::from("hello"), false);
    assert!(gone.is_none());
    assert_eq!(still, "hello");
}

#[test]
fn sequential_replies_keep_request_order() {
    let lines = vec![
        String::from("first"),
        String::from("second"),
        String::from("third"),
    ];
    let mut replies: Vec<String> = Vec::new();
    for line in &lines {
        let r = finish_request(Ok(()), Some(line.clone()));
        replies.push(r.unwrap());
    }
    assert_eq!(replies, lines);
}

#[test]
fn error_messages_match_the_host_wording() {
    assert_eq!(
        SessionError::DuplicateSession.message(),
        "Server with this ID already exists"
    );
    assert_eq!(SessionError::SessionNotFound.message(), "Server not found");
    assert_eq!(
        SessionError::SpawnFailure(String::from("boom")).message(),
        "Failed to start process: boom"
    );
    assert_eq!(
        SessionError::WriteFailure(String::from("pipe")).message(),
        "Failed to send command: pipe"
    );
    assert_eq!(SessionError::MalformedMessage.message(), "Malformed message");
    assert_eq!(
        SessionError::ReplyTimeout.message(),
        "Timed out waiting for reply"
    );
}
