use mcp_core::assemble::{assemble_messages, MessageRow};
use mcp_core::records::{new_chat, new_message, FileAttachment};
use mcp_core::strorder::str_le_exec;

fn row(id: &str, created_at: &str, att_id: &str, att_name: &str) -> MessageRow {
    MessageRow {
        id: String::from(id),
        chat_id: String::from("chat-1"),
        content: format!("content of {}", id),
        role: String::from("user"),
        created_at: String::from(created_at),
        attachment_id: String::from(att_id),
        attachment_name: String::from(att_name),
        attachment_content: String::from("aGVsbG8="),
        attachment_kind: String::from("text/plain"),
        attachment_size: 5,
    }
}

#[test]
fn chat_creation_uses_one_timestamp_for_both_fields() {
    let c = new_chat(
        String::from("id-1"),
        String::from("My chat"),
        String::from("2024-01-02T03:04:05+00:00"),
    );
    assert_eq!(c.id, "id-1");
    assert_eq!(c.title, "My chat");
    assert_eq!(c.created_at, c.updated_at);
    assert_eq!(c.created_at, "2024-01-02T03:04:05+00:00");
}

#[test]
fn message_builder_keeps_fields_verbatim() {
    let atts = vec![FileAttachment {
        name: String::from("a.txt"),
        content: String::from("aGVsbG8="),
        kind: String::from("text/plain"),
        size: 5,
    }];
    let m = new_message(
        String::from("m-1"),
        String::from("chat-1"),
        String::from("hi"),
        String::from("user"),
        String::from("2024-01-02T03:04:05+00:00"),
        Some(atts),
    );
    assert_eq!(m.id, "m-1");
    assert_eq!(m.chat_id, "chat-1");
    assert_eq!(m.content, "hi");
    assert_eq!(m.role, "user");
    assert_eq!(m.attachments.as_ref().unwrap().len(), 1);
    assert_eq!(m.attachments.as_ref().unwrap()[0].name, "a.txt");
}

#[test]
fn rows_group_by_identifier_with_attachments_in_row_order() {
    let rows = vec![
        row("m-2", "2024-01-02T00:00:00+00:00", "a-1", "one.txt"),
        row("m-1", "2024-01-01T00:00:00+00:00", "", ""),
        row("m-2", "2024-01-02T00:00:00+00:00", "a-2", "two.txt"),
    ];
    let msgs = assemble_messages(&rows);
    assert_eq!(msgs.len(), 2);
    assert_eq!(msgs[0].id, "m-1");
    assert!(msgs[0].attachments.is_none());
    assert_eq!(msgs[1].id, "m-2");
    let atts = msgs[1].attachments.as_ref().unwrap();
    assert_eq!(atts.len(), 2);
    assert_eq!(atts[0].name, "one.txt");
    assert_eq!(atts[1].name, "two.txt");
}

#[test]
fn messages_come_back_sorted_by_creation_time() {
    let rows = vec![
        row("m-3", "2024-03-01T00:00:00+00:00", "", ""),
        row("m-1", "2024-01-01T00:00:00+00:00", "", ""),
        row("m-2", "2024-02-01T00:00:00+00:00", "", ""),
    ];
    let msgs = assemble_messages(&rows);
    assert_eq!(msgs.len(), 3);
    assert_eq!(msgs[0].id, "m-1");
    assert_eq!(msgs[1].id, "m-2");
    assert_eq!(msgs[2].id, "m-3");
}

#[test]
fn empty_row_set_yields_no_messages() {
    let rows: Vec<MessageRow> = Vec::new();
    let msgs = assemble_messages(&rows);
    assert!(msgs.is_empty());
}

#[test]
fn duplicate_rows_keep_the_first_occurrence_fields() {
    let mut first = row("m-1", "2024-01-01T00:00:00+00:00", "", "");
    first.content = String::from("kept");
    let mut second = row("m-1", "2024-01-01T00:00:00+00:00", "", "");
    second.content = String::from("ignored");
    let msgs = assemble_messages(&vec![first, second]);
    assert_eq!(msgs.len(), 1);
    assert_eq!(msgs[0].content, "kept");
}

#[test]
fn lexicographic_order_decides_timestamps() {
    assert!(str_le_exec("2024-01-01", "2024-01-02"));
    assert!(!str_le_exec("2024-01-02", "2024-01-01"));
    assert!(str_le_exec("abc", "abc"));
    assert!(str_le_exec("ab", "abc"));
    assert!(!str_le_exec("abc", "ab"));
    assert!(str_le_exec("", "a"));
}
