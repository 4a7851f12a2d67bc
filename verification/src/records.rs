use vstd::prelude::*;

verus! {

/// A chat conversation record.
#[derive(Debug)]
pub struct Chat {
    pub id: String,
    pub title: String,
    pub created_at: String,
    pub updated_at: String,
}

/// The mathematical content of a `Chat`.
#[verifier::ext_equal]
pub ghost struct ChatView {
    pub id: Seq<char>,
    pub title: Seq<char>,
    pub created_at: Seq<char>,
    pub updated_at: Seq<char>,
}

impl View for Chat {
    type V = ChatView;

    open spec fn view(&self) -> ChatView {
        ChatView {
            id: self.id@,
            title: self.title@,
            created_at: self.created_at@,
            updated_at: self.updated_at@,
        }
    }
}

/// A file attached to a message; `content` is its base64-encoded bytes and
/// `kind` its media type.
#[derive(Debug, Clone)]
pub struct FileAttachment {
    pub name: String,
    pub content: String,
    pub kind: String,
    pub size: i64,
}

/// The mathematical content of a `FileAttachment`.
#[verifier::ext_equal]
pub ghost struct AttachmentView {
    pub name: Seq<char>,
    pub content: Seq<char>,
    pub kind: Seq<char>,
    pub size: int,
}

impl View for FileAttachment {
    type V = AttachmentView;

    open spec fn view(&self) -> AttachmentView {
        AttachmentView {
            name: self.name@,
            content: self.content@,
            kind: self.kind@,
            size: self.size as int,
        }
    }
}

/// One message of a chat, with its attachments when it has any.
#[derive(Debug)]
pub struct Message {
    pub id: String,
    pub chat_id: String,
    pub content: String,
    pub role: String,
    pub created_at: String,
    pub attachments: Option<Vec<FileAttachment>>,
}

/// The mathematical content of a `Message`.
#[verifier::ext_equal]
pub ghost struct MessageView {
    pub id: Seq<char>,
    pub chat_id: Seq<char>,
    pub content: Seq<char>,
    pub role: Seq<char>,
    pub created_at: Seq<char>,
    pub attachments: Option<Seq<AttachmentView>>,
}

impl View for Message {
    type V = MessageView;

    open spec fn view(&self) -> MessageView {
        MessageView {
            id: self.id@,
            chat_id: self.chat_id@,
            content: self.content@,
            role: self.role@,
            created_at: self.created_at@,
            attachments: match self.attachments {
                Some(v) => Some(v@.map_values(|a: FileAttachment| a@)),
                None => None,
            },
        }
    }
}

/// One environment variable handed to a spawned process, applied in addition
/// to the manager's own environment.
#[derive(Debug, Clone)]
pub struct EnvVar {
    pub key: String,
    pub value: String,
}

/// The chat record a creation makes: the given identifier, the caller's
/// title, and one and the same timestamp as creation and update time.
pub fn new_chat(id: String, title: String, timestamp: String) -> (c: Chat)
    ensures
        c@.id == id@,
        c@.title == title@,
        c@.created_at == timestamp@,
        c@.updated_at == timestamp@,
{
    let created = timestamp.clone();
    Chat { id, title, created_at: created, updated_at: timestamp }
}

/// The message record an insertion makes, fields taken verbatim.
pub fn new_message(
    id: String,
    chat_id: String,
    content: String,
    role: String,
    timestamp: String,
    attachments: Option<Vec<FileAttachment>>,
) -> (m: Message)
    ensures
        m@.id == id@,
        m@.chat_id == chat_id@,
        m@.content == content@,
        m@.role == role@,
        m@.created_at == timestamp@,
        attachments matches Some(v) ==> m@.attachments == Some(
            v@.map_values(|a: FileAttachment| a@),
        ),
        attachments is None ==> m@.attachments is None,
{
    Message { id, chat_id, content, role, created_at: timestamp, attachments }
}

} // verus!
