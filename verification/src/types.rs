//! Messages, attachments and conversations.

use vstd::prelude::*;
use crate::text::{hexadecimal, push_char, push_hex};
use std::hash::{BuildHasher, Hasher};

verus! {

/// Author of a message.
#[derive(Debug, Clone, Copy, PartialEq, Eq, Structural)]
pub enum Role {
    System,
    User,
    Assistant,
}

/// Kind of file attached to a message.
#[derive(Debug, Clone, Copy, PartialEq, Eq, Structural)]
pub enum AttachmentKind {
    Image,
    Pdf,
    Epub,
    Text,
    Other,
}

/// The short label the interface shows for each kind.
pub open spec fn spec_label(kind: AttachmentKind) -> Seq<char> {
    match kind {
        AttachmentKind::Image => "Imagen"@,
        AttachmentKind::Pdf => "PDF"@,
        AttachmentKind::Epub => "EPUB"@,
        AttachmentKind::Text => "Texto"@,
        AttachmentKind::Other => "Archivo"@,
    }
}

impl AttachmentKind {
    /// Short readable label for the interface.
    pub fn label(self) -> (r: &'static str)
        ensures
            r@ == spec_label(self),
    {
        match self {
            AttachmentKind::Image => "Imagen",
            AttachmentKind::Pdf => "PDF",
            AttachmentKind::Epub => "EPUB",
            AttachmentKind::Text => "Texto",
            AttachmentKind::Other => "Archivo",
        }
    }
}

/// A file attached to a message. The text extracted from it goes into the
/// message's content; this keeps the light reference.
#[derive(Debug, Clone)]
pub struct Attachment {
    pub kind: AttachmentKind,
    pub name: String,
    /// Short line shown next to the attachment.
    pub summary: String,
    /// Path of the file, for an image (to show its preview).
    pub image_file: Option<String>,
    /// Base64 data URI of the image (`data:image/png;base64,...`), sent to
    /// the model and shown in the conversation.
    pub image_data: Option<String>,
}

/// A copy of an optional string.
pub fn copy_opt(s: &Option<String>) -> (r: Option<String>)
    ensures
        r == *s,
{
    match s {
        Some(x) => Some(x.clone()),
        None => None,
    }
}

impl Attachment {
    /// `true` if the attachment is an image ready to be sent to the model.
    pub fn is_sendable_image(&self) -> (b: bool)
        ensures
            b == (self.kind == AttachmentKind::Image && self.image_data is Some),
    {
        self.kind == AttachmentKind::Image && self.image_data.is_some()
    }

    /// A copy of this attachment, field for field.
    pub fn duplicate(&self) -> (r: Attachment)
        ensures
            r == *self,
    {
        Attachment {
            kind: self.kind,
            name: self.name.clone(),
            summary: self.summary.clone(),
            image_file: copy_opt(&self.image_file),
            image_data: copy_opt(&self.image_data),
        }
    }
}

/// A copy of a list of attachments.
pub fn copy_attachments(v: &Vec<Attachment>) -> (r: Vec<Attachment>)
    ensures
        r@ == v@,
{
    let mut r: Vec<Attachment> = Vec::new();
    let mut i: usize = 0;
    while i < v.len()
        invariant
            i <= v@.len(),
            r@ == v@.subrange(0, i as int),
        decreases v@.len() - i,
    {
        r.push(v[i].duplicate());
        i += 1;
        assert(r@ =~= v@.subrange(0, i as int));
    }
    assert(v@.subrange(0, v@.len() as int) =~= v@);
    r
}

/// One message of a conversation.
#[derive(Debug, Clone)]
pub struct Message {
    pub role: Role,
    pub content: String,
    /// Reasoning ("thinking") text that came before the final answer, for
    /// models that send `reasoning_content`.
    pub reasoning: String,
    pub attachments: Vec<Attachment>,
}

impl Message {
    pub fn user(content: String) -> (m: Message)
        ensures
            m.role == Role::User,
            m.content == content,
            m.reasoning@.len() == 0,
            m.attachments@.len() == 0,
    {
        Message { role: Role::User, content, reasoning: String::new(), attachments: Vec::new() }
    }

    pub fn assistant(content: String) -> (m: Message)
        ensures
            m.role == Role::Assistant,
            m.content == content,
            m.reasoning@.len() == 0,
            m.attachments@.len() == 0,
    {
        Message {
            role: Role::Assistant,
            content,
            reasoning: String::new(),
            attachments: Vec::new(),
        }
    }

    pub fn system(content: String) -> (m: Message)
        ensures
            m.role == Role::System,
            m.content == content,
            m.reasoning@.len() == 0,
            m.attachments@.len() == 0,
    {
        Message { role: Role::System, content, reasoning: String::new(), attachments: Vec::new() }
    }

    pub fn user_with_attachments(content: String, attachments: Vec<Attachment>) -> (m: Message)
        ensures
            m.role == Role::User,
            m.content == content,
            m.reasoning@.len() == 0,
            m.attachments == attachments,
    {
        Message { role: Role::User, content, reasoning: String::new(), attachments }
    }

    /// A copy of this message, field for field.
    pub fn duplicate(&self) -> (r: Message)
        ensures
            r.role == self.role,
            r.content == self.content,
            r.reasoning == self.reasoning,
            r.attachments@ == self.attachments@,
    {
        Message {
            role: self.role,
            content: self.content.clone(),
            reasoning: self.reasoning.clone(),
            attachments: copy_attachments(&self.attachments),
        }
    }
}

/// A conversation and its messages.
#[derive(Debug, Clone)]
pub struct Conversation {
    pub id: String,
    pub title: String,
    pub created: u64,
    pub updated: u64,
    pub messages: Vec<Message>,
}

/// The identifier of a conversation created at `now` with random `salt`:
/// both in lowercase hexadecimal, joined by `-`.
pub open spec fn conversation_id(now: u64, salt: u64) -> Seq<char> {
    hexadecimal(now as nat).push('-') + hexadecimal(salt as nat)
}

/// Title of a conversation that has none of its own yet.
pub open spec fn default_title() -> Seq<char> {
    "Nueva conversación"@
}

/// Milliseconds since the Unix epoch on the system clock, or 0 when the
/// clock is set before the epoch (`SystemTime::now` measured from
/// `UNIX_EPOCH`, in whole milliseconds). Nothing is promised of the value.
#[verifier::external_body]
pub(crate) fn now_millis() -> u64 {
    std::time::SystemTime::now().duration_since(std::time::UNIX_EPOCH).map(
        |d| d.as_millis() as u64,
    ).unwrap_or(0)
}

/// A random value: what a freshly seeded `RandomState` hasher returns.
/// Nothing is promised of the value.
#[verifier::external_body]
pub(crate) fn rand_ish() -> u64 {
    std::collections::hash_map::RandomState::new().build_hasher().finish()
}

impl Conversation {
    /// A conversation made at `now`, identified with `salt`, with the default
    /// title and no messages.
    pub fn with_stamp(now: u64, salt: u64) -> (c: Conversation)
        ensures
            c.id@ == conversation_id(now, salt),
            c.title@ == default_title(),
            c.created == now,
            c.updated == now,
            c.messages@.len() == 0,
    {
        let mut id = String::new();
        push_hex(&mut id, now);
        push_char(&mut id, '-');
        push_hex(&mut id, salt);
        Conversation {
            id,
            title: "Nueva conversación".to_owned(),
            created: now,
            updated: now,
            messages: Vec::new(),
        }
    }

    /// A new, empty conversation stamped with the current time.
    pub fn new() -> (c: Conversation)
        ensures
            exists|salt: u64| c.id@ == #[trigger] conversation_id(c.created, salt),
            c.title@ == default_title(),
            c.created == c.updated,
            c.messages@.len() == 0,
    {
        let now = now_millis();
        let salt = rand_ish();
        let c = Conversation::with_stamp(now, salt);
        assert(c.id@ == conversation_id(c.created, salt));
        c
    }

    /// Records that the conversation changed now.
    pub fn touch(&mut self)
        ensures
            final(self).id == old(self).id,
            final(self).title == old(self).title,
            final(self).created == old(self).created,
            final(self).messages == old(self).messages,
    {
        self.updated = now_millis();
    }
}

impl Default for Conversation {
    fn default() -> (c: Conversation)
        ensures
            c.title@ == default_title(),
            c.created == c.updated,
            c.messages@.len() == 0,
    {
        Conversation::new()
    }
}

} // verus!
