//! State of the chat window and how each user action or background event
//! changes it. The window itself draws this state and runs the actions that
//! need the network or the disk.

use vstd::prelude::*;
use crate::text::{
    chars_of, contains, contains_chars, decimal, is_blank, is_whitespace, is_ws, push_decimal,
    string_from_range, to_lowercase, trim, trim_string, lowercase_text,
};
use crate::types::{default_title, Attachment, Conversation, Message, Role};

verus! {

/// Settings of the chat that the state transitions read.
pub struct ChatSettings {
    pub base_url: String,
    pub api_key: String,
    pub model: String,
    pub system_prompt: String,
    pub models: Vec<String>,
}

/// State of the chat window.
pub struct ChatState {
    pub settings: ChatSettings,
    pub conversations: Vec<Conversation>,
    pub current_id: Option<String>,
    pub draft: String,
    pub streaming: bool,
    /// Conversation that the answer being streamed belongs to.
    pub stream_conv_id: Option<String>,
    pub status: Option<String>,
    pub input_focus: bool,
    pub needs_save: bool,
    /// Conversation whose title is being edited in the sidebar.
    pub renaming_id: Option<String>,
    /// Title being typed while renaming.
    pub rename_draft: String,
    /// The rename field asks for focus on the next frame.
    pub rename_focus_pending: bool,
    pub fetching_models: bool,
    pub model_query: String,
    pub importing_files: bool,
}

/// Index of the first conversation with identifier `id`.
pub open spec fn conv_index(s: Seq<Conversation>, id: Seq<char>) -> Option<int>
    decreases s.len(),
{
    if s.len() == 0 {
        None
    } else {
        match conv_index(s.drop_last(), id) {
            Some(i) => Some(i),
            None => if s.last().id@ == id {
                Some(s.len() - 1)
            } else {
                None
            },
        }
    }
}

pub proof fn lemma_conv_index(s: Seq<Conversation>, id: Seq<char>)
    ensures
        conv_index(s, id) matches Some(i) ==> 0 <= i < s.len() && s[i].id@ == id && forall|j: int|
            0 <= j < i ==> s[j].id@ != id,
        conv_index(s, id) is None ==> forall|j: int| 0 <= j < s.len() ==> s[j].id@ != id,
    decreases s.len(),
{
    if s.len() > 0 {
        lemma_conv_index(s.drop_last(), id);
        assert(forall|j: int| 0 <= j < s.len() - 1 ==> s.drop_last()[j] == s[j]);
    }
}

/// The state is consistent: the selected conversation exists.
pub open spec fn current_exists(convs: Seq<Conversation>, current: Option<String>) -> bool {
    current matches Some(id) ==> conv_index(convs, id@) is Some
}

/// `o` holds a string equal to `id`.
pub open spec fn is_id(o: Option<String>, id: Seq<char>) -> bool {
    o matches Some(c) && c@ == id
}

/// Whether `o` holds a string equal to `s`.
pub fn opt_is(o: &Option<String>, s: &String) -> (b: bool)
    ensures
        b == is_id(*o, s@),
{
    match o {
        Some(c) => *c == *s,
        None => false,
    }
}

/// `s` without the conversations identified by `id`, in order.
pub open spec fn without_id(s: Seq<Conversation>, id: Seq<char>) -> Seq<Conversation>
    decreases s.len(),
{
    if s.len() == 0 {
        seq![]
    } else {
        let rest = without_id(s.drop_last(), id);
        if s.last().id@ == id {
            rest
        } else {
            rest.push(s.last())
        }
    }
}

/// A conversation just created: default title, no messages, identified by
/// its creation time and a random salt.
pub open spec fn is_fresh(c: Conversation) -> bool {
    &&& c.title@ == default_title()
    &&& c.created == c.updated
    &&& c.messages@.len() == 0
    &&& exists|salt: u64| c.id@ == #[trigger] crate::types::conversation_id(c.created, salt)
}

pub proof fn lemma_conv_index_some(s: Seq<Conversation>, k: int)
    requires
        0 <= k < s.len(),
    ensures
        conv_index(s, s[k].id@) is Some,
{
    lemma_conv_index(s, s[k].id@);
}

/// Every conversation kept by `without_id` is one of `s`, and none has `id`.
pub proof fn lemma_without_id(s: Seq<Conversation>, id: Seq<char>)
    ensures
        forall|j: int| 0 <= j < without_id(s, id).len() ==> without_id(s, id)[j].id@ != id,
        forall|k: int| 0 <= k < s.len() && s[k].id@ != id ==> conv_index(without_id(s, id), s[k].id@) is Some,
    decreases s.len(),
{
    if s.len() > 0 {
        let d = s.drop_last();
        lemma_without_id(d, id);
        let rest = without_id(d, id);
        assert forall|k: int| 0 <= k < s.len() && s[k].id@ != id implies conv_index(without_id(s, id), s[k].id@) is Some by {
            if k < s.len() - 1 {
                assert(d[k] == s[k]);
                lemma_conv_index(rest, s[k].id@);
                let i = conv_index(rest, s[k].id@)->0;
                if s.last().id@ != id {
                    assert(without_id(s, id)[i] == rest[i]);
                    lemma_conv_index(without_id(s, id), s[k].id@);
                }
            } else {
                lemma_conv_index_some(without_id(s, id), without_id(s, id).len() - 1);
            }
        }
    }
}

pub proof fn lemma_conv_index_same_ids(a: Seq<Conversation>, b: Seq<Conversation>, id: Seq<char>)
    requires
        a.len() == b.len(),
        forall|k: int| 0 <= k < a.len() ==> a[k].id == b[k].id,
    ensures
        conv_index(a, id) == conv_index(b, id),
    decreases a.len(),
{
    if a.len() > 0 {
        lemma_conv_index_same_ids(a.drop_last(), b.drop_last(), id);
    }
}

impl ChatState {
    pub open spec fn wf(&self) -> bool {
        current_exists(self.conversations@, self.current_id)
    }

    /// The state at start-up, with the saved settings and conversations:
    /// when there are none, a new conversation; the first one is selected.
    pub fn new(settings: ChatSettings, conversations: Vec<Conversation>) -> (s: ChatState)
        ensures
            s.wf(),
            s.settings == settings,
            conversations@.len() > 0 ==> s.conversations == conversations,
            conversations@.len() == 0 ==> s.conversations@.len() == 1 && is_fresh(s.conversations@[0]),
            s.current_id == Some(s.conversations@[0].id),
            s.draft@.len() == 0,
            !s.streaming,
            s.stream_conv_id is None,
            s.status is None,
            s.input_focus,
            !s.needs_save,
            s.renaming_id is None,
            s.rename_draft@.len() == 0,
            !s.rename_focus_pending,
            !s.fetching_models,
            s.model_query@.len() == 0,
            !s.importing_files,
    {
        let mut conversations = conversations;
        if conversations.len() == 0 {
            conversations.push(Conversation::new());
        }
        let current = conversations[0].id.clone();
        proof {
            lemma_conv_index_some(conversations@, 0);
        }
        ChatState {
            settings,
            conversations,
            current_id: Some(current),
            draft: String::new(),
            streaming: false,
            stream_conv_id: None,
            status: None,
            input_focus: true,
            needs_save: false,
            renaming_id: None,
            rename_draft: String::new(),
            rename_focus_pending: false,
            fetching_models: false,
            model_query: String::new(),
            importing_files: false,
        }
    }

    /// Whether the state is consistent (`wf`): the selected conversation,
    /// if any, exists.
    pub fn is_consistent(&self) -> (b: bool)
        ensures
            b == self.wf(),
    {
        match &self.current_id {
            Some(id) => self.find_conversation(id.as_str()).is_some(),
            None => true,
        }
    }

    /// Index of the conversation with identifier `id`.
    pub fn find_conversation(&self, id: &str) -> (r: Option<usize>)
        ensures
            r matches Some(i) ==> conv_index(self.conversations@, id@) == Some(i as int),
            r matches Some(i) ==> i < self.conversations@.len() && self.conversations@[i as int].id@
                == id@,
            r is None ==> conv_index(self.conversations@, id@) is None,
    {
        let target = id.to_owned();
        let mut i: usize = 0;
        proof {
            lemma_conv_index(self.conversations@, id@);
        }
        while i < self.conversations.len()
            invariant
                i <= self.conversations@.len(),
                target@ == id@,
                forall|j: int| 0 <= j < i ==> self.conversations@[j].id@ != id@,
            decreases self.conversations@.len() - i,
        {
            if self.conversations[i].id == target {
                proof {
                    lemma_conv_index(self.conversations@, id@);
                }
                return Some(i);
            }
            i += 1;
        }
        proof {
            lemma_conv_index(self.conversations@, id@);
        }
        None
    }

    /// Ends a title edit without keeping it.
    pub fn cancel_rename(&mut self)
        ensures
            final(self).rename_draft@.len() == 0,
            *final(self) == (ChatState {
                renaming_id: None,
                rename_draft: final(self).rename_draft,
                rename_focus_pending: false,
                ..*old(self)
            }),
    {
        self.renaming_id = None;
        self.rename_draft = String::new();
        self.rename_focus_pending = false;
    }

    /// Starts a new, empty conversation and selects it.
    pub fn new_conversation(&mut self)
        ensures
            final(self).conversations@.len() == old(self).conversations@.len() + 1,
            final(self).conversations@.drop_last() == old(self).conversations@,
            is_fresh(final(self).conversations@.last()),
            final(self).current_id == Some(final(self).conversations@.last().id),
            final(self).draft@.len() == 0,
            final(self).input_focus,
            final(self).needs_save,
            final(self).renaming_id is None,
            final(self).rename_draft@.len() == 0,
            !final(self).rename_focus_pending,
            final(self).streaming == old(self).streaming,
            final(self).stream_conv_id == old(self).stream_conv_id,
            final(self).status == old(self).status,
            final(self).settings == old(self).settings,
            final(self).wf(),
    {
        self.cancel_rename();
        let conv = Conversation::new();
        let id = conv.id.clone();
        let ghost before = self.conversations@;
        self.conversations.push(conv);
        assert(self.conversations@.drop_last() =~= before);
        proof {
            lemma_conv_index_some(self.conversations@, self.conversations@.len() - 1);
        }
        self.current_id = Some(id);
        self.draft = String::new();
        self.input_focus = true;
        self.needs_save = true;
    }

    /// Deletes the conversations identified by `id`. A deleted selection
    /// moves to the first conversation left; when none is left a new one is
    /// started and selected.
    pub fn delete_conversation(&mut self, id: &str)
        ensures
            ({
                let kept = without_id(old(self).conversations@, id@);
                &&& kept.len() > 0 ==> final(self).conversations@ == kept
                &&& kept.len() > 0 ==> final(self).current_id == if is_id(old(self).current_id, id@) {
                    Some(kept[0].id)
                } else {
                    old(self).current_id
                }
                &&& kept.len() == 0 ==> final(self).conversations@.len() == 1 && is_fresh(
                    final(self).conversations@[0],
                ) && final(self).current_id == Some(final(self).conversations@[0].id)
            }),
            final(self).conversations@.len() > 0,
            is_id(old(self).renaming_id, id@) ==> final(self).renaming_id is None,
            !is_id(old(self).renaming_id, id@) ==> final(self).renaming_id == old(self).renaming_id,
            final(self).needs_save,
            final(self).streaming == old(self).streaming,
            final(self).stream_conv_id == old(self).stream_conv_id,
            final(self).status == old(self).status,
            final(self).settings == old(self).settings,
            old(self).wf() ==> final(self).wf(),
    {
        let target = id.to_owned();
        let ghost old_cur = self.current_id;
        let mut old_list: Vec<Conversation> = Vec::new();
        std::mem::swap(&mut old_list, &mut self.conversations);
        let ghost all = old_list@;
        let mut kept: Vec<Conversation> = Vec::new();
        let mut rest = old_list;
        let ghost mut taken: Seq<Conversation> = seq![];
        // Walk the list from the back, keeping the order of what stays.
        let mut back: Vec<Conversation> = Vec::new();
        while rest.len() > 0
            invariant
                all == rest@ + back@.reverse(),
            decreases rest@.len(),
        {
            let ghost r0 = rest@;
            let c = rest.pop().unwrap();
            proof {
                assert(r0 =~= rest@.push(c));
                assert(back@.push(c).reverse() =~= seq![c] + back@.reverse());
            }
            back.push(c);
            assert(all =~= rest@ + back@.reverse());
        }
        assert(back@.reverse() =~= all);
        while back.len() > 0
            invariant
                taken + back@.reverse() == all,
                kept@ == without_id(taken, target@),
                target@ == id@,
            decreases back@.len(),
        {
            let ghost b0 = back@;
            let c = back.pop().unwrap();
            proof {
                assert(b0 =~= back@.push(c));
                assert(back@.push(c).reverse() =~= seq![c] + back@.reverse());
                assert(all =~= taken.push(c) + back@.reverse());
                assert(taken.push(c).drop_last() =~= taken);
                taken = taken.push(c);
            }
            let keep = c.id != target;
            if keep {
                kept.push(c);
            }
        }
        assert(taken =~= all);
        self.conversations = kept;
        proof {
            lemma_without_id(all, id@);
        }
        if opt_is(&self.renaming_id, &target) {
            self.cancel_rename();
        }
        if opt_is(&self.current_id, &target) {
            self.current_id = if self.conversations.len() > 0 {
                proof {
                    lemma_conv_index_some(self.conversations@, 0);
                }
                Some(self.conversations[0].id.clone())
            } else {
                None
            };
        }
        if self.conversations.len() == 0 {
            self.conversations.push(Conversation::new());
            proof {
                lemma_conv_index_some(self.conversations@, 0);
            }
            self.current_id = Some(self.conversations[0].id.clone());
        }
        self.needs_save = true;
        proof {
            if let Some(c) = old_cur {
                if conv_index(all, c@) is Some && !is_id(old_cur, id@) {
                    lemma_conv_index(all, c@);
                    let k = conv_index(all, c@)->0;
                    assert(all[k].id@ == c@);
                }
            }
        }
    }
}

/// The title a rename leaves: the trimmed text, or the default title when
/// nothing but whitespace was typed.
pub open spec fn renamed_title(title: Seq<char>) -> Seq<char> {
    if trim(title).len() == 0 {
        default_title()
    } else {
        trim(title)
    }
}

/// When the extracted text is not blank, the message starts with the
/// summary and ends with the whole extracted text; otherwise, or with no
/// text, it is the summary alone.
pub proof fn law_attachment_content_carries_text(summary: Seq<char>, extracted: Option<String>)
    ensures
        (extracted matches Some(t) && trim(t@).len() > 0) ==> {
            let c = attachment_content(summary, extracted);
            let t = extracted->0@;
            &&& c.len() > summary.len() + t.len()
            &&& c.subrange(0, summary.len() as int) == summary
            &&& c.subrange(c.len() - t.len(), c.len() as int) == t
        },
        !(extracted matches Some(t) && trim(t@).len() > 0) ==> attachment_content(summary, extracted)
            == summary,
{
    if extracted is Some && trim(extracted->0@).len() > 0 {
        let t = extracted->0@;
        let m = "\n\n<contenido extraído>\n"@;
        reveal_strlit("\n\n<contenido extraído>\n");
        let c = summary + m + t;
        assert(c.subrange(0, summary.len() as int) =~= summary);
        assert(c.subrange(c.len() - t.len(), c.len() as int) =~= t);
    }
}

/// Content of the message that adds attachments: the summary of the first
/// attachment (or a generic one), then the extracted text when it is not
/// blank.
pub open spec fn attachment_content(summary: Seq<char>, extracted: Option<String>) -> Seq<char> {
    match extracted {
        Some(text) => if trim(text@).len() == 0 {
            summary
        } else {
            summary + "\n\n<contenido extraído>\n"@ + text@
        },
        None => summary,
    }
}

/// Summary line of a list of attachments: that of the first one.
pub open spec fn attachments_summary(a: Seq<Attachment>) -> Seq<char> {
    if a.len() > 0 {
        a[0].summary@
    } else {
        "Archivo adjuntado"@
    }
}

impl ChatState {
    /// Starts editing the title of conversation `id`, which gets selected.
    pub fn start_rename(&mut self, id: String)
        ensures
            final(self).renaming_id == Some(id),
            final(self).current_id == Some(id),
            final(self).rename_focus_pending,
            final(self).rename_draft@ == match conv_index(old(self).conversations@, id@) {
                Some(i) => old(self).conversations@[i].title@,
                None => seq![],
            },
            *final(self) == (ChatState {
                renaming_id: final(self).renaming_id,
                current_id: final(self).current_id,
                rename_draft: final(self).rename_draft,
                rename_focus_pending: true,
                ..*old(self)
            }),
            conv_index(old(self).conversations@, id@) is Some ==> final(self).wf(),
    {
        self.renaming_id = Some(id.clone());
        self.rename_draft = match self.find_conversation(id.as_str()) {
            Some(i) => self.conversations[i].title.clone(),
            None => String::new(),
        };
        self.rename_focus_pending = true;
        self.current_id = Some(id);
    }

    /// Gives conversation `id` the typed title (trimmed; the default title
    /// when blank) and ends the edit.
    pub fn commit_rename(&mut self, id: &str, title: &str)
        ensures
            final(self).conversations@.len() == old(self).conversations@.len(),
            match conv_index(old(self).conversations@, id@) {
                Some(i) => {
                    &&& final(self).conversations@[i].title@ == renamed_title(title@)
                    &&& final(self).conversations@[i].id == old(self).conversations@[i].id
                    &&& final(self).conversations@[i].created == old(self).conversations@[i].created
                    &&& final(self).conversations@[i].messages == old(self).conversations@[i].messages
                    &&& forall|j: int| 0 <= j < old(self).conversations@.len() && j != i
                        ==> final(self).conversations@[j] == old(self).conversations@[j]
                },
                None => final(self).conversations@ == old(self).conversations@,
            },
            final(self).renaming_id is None,
            final(self).rename_draft@.len() == 0,
            *final(self) == (ChatState {
                conversations: final(self).conversations,
                renaming_id: None,
                rename_draft: final(self).rename_draft,
                rename_focus_pending: false,
                needs_save: true,
                ..*old(self)
            }),
            old(self).wf() ==> final(self).wf(),
    {
        let ghost before = self.conversations@;
        match self.find_conversation(id) {
            Some(i) => {
                let v = chars_of(title);
                let (a, b) = crate::text::trim_bounds(&v);
                let t = string_from_range(&v, a, b);
                let new_title = if a == b {
                    "Nueva conversación".to_owned()
                } else {
                    t
                };
                self.conversations[i].title = new_title;
                self.conversations[i].touch();
                let ghost cur = self.current_id;
                proof {
                    assert forall|k: int| 0 <= k < before.len() implies self.conversations@[k].id == before[k].id by {}
                    if let Some(c) = cur {
                        if conv_index(before, c@) is Some {
                            lemma_conv_index(before, c@);
                            let k = conv_index(before, c@)->0;
                            lemma_conv_index_some(self.conversations@, k);
                        }
                    }
                }
            },
            None => {},
        }
        self.cancel_rename();
        self.needs_save = true;
    }

    /// Adds the attachments of an imported file as a message of the user in
    /// the selected conversation (a new one when none is selected).
    pub fn add_user_attachment(&mut self, attachments: Vec<Attachment>, extracted: Option<String>)
        requires
            old(self).wf(),
        ensures
            final(self).wf(),
            final(self).needs_save,
            final(self).status matches Some(st) && st@ == "Archivo adjuntado: "@ + attachments_summary(
                attachments@,
            ),
            final(self).conversations@.len() == old(self).conversations@.len() + (if old(
                self,
            ).current_id is Some {
                0int
            } else {
                1int
            }),
            old(self).current_id is Some ==> final(self).current_id == old(self).current_id,
            final(self).current_id is Some,
            ({
                let i = conv_index(final(self).conversations@, final(self).current_id->0@)->0;
                let before = if i < old(self).conversations@.len() {
                    old(self).conversations@[i].messages@
                } else {
                    seq![]
                };
                let m = final(self).conversations@[i].messages@.last();
                &&& 0 <= i < final(self).conversations@.len()
                &&& final(self).conversations@[i].messages@ == before.push(m)
                &&& m.role == Role::User
                &&& m.content@ == attachment_content(attachments_summary(attachments@), extracted)
                &&& m.reasoning@.len() == 0
                &&& m.attachments == attachments
                &&& final(self).conversations@[i].id@ == final(self).current_id->0@
                &&& i < old(self).conversations@.len() ==> {
                    &&& final(self).conversations@[i].id == old(self).conversations@[i].id
                    &&& final(self).conversations@[i].title == old(self).conversations@[i].title
                    &&& final(self).conversations@[i].created == old(self).conversations@[i].created
                }
                &&& old(self).current_id is Some ==> conv_index(
                    old(self).conversations@,
                    old(self).current_id->0@,
                ) == Some(i)
                &&& forall|j: int|
                    0 <= j < old(self).conversations@.len() && j != i
                        ==> final(self).conversations@[j] == old(self).conversations@[j]
            }),
    {
        if self.current_id.is_none() {
            self.new_conversation();
        }
        let ghost mid = self.conversations@;
        let conv_id = match &self.current_id {
            Some(id) => id.clone(),
            None => String::new(),
        };
        let summary = if attachments.len() > 0 {
            attachments[0].summary.clone()
        } else {
            "Archivo adjuntado".to_owned()
        };
        let mut content = summary.clone();
        match &extracted {
            Some(text) => {
                if !is_blank(text.as_str()) {
                    content.append("\n\n<contenido extraído>\n");
                    content.append(text.as_str());
                }
            },
            None => {},
        }
        let msg = Message::user_with_attachments(content, attachments);
        match self.find_conversation(conv_id.as_str()) {
            Some(i) => {
                self.conversations[i].touch();
                self.conversations[i].messages.push(msg);
                proof {
                    assert forall|k: int| 0 <= k < mid.len() implies self.conversations@[k].id == mid[k].id by {}
                    lemma_conv_index_same_ids(mid, self.conversations@, conv_id@);
                }
            },
            None => {},
        }
        self.needs_save = true;
        let mut st = "Archivo adjuntado: ".to_owned();
        st.append(summary.as_str());
        self.status = Some(st);
    }
}

/// Title that a conversation takes from its first message.
pub open spec fn title_from_draft(d: Seq<char>) -> Seq<char> {
    if d.len() > 48 {
        d.subrange(0, 48) + "..."@
    } else {
        d
    }
}

pub open spec fn has_user_message(ms: Seq<Message>) -> bool {
    exists|j: int| 0 <= j < ms.len() && #[trigger] ms[j].role == Role::User
}

/// `m` has this role and content, no reasoning and no attachments.
pub open spec fn msg_is(m: Message, role: Role, content: Seq<char>) -> bool {
    &&& m.role == role
    &&& m.content@ == content
    &&& m.reasoning@.len() == 0
    &&& m.attachments@.len() == 0
}

/// `a` and `b` hold the same message.
pub open spec fn same_msg(a: Message, b: Message) -> bool {
    &&& a.role == b.role
    &&& a.content@ == b.content@
    &&& a.reasoning@ == b.reasoning@
    &&& a.attachments@ == b.attachments@
}

/// Whether some message of `ms` is the user's.
fn any_user_message(ms: &Vec<Message>) -> (b: bool)
    ensures
        b == has_user_message(ms@),
{
    let mut i: usize = 0;
    while i < ms.len()
        invariant
            i <= ms@.len(),
            forall|j: int| 0 <= j < i ==> ms@[j].role != Role::User,
        decreases ms@.len() - i,
    {
        if ms[i].role == Role::User {
            return true;
        }
        i += 1;
    }
    false
}

/// The first 48 characters of `d`, with `...` when it is longer.
fn make_title(d: &String) -> (r: String)
    ensures
        r@ == title_from_draft(d@),
{
    let v = chars_of(d.as_str());
    if v.len() > 48 {
        let mut t = string_from_range(&v, 0, 48);
        t.append("...");
        t
    } else {
        d.clone()
    }
}

impl ChatState {
    /// Sends the draft: records it as the user's message in the selected
    /// conversation (a new one when there is none), adds an empty answer to be
    /// streamed into, and returns the messages to send to the model (the
    /// system prompt first, when there is one). Returns `None` and changes
    /// nothing while an answer streams or when the draft is blank; with no
    /// model chosen it only reports that.
    pub fn send(&mut self) -> (r: Option<Vec<Message>>)
        requires
            old(self).wf(),
        ensures
            old(self).streaming || trim(old(self).draft@).len() == 0 ==> r is None && *final(self)
                == *old(self),
            !old(self).streaming && trim(old(self).draft@).len() > 0 && trim(
                old(self).settings.model@,
            ).len() == 0 ==> r is None && *final(self) == (ChatState {
                status: final(self).status,
                ..*old(self)
            }) && (final(self).status matches Some(st) && st@
                == "Indica un modelo en Ajustes antes de enviar."@),
            !old(self).streaming && trim(old(self).draft@).len() > 0 && trim(
                old(self).settings.model@,
            ).len() > 0 ==> ({
                let draft = trim(old(self).draft@);
                let i = conv_index(final(self).conversations@, final(self).current_id->0@)->0;
                let known = i < old(self).conversations@.len();
                let before = if known {
                    old(self).conversations@[i].messages@
                } else {
                    seq![]
                };
                let old_title = if known {
                    old(self).conversations@[i].title@
                } else {
                    default_title()
                };
                let msgs = final(self).conversations@[i].messages@;
                let prompt = old(self).settings.system_prompt@;
                let off: int = if trim(prompt).len() == 0 {
                    0
                } else {
                    1
                };
                &&& r matches Some(p) && {
                    &&& p@.len() == off + before.len() + 1
                    &&& off == 1 ==> msg_is(p@[0], Role::System, prompt)
                    &&& forall|j: int| 0 <= j <= before.len() ==> same_msg(#[trigger] p@[off + j], msgs[j])
                }
                &&& final(self).current_id is Some
                &&& old(self).current_id is Some ==> final(self).current_id == old(self).current_id
                &&& 0 <= i < final(self).conversations@.len()
                &&& final(self).conversations@[i].id@ == final(self).current_id->0@
                &&& known ==> final(self).conversations@[i].id == old(self).conversations@[i].id
                    && final(self).conversations@[i].created == old(self).conversations@[i].created
                &&& old(self).current_id is Some && old(self).conversations@.len() > 0
                    ==> conv_index(old(self).conversations@, old(self).current_id->0@) == Some(i)
                &&& final(self).conversations@.len() == old(self).conversations@.len() + (if old(
                    self,
                ).current_id is None || old(self).conversations@.len() == 0 {
                    1int
                } else {
                    0int
                })
                &&& msgs.len() == before.len() + 2
                &&& forall|j: int| 0 <= j < before.len() ==> msgs[j] == before[j]
                &&& msg_is(msgs[before.len() as int], Role::User, draft)
                &&& msg_is(msgs[before.len() + 1int], Role::Assistant, seq![])
                &&& final(self).conversations@[i].title@ == if has_user_message(before) {
                    old_title
                } else {
                    title_from_draft(draft)
                }
                &&& forall|j: int|
                    0 <= j < old(self).conversations@.len() && j != i
                        ==> final(self).conversations@[j] == old(self).conversations@[j]
                &&& final(self).streaming
                &&& final(self).stream_conv_id == final(self).current_id
                &&& final(self).draft@.len() == 0
                &&& final(self).input_focus
                &&& final(self).needs_save
                &&& final(self).wf()
            }),
    {
        if self.streaming {
            return None;
        }
        let draft = trim_string(self.draft.as_str());
        if draft.as_str().is_empty() {
            return None;
        }
        if is_blank(self.settings.model.as_str()) {
            self.status = Some("Indica un modelo en Ajustes antes de enviar.".to_owned());
            return None;
        }
        let ghost start = self.conversations@;
        if self.current_id.is_none() || self.conversations.len() == 0 {
            self.new_conversation();
        }
        let ghost mid = self.conversations@;
        let conv_id = match &self.current_id {
            Some(id) => id.clone(),
            None => String::new(),
        };
        let i = match self.find_conversation(conv_id.as_str()) {
            Some(i) => i,
            None => {
                return None;
            },
        };
        let ghost before = mid[i as int].messages@;
        if !any_user_message(&self.conversations[i].messages) {
            let t = make_title(&draft);
            self.conversations[i].title = t;
        }
        self.conversations[i].touch();
        self.conversations[i].messages.push(Message::user(draft));
        let mut payload: Vec<Message> = Vec::new();
        if !is_blank(self.settings.system_prompt.as_str()) {
            payload.push(Message::system(self.settings.system_prompt.clone()));
        }
        let off = payload.len();
        let mut k: usize = 0;
        while k < self.conversations[i].messages.len()
            invariant
                i < self.conversations@.len(),
                k <= self.conversations@[i as int].messages@.len(),
                payload@.len() == off + k,
                off == 1 ==> msg_is(payload@[0], Role::System, self.settings.system_prompt@),
                off <= 1,
                off == 1 <==> trim(self.settings.system_prompt@).len() > 0,
                forall|j: int|
                    0 <= j < k ==> same_msg(#[trigger] payload@[off + j], self.conversations@[i as int].messages@[j]),
            decreases self.conversations@[i as int].messages@.len() - k,
        {
            let m = self.conversations[i].messages[k].duplicate();
            payload.push(m);
            k += 1;
        }
        self.conversations[i].messages.push(Message::assistant(String::new()));
        proof {
            assert forall|k: int| 0 <= k < mid.len() implies self.conversations@[k].id == mid[k].id by {}
            lemma_conv_index_same_ids(mid, self.conversations@, conv_id@);
        }
        self.stream_conv_id = Some(conv_id);
        self.streaming = true;
        self.draft = String::new();
        self.input_focus = true;
        self.needs_save = true;
        proof {
            let known = (i as int) < start.len();
            assert(i < start.len() ==> mid[i as int] == start[i as int]);
            assert(known ==> before == start[i as int].messages@);
        }
        Some(payload)
    }
}

/// A piece of the streamed answer, as the API client delivers it.
pub enum StreamEvent {
    /// More reasoning ("thinking") text.
    Reasoning(String),
    /// More answer text.
    Chunk(String),
    /// The answer is complete.
    Done,
    /// The request failed, with a message for the user.
    Error(String),
}

impl ChatState {
    /// Appends a streamed piece to the last message of the conversation being
    /// answered, or ends the stream.
    pub fn apply_stream_event(&mut self, ev: StreamEvent)
        ensures
            match ev {
                StreamEvent::Reasoning(text) | StreamEvent::Chunk(text) => {
                    &&& final(self).conversations@.len() == old(self).conversations@.len()
                    &&& match old(self).stream_conv_id {
                        Some(sid) => match conv_index(old(self).conversations@, sid@) {
                            Some(i) => {
                                let ms = old(self).conversations@[i].messages@;
                                let fs = final(self).conversations@[i].messages@;
                                &&& forall|j: int|
                                    0 <= j < old(self).conversations@.len() && j != i
                                        ==> final(self).conversations@[j] == old(self).conversations@[j]
                                &&& final(self).conversations@[i].id == old(self).conversations@[i].id
                                &&& final(self).conversations@[i].title == old(self).conversations@[i].title
                                &&& final(self).conversations@[i].created == old(self).conversations@[i].created
                                &&& final(self).conversations@[i].updated == old(self).conversations@[i].updated
                                &&& fs.len() == ms.len()
                                &&& forall|j: int| 0 <= j < ms.len() - 1 ==> fs[j] == ms[j]
                                &&& ms.len() > 0 ==> {
                                    let a = ms.last();
                                    let b = fs.last();
                                    &&& b.role == a.role
                                    &&& b.attachments == a.attachments
                                    &&& ev is Chunk ==> b.content@ == a.content@ + text@ && b.reasoning
                                        == a.reasoning
                                    &&& ev is Reasoning ==> b.reasoning@ == a.reasoning@ + text@
                                        && b.content == a.content
                                }
                            },
                            None => final(self).conversations@ == old(self).conversations@,
                        },
                        None => final(self).conversations@ == old(self).conversations@,
                    }
                    &&& *final(self) == (ChatState {
                        conversations: final(self).conversations,
                        ..*old(self)
                    })
                },
                StreamEvent::Done => *final(self) == (ChatState {
                    streaming: false,
                    stream_conv_id: None,
                    needs_save: true,
                    ..*old(self)
                }),
                StreamEvent::Error(message) => *final(self) == (ChatState {
                    streaming: false,
                    stream_conv_id: None,
                    needs_save: true,
                    status: Some(message),
                    ..*old(self)
                }),
            },
            old(self).wf() ==> final(self).wf(),
    {
        match ev {
            StreamEvent::Reasoning(text) => {
                self.append_to_streamed(text, true);
            },
            StreamEvent::Chunk(text) => {
                self.append_to_streamed(text, false);
            },
            StreamEvent::Done => {
                self.finish_stream();
            },
            StreamEvent::Error(message) => {
                self.finish_stream();
                self.status = Some(message);
            },
        }
    }

    /// Appends `text` to the reasoning (or the content) of the last message
    /// of the conversation being answered.
    fn append_to_streamed(&mut self, text: String, reasoning: bool)
        ensures
            final(self).conversations@.len() == old(self).conversations@.len(),
            match old(self).stream_conv_id {
                Some(sid) => match conv_index(old(self).conversations@, sid@) {
                    Some(i) => {
                        let ms = old(self).conversations@[i].messages@;
                        let fs = final(self).conversations@[i].messages@;
                        &&& forall|j: int|
                            0 <= j < old(self).conversations@.len() && j != i
                                ==> final(self).conversations@[j] == old(self).conversations@[j]
                        &&& final(self).conversations@[i].id == old(self).conversations@[i].id
                        &&& final(self).conversations@[i].title == old(self).conversations@[i].title
                        &&& final(self).conversations@[i].created == old(self).conversations@[i].created
                        &&& final(self).conversations@[i].updated == old(self).conversations@[i].updated
                        &&& fs.len() == ms.len()
                        &&& forall|j: int| 0 <= j < ms.len() - 1 ==> fs[j] == ms[j]
                        &&& ms.len() > 0 ==> {
                            let a = ms.last();
                            let b = fs.last();
                            &&& b.role == a.role
                            &&& b.attachments == a.attachments
                            &&& !reasoning ==> b.content@ == a.content@ + text@ && b.reasoning == a.reasoning
                            &&& reasoning ==> b.reasoning@ == a.reasoning@ + text@ && b.content == a.content
                        }
                    },
                    None => final(self).conversations@ == old(self).conversations@,
                },
                None => final(self).conversations@ == old(self).conversations@,
            },
            *final(self) == (ChatState { conversations: final(self).conversations, ..*old(self) }),
            old(self).wf() ==> final(self).wf(),
    {
        let sid = match &self.stream_conv_id {
            Some(id) => id.clone(),
            None => {
                return;
            },
        };
        let ghost before = self.conversations@;
        match self.find_conversation(sid.as_str()) {
            Some(i) => {
                let n = self.conversations[i].messages.len();
                if n > 0 {
                    if reasoning {
                        self.conversations[i].messages[n - 1].reasoning.append(text.as_str());
                    } else {
                        self.conversations[i].messages[n - 1].content.append(text.as_str());
                    }
                }
                proof {
                    assert forall|k: int| 0 <= k < before.len() implies self.conversations@[k].id == before[k].id by {}
                    lemma_conv_index_same_ids(before, self.conversations@, self.current_id->0@);
                }
            },
            None => {},
        }
    }

    /// Ends the stream: nothing is being answered any more.
    fn finish_stream(&mut self)
        ensures
            *final(self) == (ChatState {
                streaming: false,
                stream_conv_id: None,
                needs_save: true,
                ..*old(self)
            }),
    {
        self.streaming = false;
        self.stream_conv_id = None;
        self.needs_save = true;
    }

    /// The stream's channel closed without a last event.
    pub fn stream_disconnected(&mut self)
        ensures
            *final(self) == (ChatState {
                streaming: false,
                stream_conv_id: None,
                needs_save: true,
                ..*old(self)
            }),
    {
        self.finish_stream();
    }

    /// The user stopped the answer being streamed.
    pub fn stop(&mut self)
        ensures
            *final(self) == (ChatState {
                streaming: false,
                stream_conv_id: None,
                needs_save: true,
                ..*old(self)
            }),
    {
        self.finish_stream();
    }
}

/// `v` holds a string equal to `s`.
pub open spec fn holds(v: Seq<String>, s: Seq<char>) -> bool {
    exists|j: int| 0 <= j < v.len() && #[trigger] v[j]@ == s
}

/// Whether `v` holds a string equal to `s`.
fn contains_string(v: &Vec<String>, s: &String) -> (b: bool)
    ensures
        b == holds(v@, s@),
{
    let mut i: usize = 0;
    while i < v.len()
        invariant
            i <= v@.len(),
            forall|j: int| 0 <= j < i ==> v@[j]@ != s@,
        decreases v@.len() - i,
    {
        if v[i] == *s {
            return true;
        }
        i += 1;
    }
    false
}

impl ChatState {
    /// Selects conversation `id` and gives the input the focus.
    pub fn select_conversation(&mut self, id: String)
        ensures
            *final(self) == (ChatState { current_id: Some(id), input_focus: true, ..*old(self) }),
            conv_index(old(self).conversations@, id@) is Some ==> final(self).wf(),
    {
        self.current_id = Some(id);
        self.input_focus = true;
    }

    /// Asks to load the list of models; `false` (and no change) while a
    /// request is already running.
    pub fn begin_fetch_models(&mut self) -> (start: bool)
        ensures
            start == !old(self).fetching_models,
            !start ==> *final(self) == *old(self),
            start ==> *final(self) == (ChatState {
                fetching_models: true,
                status: final(self).status,
                ..*old(self)
            }) && (final(self).status matches Some(st) && st@ == "Cargando modelos..."@),
    {
        if self.fetching_models {
            return false;
        }
        self.fetching_models = true;
        self.status = Some("Cargando modelos...".to_owned());
        true
    }

    /// The server listed its models: they replace the known ones and the
    /// first becomes the selected model.
    pub fn models_loaded(&mut self, models: Vec<String>)
        ensures
            final(self).settings.models == models,
            final(self).settings.model == if models@.len() > 0 {
                models@[0]
            } else {
                old(self).settings.model
            },
            final(self).status matches Some(st) && st@ == crate::text::decimal(models@.len())
                + " modelos cargados."@,
            *final(self) == (ChatState {
                settings: ChatSettings {
                    models: final(self).settings.models,
                    model: final(self).settings.model,
                    ..old(self).settings
                },
                needs_save: true,
                status: final(self).status,
                fetching_models: false,
                ..*old(self)
            }),
    {
        let count = models.len();
        self.settings.models = models;
        if self.settings.models.len() > 0 {
            self.settings.model = self.settings.models[0].clone();
        }
        self.needs_save = true;
        let mut st = String::new();
        crate::text::push_decimal(&mut st, count as u64);
        st.append(" modelos cargados.");
        self.status = Some(st);
        self.fetching_models = false;
    }

    /// Loading the models failed with `message`.
    pub fn models_failed(&mut self, message: String)
        ensures
            *final(self) == (ChatState {
                status: Some(message),
                fetching_models: false,
                ..*old(self)
            }),
    {
        self.status = Some(message);
        self.fetching_models = false;
    }

    /// Whether an import is already running (and then says so).
    pub fn import_busy(&mut self) -> (busy: bool)
        ensures
            busy == old(self).importing_files,
            !busy ==> *final(self) == *old(self),
            busy ==> *final(self) == (ChatState { status: final(self).status, ..*old(self) })
                && (final(self).status matches Some(st) && st@
                == "Ya se está importando un archivo..."@),
    {
        if self.importing_files {
            self.status = Some("Ya se está importando un archivo...".to_owned());
            return true;
        }
        false
    }

    /// Files were chosen and their import runs in the background.
    pub fn import_started(&mut self)
        ensures
            *final(self) == (ChatState {
                importing_files: true,
                status: final(self).status,
                ..*old(self)
            }),
            final(self).status matches Some(st) && st@ == "Procesando archivos..."@,
    {
        self.importing_files = true;
        self.status = Some("Procesando archivos...".to_owned());
    }

    /// Importing one file failed with `message`.
    pub fn import_failed(&mut self, message: String)
        ensures
            *final(self) == (ChatState { status: Some(message), ..*old(self) }),
    {
        self.status = Some(message);
    }

    /// Every chosen file was imported.
    pub fn imports_finished(&mut self)
        ensures
            *final(self) == (ChatState { importing_files: false, ..*old(self) }),
    {
        self.importing_files = false;
    }

    /// Whether the settings and conversations are to be saved now: there are
    /// changes and no answer is streaming. The request is then taken.
    pub fn take_save_request(&mut self) -> (save: bool)
        ensures
            save == (old(self).needs_save && !old(self).streaming),
            final(self).streaming || !final(self).needs_save,
            save ==> *final(self) == (ChatState { needs_save: false, ..*old(self) }),
            !save ==> *final(self) == *old(self),
    {
        if self.needs_save && !self.streaming {
            self.needs_save = false;
            true
        } else {
            false
        }
    }

    /// Saving the settings failed with `error`.
    pub fn settings_save_failed(&mut self, error: &str)
        ensures
            final(self).status matches Some(st) && st@ == "No se pudo guardar la configuración: "@
                + error@,
            *final(self) == (ChatState { status: final(self).status, ..*old(self) }),
    {
        let mut st = "No se pudo guardar la configuración: ".to_owned();
        st.append(error);
        self.status = Some(st);
    }

    /// Saving the conversations failed with `error`.
    pub fn conversations_save_failed(&mut self, error: &str)
        ensures
            final(self).status matches Some(st) && st@ == "No se pudieron guardar las conversaciones: "@
                + error@,
            *final(self) == (ChatState { status: final(self).status, ..*old(self) }),
    {
        let mut st = "No se pudieron guardar las conversaciones: ".to_owned();
        st.append(error);
        self.status = Some(st);
    }

    /// Adds the model typed in the settings (trimmed) to the known models,
    /// unless it is blank or already known.
    pub fn add_model(&mut self)
        ensures
            ({
                let m = trim(old(self).settings.model@);
                &&& m.len() > 0 && !holds(old(self).settings.models@, m) ==> final(self).settings.models@.len()
                    == old(self).settings.models@.len() + 1 && final(self).settings.models@.drop_last()
                    == old(self).settings.models@ && final(self).settings.models@.last()@ == m
                    && final(self).needs_save
                &&& !(m.len() > 0 && !holds(old(self).settings.models@, m)) ==> *final(self) == *old(self)
            }),
            *final(self) == (ChatState {
                settings: ChatSettings { models: final(self).settings.models, ..old(self).settings },
                needs_save: final(self).needs_save,
                ..*old(self)
            }),
    {
        let m = trim_string(self.settings.model.as_str());
        if !m.as_str().is_empty() && !contains_string(&self.settings.models, &m) {
            let ghost before = self.settings.models@;
            self.settings.models.push(m);
            assert(self.settings.models@.drop_last() =~= before);
            self.needs_save = true;
        }
    }

    /// Chooses `model` in the header; a change also clears the model search.
    pub fn select_model(&mut self, model: String)
        ensures
            model@ == old(self).settings.model@ ==> *final(self) == *old(self),
            model@ != old(self).settings.model@ ==> *final(self) == (ChatState {
                settings: ChatSettings { model: model, ..old(self).settings },
                model_query: final(self).model_query,
                needs_save: true,
                ..*old(self)
            }) && final(self).model_query@.len() == 0,
    {
        if model != self.settings.model {
            self.settings.model = model;
            self.model_query = String::new();
            self.needs_save = true;
        }
    }

    /// Chooses `model` in the settings window.
    pub fn choose_model(&mut self, model: String)
        ensures
            model@ == old(self).settings.model@ ==> *final(self) == *old(self),
            model@ != old(self).settings.model@ ==> *final(self) == (ChatState {
                settings: ChatSettings { model: model, ..old(self).settings },
                needs_save: true,
                ..*old(self)
            }),
    {
        if model != self.settings.model {
            self.settings.model = model;
            self.needs_save = true;
        }
    }
}

// ---------------------------------------------------------------------------
// What the sidebar and the header show
// ---------------------------------------------------------------------------

/// `t[i..]` with its runs of whitespace collapsed: the words of
/// `split_whitespace`, joined by single spaces. `any` tells whether a word
/// was already written, `gap` whether whitespace followed it.
pub open spec fn collapse_ws(t: Seq<char>, i: int, any: bool, gap: bool) -> Seq<char>
    decreases t.len() - i,
{
    if i < 0 || i >= t.len() {
        seq![]
    } else if is_ws(t[i]) {
        collapse_ws(t, i + 1, any, true)
    } else {
        (if any && gap {
            seq![' ', t[i]]
        } else {
            seq![t[i]]
        }) + collapse_ws(t, i + 1, true, false)
    }
}

/// `text.split_whitespace().collect::<Vec<_>>().join(" ")`.
pub open spec fn words_joined(t: Seq<char>) -> Seq<char> {
    collapse_ws(t, 0, false, false)
}

pub open spec fn role_prefix(r: Role) -> Seq<char> {
    match r {
        Role::User => "Tú: "@,
        Role::Assistant => "✦ "@,
        Role::System => seq![],
    }
}

/// The preview line of a message: its role, then its text on one line (or
/// that it is reasoning, when only reasoning came so far), cut at 64
/// characters with an ellipsis.
pub open spec fn spec_message_preview(m: Message) -> Seq<char> {
    let text = if trim(m.content@).len() == 0 && trim(m.reasoning@).len() > 0 {
        "razonando..."@
    } else {
        m.content@
    };
    let flat = words_joined(text);
    if flat.len() >= 64 {
        role_prefix(m.role) + flat.subrange(0, 64) + "…"@
    } else {
        role_prefix(m.role) + flat
    }
}

/// `words_joined`, computed.
fn join_words(text: &str) -> (r: Vec<char>)
    ensures
        r@ == words_joined(text@),
{
    let t = chars_of(text);
    let mut out: Vec<char> = Vec::new();
    let mut any = false;
    let mut gap = false;
    let mut i: usize = 0;
    while i < t.len()
        invariant
            i <= t@.len(),
            t@ == text@,
            out@ + collapse_ws(t@, i as int, any, gap) == words_joined(text@),
        decreases t@.len() - i,
    {
        let c = t[i];
        let ghost before = out@;
        let ghost any0 = any;
        let ghost gap0 = gap;
        if is_whitespace(c) {
            gap = true;
        } else {
            if any && gap {
                out.push(' ');
            }
            out.push(c);
            any = true;
            gap = false;
            assert(out@ + collapse_ws(t@, i + 1, true, false) =~= before + collapse_ws(t@, i as int, any0, gap0));
        }
        i += 1;
    }
    assert(out@ =~= words_joined(text@));
    out
}

/// The preview line of a message in the sidebar.
pub fn message_preview(m: &Message) -> (r: String)
    ensures
        r@ == spec_message_preview(*m),
{
    let mut r = String::new();
    match m.role {
        Role::User => r.append("Tú: "),
        Role::Assistant => r.append("✦ "),
        Role::System => {},
    }
    let reasoning_only = is_blank(m.content.as_str()) && !is_blank(m.reasoning.as_str());
    let flat = if reasoning_only {
        join_words("razonando...")
    } else {
        join_words(m.content.as_str())
    };
    if flat.len() >= 64 {
        crate::text::push_range(&mut r, &flat, 0, 64);
        r.append("…");
    } else {
        crate::text::push_range(&mut r, &flat, 0, flat.len());
        assert(flat@.subrange(0, flat@.len() as int) =~= flat@);
    }
    r
}

/// Seconds elapsed from `ms` to `now`, both in milliseconds (0 when `ms` is
/// later).
pub open spec fn elapsed_secs(now: u64, ms: u64) -> nat {
    if now >= ms {
        ((now - ms) / 1000) as nat
    } else {
        0
    }
}

/// Short relative time ("ahora", "hace 5 min", "hace 2 d", ...) of a moment
/// `ms` seen at `now`.
pub open spec fn spec_relative_time(now: u64, ms: u64) -> Seq<char> {
    let secs = elapsed_secs(now, ms);
    if secs < 60 {
        "ahora"@
    } else if secs < 3600 {
        "hace "@ + decimal(secs / 60) + " min"@
    } else if secs < 86_400 {
        "hace "@ + decimal(secs / 3600) + " h"@
    } else if secs < 604_800 {
        "hace "@ + decimal(secs / 86_400) + " d"@
    } else {
        "hace "@ + decimal(secs / 604_800) + " sem"@
    }
}

/// Relative time of `ms` as seen at `now`.
pub fn relative_time_at(now: u64, ms: u64) -> (r: String)
    ensures
        r@ == spec_relative_time(now, ms),
{
    let secs = now.saturating_sub(ms) / 1000;
    if secs < 60 {
        return "ahora".to_owned();
    }
    let (n, unit) = if secs < 3600 {
        (secs / 60, " min")
    } else if secs < 86_400 {
        (secs / 3600, " h")
    } else if secs < 604_800 {
        (secs / 86_400, " d")
    } else {
        (secs / 604_800, " sem")
    };
    let mut r = "hace ".to_owned();
    push_decimal(&mut r, n);
    r.append(unit);
    r
}

/// Relative time of `ms` as seen now, on the system clock.
pub fn relative_time(ms: u64) -> (r: String)
    ensures
        exists|now: u64| r@ == #[trigger] spec_relative_time(now, ms),
{
    let now = crate::types::now_millis();
    relative_time_at(now, ms)
}

/// `s` cut to `max` characters, with `...` when it was longer.
pub open spec fn spec_truncate_label(s: Seq<char>, max: nat) -> Seq<char> {
    if s.len() <= max {
        s
    } else {
        s.subrange(0, max as int) + "..."@
    }
}

/// Cuts a label to `max` characters, marking the cut with `...`.
pub fn truncate(s: &str, max: usize) -> (r: String)
    ensures
        r@ == spec_truncate_label(s@, max as nat),
{
    let v = chars_of(s);
    if v.len() <= max {
        return s.to_owned();
    }
    let mut out = string_from_range(&v, 0, max);
    out.append("...");
    out
}

/// The family of a (lowercase) model name: the first of these fragments
/// that it contains gives the label; more specific fragments come first.
pub open spec fn spec_family(name: Seq<char>) -> Option<Seq<char>> {
    if contains(name, "deepseek"@) {
        Some("DeepSeek"@)
    } else if contains(name, "grok"@) {
        Some("xAI Grok"@)
    } else if contains(name, "gemini"@) {
        Some("Google Gemini"@)
    } else if contains(name, "gemma"@) {
        Some("Google Gemma"@)
    } else if contains(name, "gpt-oss"@) {
        Some("OpenAI GPT-oss"@)
    } else if contains(name, "gpt-image"@) {
        Some("OpenAI Imagen"@)
    } else if contains(name, "dall-e"@) {
        Some("OpenAI DALL·E"@)
    } else if contains(name, "gpt"@) {
        Some("ChatGPT / OpenAI"@)
    } else if contains(name, "openai/o"@) {
        Some("ChatGPT / OpenAI"@)
    } else if contains(name, "qwen"@) {
        Some("Alibaba Qwen"@)
    } else if contains(name, "kimi"@) {
        Some("Moonshot Kimi"@)
    } else if contains(name, "glm"@) {
        Some("Zhipu GLM"@)
    } else if contains(name, "mistral"@) {
        Some("Mistral"@)
    } else if contains(name, "mixtral"@) {
        Some("Mistral"@)
    } else if contains(name, "llama"@) {
        Some("Meta Llama"@)
    } else if contains(name, "command"@) {
        Some("Cohere Command"@)
    } else {
        None
    }
}

/// The fragments that name a model family, most specific first, each with
/// the family's label.
pub open spec fn family_table() -> Seq<(Seq<char>, Seq<char>)> {
    seq![
        ("deepseek"@, "DeepSeek"@),
        ("grok"@, "xAI Grok"@),
        ("gemini"@, "Google Gemini"@),
        ("gemma"@, "Google Gemma"@),
        ("gpt-oss"@, "OpenAI GPT-oss"@),
        ("gpt-image"@, "OpenAI Imagen"@),
        ("dall-e"@, "OpenAI DALL·E"@),
        ("gpt"@, "ChatGPT / OpenAI"@),
        ("openai/o"@, "ChatGPT / OpenAI"@),
        ("qwen"@, "Alibaba Qwen"@),
        ("kimi"@, "Moonshot Kimi"@),
        ("glm"@, "Zhipu GLM"@),
        ("mistral"@, "Mistral"@),
        ("mixtral"@, "Mistral"@),
        ("llama"@, "Meta Llama"@),
        ("command"@, "Cohere Command"@),
    ]
}

/// The label of the first entry of `table`, from `i` on, whose fragment
/// `name` contains.
pub open spec fn first_label(table: Seq<(Seq<char>, Seq<char>)>, name: Seq<char>, i: int) -> Option<
    Seq<char>,
>
    decreases table.len() - i,
{
    if i < 0 || i >= table.len() {
        None
    } else if contains(name, table[i].0) {
        Some(table[i].1)
    } else {
        first_label(table, name, i + 1)
    }
}

/// The family of a model name is the label of the first fragment of the
/// table that the name contains, and none when it contains no fragment.
pub proof fn law_family_is_first_fragment(name: Seq<char>)
    ensures
        spec_family(name) == first_label(family_table(), name, 0),
{
    reveal_with_fuel(first_label, 17);
    let t = family_table();
    assert(t.len() == 16);
    assert(t[0] == ("deepseek"@, "DeepSeek"@));
    assert(t[1] == ("grok"@, "xAI Grok"@));
    assert(t[2] == ("gemini"@, "Google Gemini"@));
    assert(t[3] == ("gemma"@, "Google Gemma"@));
    assert(t[4] == ("gpt-oss"@, "OpenAI GPT-oss"@));
    assert(t[5] == ("gpt-image"@, "OpenAI Imagen"@));
    assert(t[6] == ("dall-e"@, "OpenAI DALL·E"@));
    assert(t[7] == ("gpt"@, "ChatGPT / OpenAI"@));
    assert(t[8] == ("openai/o"@, "ChatGPT / OpenAI"@));
    assert(t[9] == ("qwen"@, "Alibaba Qwen"@));
    assert(t[10] == ("kimi"@, "Moonshot Kimi"@));
    assert(t[11] == ("glm"@, "Zhipu GLM"@));
    assert(t[12] == ("mistral"@, "Mistral"@));
    assert(t[13] == ("mixtral"@, "Mistral"@));
    assert(t[14] == ("llama"@, "Meta Llama"@));
    assert(t[15] == ("command"@, "Cohere Command"@));
}

/// A name that contains `llama` and none of the fragments before it in the
/// table belongs to the Meta Llama family.
pub proof fn law_llama_family(name: Seq<char>)
    requires
        contains(name, "llama"@),
        forall|i: int| 0 <= i < 14 ==> !contains(name, #[trigger] family_table()[i].0),
    ensures
        spec_family(name) == Some("Meta Llama"@),
{
    law_family_is_first_fragment(name);
    reveal_with_fuel(first_label, 17);
    let t = family_table();
    assert(t[14] == ("llama"@, "Meta Llama"@));
    assert forall|i: int| 0 <= i < 14 implies !contains(name, t[i].0) by {
        assert(!contains(name, family_table()[i].0));
    }
    assert(!contains(name, t[0].0) && !contains(name, t[1].0) && !contains(name, t[2].0));
    assert(!contains(name, t[3].0) && !contains(name, t[4].0) && !contains(name, t[5].0));
    assert(!contains(name, t[6].0) && !contains(name, t[7].0) && !contains(name, t[8].0));
    assert(!contains(name, t[9].0) && !contains(name, t[10].0) && !contains(name, t[11].0));
    assert(!contains(name, t[12].0) && !contains(name, t[13].0));
}

/// Whether `v` contains `frag`.
fn has_fragment(v: &Vec<char>, frag: &str) -> (b: bool)
    ensures
        b == contains(v@, frag@),
{
    let f = chars_of(frag);
    contains_chars(v, &f)
}

/// The family of a lowercase model name (`spec_family`).
pub fn family_of_lowercase(name: &str) -> (r: Option<&'static str>)
    ensures
        match r {
            Some(l) => spec_family(name@) == Some(l@),
            None => spec_family(name@) is None,
        },
{
    let v = chars_of(name);
    if has_fragment(&v, "deepseek") {
        Some("DeepSeek")
    } else if has_fragment(&v, "grok") {
        Some("xAI Grok")
    } else if has_fragment(&v, "gemini") {
        Some("Google Gemini")
    } else if has_fragment(&v, "gemma") {
        Some("Google Gemma")
    } else if has_fragment(&v, "gpt-oss") {
        Some("OpenAI GPT-oss")
    } else if has_fragment(&v, "gpt-image") {
        Some("OpenAI Imagen")
    } else if has_fragment(&v, "dall-e") {
        Some("OpenAI DALL·E")
    } else if has_fragment(&v, "gpt") {
        Some("ChatGPT / OpenAI")
    } else if has_fragment(&v, "openai/o") {
        Some("ChatGPT / OpenAI")
    } else if has_fragment(&v, "qwen") {
        Some("Alibaba Qwen")
    } else if has_fragment(&v, "kimi") {
        Some("Moonshot Kimi")
    } else if has_fragment(&v, "glm") {
        Some("Zhipu GLM")
    } else if has_fragment(&v, "mistral") {
        Some("Mistral")
    } else if has_fragment(&v, "mixtral") {
        Some("Mistral")
    } else if has_fragment(&v, "llama") {
        Some("Meta Llama")
    } else if has_fragment(&v, "command") {
        Some("Cohere Command")
    } else {
        None
    }
}

/// The family a model identifier belongs to, for grouping models in the
/// selector; `None` for models of no known family.
pub fn model_family(id: &str) -> (r: Option<&'static str>)
    ensures
        match r {
            Some(l) => spec_family(lowercase_text(id@)) == Some(l@),
            None => spec_family(lowercase_text(id@)) is None,
        },
{
    let name = to_lowercase(id);
    family_of_lowercase(name.as_str())
}

} // verus!
