//! What the window shows of the chat state: the sidebar's list of
//! conversations, the model selector's menu and the status lines.

use vstd::prelude::*;
use crate::types::{Attachment, Conversation, Message, Role};
use crate::update::{current_version, UpdateStatus};
use crate::chat::{
    conv_index, is_id, message_preview, opt_is, relative_time_at, spec_message_preview, spec_relative_time,
    spec_truncate_label, truncate, ChatState, family_of_lowercase, spec_family,
};
use crate::text::{
    chars_of, contains, contains_chars, decimal, is_blank, push_decimal, to_lowercase, trim,
    trim_string, lowercase_text,
};

verus! {

/// In the sidebar, conversation `a` of `convs` comes before conversation `b`:
/// it changed later, or at the same time and comes first in `convs` (the
/// order of a stable sort from the most recent).
pub open spec fn shown_before(convs: Seq<Conversation>, a: int, b: int) -> bool {
    convs[a].updated > convs[b].updated || (convs[a].updated == convs[b].updated && a < b)
}

/// The indices of `convs` from the most recently changed to the least, ties
/// in their order in `convs`.
pub fn recency_order(convs: &Vec<Conversation>) -> (order: Vec<usize>)
    ensures
        order@.len() == convs@.len(),
        forall|i: int| 0 <= i < order@.len() ==> #[trigger] order@[i] < convs@.len(),
        forall|i: int, j: int|
            0 <= i < j < order@.len() ==> shown_before(convs@, #[trigger] order@[i] as int, #[trigger] order@[j] as int),
{
    let mut order: Vec<usize> = Vec::new();
    let mut k: usize = 0;
    while k < convs.len()
        invariant
            k <= convs@.len(),
            order@.len() == k,
            forall|i: int| 0 <= i < order@.len() ==> #[trigger] order@[i] < k,
            forall|i: int, j: int|
                0 <= i < j < order@.len() ==> shown_before(convs@, #[trigger] order@[i] as int, #[trigger] order@[j] as int),
        decreases convs@.len() - k,
    {
        let key = convs[k].updated;
        let mut p: usize = 0;
        while p < order.len() && convs[order[p]].updated >= key
            invariant
                p <= order@.len(),
                order@.len() == k,
                k < convs@.len(),
                key == convs@[k as int].updated,
                forall|i: int| 0 <= i < order@.len() ==> #[trigger] order@[i] < k,
                forall|i: int| 0 <= i < p ==> convs@[#[trigger] order@[i] as int].updated >= key,
            decreases order@.len() - p,
        {
            p += 1;
        }
        let ghost before = order@;
        order.insert(p, k);
        proof {
            assert forall|i: int, j: int|
                0 <= i < j < order@.len() implies shown_before(convs@, #[trigger] order@[i] as int, #[trigger] order@[j] as int) by {
                if j < p {
                    assert(order@[i] == before[i] && order@[j] == before[j]);
                } else if j == p {
                    assert(order@[i] == before[i]);
                } else if i == p {
                    assert(order@[j] == before[j - 1]);
                    assert(before[j - 1] < k);
                    if p < before.len() {
                        assert(convs@[before[p as int] as int].updated < key);
                        if j - 1 > p {
                            assert(shown_before(convs@, before[p as int] as int, before[j - 1] as int));
                        }
                    }
                } else if i < p {
                    assert(order@[i] == before[i] && order@[j] == before[j - 1]);
                } else {
                    assert(order@[i] == before[i - 1] && order@[j] == before[j - 1]);
                }
            }
        }
        k += 1;
    }
    order
}

/// `order` lists the indices of `convs` in the sidebar's order.
pub open spec fn is_recency_order(convs: Seq<Conversation>, order: Seq<usize>) -> bool {
    &&& order.len() == convs.len()
    &&& forall|i: int| 0 <= i < order.len() ==> #[trigger] order[i] < convs.len()
    &&& forall|i: int, j: int|
        0 <= i < j < order.len() ==> shown_before(convs, #[trigger] order[i] as int, #[trigger] order[j] as int)
}

/// Index of the last message with some text or some reasoning.
pub open spec fn last_visible(msgs: Seq<Message>) -> Option<int>
    decreases msgs.len(),
{
    if msgs.len() == 0 {
        None
    } else if trim(msgs.last().content@).len() > 0 || trim(msgs.last().reasoning@).len() > 0 {
        Some(msgs.len() - 1)
    } else {
        last_visible(msgs.drop_last())
    }
}

/// The preview line of a conversation: that of its last message with text
/// or reasoning.
pub open spec fn spec_card_preview(c: Conversation) -> Seq<char> {
    match last_visible(c.messages@) {
        Some(i) => spec_message_preview(c.messages@[i]),
        None => "Sin mensajes todavía"@,
    }
}

/// One conversation as the sidebar lists it.
pub struct SidebarItem {
    pub id: String,
    /// Its title, cut at 40 characters.
    pub title: String,
    pub preview: String,
    /// How long ago it changed.
    pub when: String,
    /// It is the selected conversation.
    pub selected: bool,
}

/// `item` shows conversation `c` at time `now`, `current` being selected.
pub open spec fn item_shows(item: SidebarItem, c: Conversation, current: Option<String>, now: u64) -> bool {
    &&& item.id@ == c.id@
    &&& item.title@ == spec_truncate_label(c.title@, 40)
    &&& item.preview@ == spec_card_preview(c)
    &&& item.when@ == spec_relative_time(now, c.updated)
    &&& item.selected == is_id(current, c.id@)
}

/// The preview line of a conversation.
pub fn card_preview(c: &Conversation) -> (r: String)
    ensures
        r@ == spec_card_preview(*c),
{
    let mut i = c.messages.len();
    assert(c.messages@.subrange(0, i as int) =~= c.messages@);
    while i > 0
        invariant
            i <= c.messages@.len(),
            last_visible(c.messages@) == last_visible(c.messages@.subrange(0, i as int)),
        decreases i,
    {
        let m = &c.messages[i - 1];
        assert(c.messages@.subrange(0, i - 1) =~= c.messages@.subrange(0, i as int).drop_last());
        if !is_blank(m.content.as_str()) || !is_blank(m.reasoning.as_str()) {
            return message_preview(m);
        }
        i -= 1;
    }
    "Sin mensajes todavía".to_owned()
}

/// The sidebar's list at time `now`: every conversation, the most recently
/// changed first.
pub fn sidebar_items(state: &ChatState, now: u64) -> (items: Vec<SidebarItem>)
    ensures
        exists|order: Seq<usize>|
            #[trigger] is_recency_order(state.conversations@, order) && items@.len() == order.len()
                && forall|i: int|
                0 <= i < items@.len() ==> #[trigger] item_shows(
                    items@[i],
                    state.conversations@[order[i] as int],
                    state.current_id,
                    now,
                ),
{
    let order = recency_order(&state.conversations);
    let mut items: Vec<SidebarItem> = Vec::new();
    let mut i: usize = 0;
    while i < order.len()
        invariant
            i <= order@.len(),
            is_recency_order(state.conversations@, order@),
            items@.len() == i,
            forall|j: int|
                0 <= j < i ==> #[trigger] item_shows(
                    items@[j],
                    state.conversations@[order@[j] as int],
                    state.current_id,
                    now,
                ),
        decreases order@.len() - i,
    {
        let c = &state.conversations[order[i]];
        items.push(
            SidebarItem {
                id: c.id.clone(),
                title: truncate(c.title.as_str(), 40),
                preview: card_preview(c),
                when: relative_time_at(now, c.updated),
                selected: opt_is(&state.current_id, &c.id),
            },
        );
        i += 1;
    }
    items
}

/// A line of the model selector's menu.
pub enum MenuLine {
    /// Heading of a group of models of one family.
    Header(String),
    Model(String),
}

/// A menu line as text.
pub enum SpecLine {
    Header(Seq<char>),
    Model(Seq<char>),
}

impl MenuLine {
    pub open spec fn sv(self) -> SpecLine {
        match self {
            MenuLine::Header(h) => SpecLine::Header(h@),
            MenuLine::Model(m) => SpecLine::Model(m@),
        }
    }
}

pub open spec fn lines_sv(v: Seq<MenuLine>) -> Seq<SpecLine> {
    v.map_values(|l: MenuLine| l.sv())
}

/// The search text as the selector compares it: trimmed, in lowercase.
pub open spec fn menu_query(query: Seq<char>) -> Seq<char> {
    lowercase_text(trim(query))
}

/// A model is listed when the query is empty or its lowercase name holds it.
pub open spec fn is_listed(model: Seq<char>, q: Seq<char>) -> bool {
    q.len() == 0 || contains(lowercase_text(model), q)
}

/// Heading of a family's group; models of no known family go under "Otros".
pub open spec fn group_label(f: Option<Seq<char>>) -> Seq<char> {
    match f {
        Some(l) => l,
        None => "Otros"@,
    }
}

/// The menu lines for `models[i..]`, the family of the last listed model
/// being `last`: each listed model, preceded by a heading when its family
/// differs from the previous listed model's.
pub open spec fn menu_lines(models: Seq<Seq<char>>, q: Seq<char>, i: int, last: Option<Seq<char>>) -> Seq<SpecLine>
    decreases models.len() - i,
{
    if i < 0 || i >= models.len() {
        seq![]
    } else if is_listed(models[i], q) {
        let fam = spec_family(lowercase_text(models[i]));
        if fam != last {
            seq![SpecLine::Header(group_label(fam)), SpecLine::Model(models[i])] + menu_lines(
                models,
                q,
                i + 1,
                fam,
            )
        } else {
            seq![SpecLine::Model(models[i])] + menu_lines(models, q, i + 1, last)
        }
    } else {
        menu_lines(models, q, i + 1, last)
    }
}

/// How many of `models[..i]` are listed.
pub open spec fn listed_count(models: Seq<Seq<char>>, q: Seq<char>, i: int) -> nat
    decreases i,
{
    if i <= 0 || i > models.len() {
        0
    } else {
        listed_count(models, q, i - 1) + if is_listed(models[i - 1], q) {
            1nat
        } else {
            0nat
        }
    }
}

/// The line under the menu: how many models are listed, or why none is.
pub open spec fn menu_footer(shown: nat, total: nat) -> Seq<char> {
    if shown == 0 {
        if total == 0 {
            "Sin modelos. Pulsa Cargar modelos en Ajustes."@
        } else {
            "Sin coincidencias."@
        }
    } else {
        decimal(shown) + "/"@ + decimal(total) + " modelos"@
    }
}

/// The model selector's menu.
pub struct ModelMenu {
    pub lines: Vec<MenuLine>,
    /// Number of models listed.
    pub shown: usize,
    /// Number of models known.
    pub total: usize,
    pub footer: String,
}

pub open spec fn names_of(models: Seq<String>) -> Seq<Seq<char>> {
    models.map_values(|m: String| m@)
}

/// Lowercase family label of a model, as text.
fn family_text(f: Option<&'static str>) -> (r: Option<String>)
    ensures
        match f {
            Some(l) => r matches Some(s) && s@ == l@,
            None => r is None,
        },
{
    match f {
        Some(l) => Some(l.to_owned()),
        None => None,
    }
}

/// Whether two optional texts are equal.
fn same_family(a: &Option<String>, b: &Option<String>) -> (r: bool)
    ensures
        r == (opt_text(*a) == opt_text(*b)),
{
    match (a, b) {
        (Some(x), Some(y)) => *x == *y,
        (None, None) => true,
        _ => false,
    }
}

pub open spec fn opt_text(o: Option<String>) -> Option<Seq<char>> {
    match o {
        Some(s) => Some(s@),
        None => None,
    }
}

/// The menu of `models` filtered by the search text `query`.
pub fn model_menu(models: &Vec<String>, query: &str) -> (menu: ModelMenu)
    ensures
        lines_sv(menu.lines@) == menu_lines(names_of(models@), menu_query(query@), 0, None),
        menu.shown == listed_count(names_of(models@), menu_query(query@), models@.len() as int),
        menu.total == models@.len(),
        menu.footer@ == menu_footer(menu.shown as nat, menu.total as nat),
{
    let ghost names = names_of(models@);
    let trimmed = trim_string(query);
    let q = to_lowercase(trimmed.as_str());
    let qv = chars_of(q.as_str());
    let ghost qs = menu_query(query@);
    let mut lines: Vec<MenuLine> = Vec::new();
    let mut last: Option<String> = None;
    let mut shown: usize = 0;
    let mut i: usize = 0;
    while i < models.len()
        invariant
            i <= models@.len(),
            names == names_of(models@),
            qv@ == qs,
            qs == menu_query(query@),
            shown <= i,
            shown == listed_count(names, qs, i as int),
            lines_sv(lines@) + menu_lines(names, qs, i as int, opt_text(last)) == menu_lines(
                names,
                qs,
                0,
                None,
            ),
        decreases models@.len() - i,
    {
        let m = &models[i];
        let lower = to_lowercase(m.as_str());
        let listed = qv.len() == 0 || contains_chars(&chars_of(lower.as_str()), &qv);
        assert(names[i as int] == m@);
        if listed {
            shown += 1;
            let fam = family_text(family_of_lowercase(lower.as_str()));
            if !same_family(&fam, &last) {
                let label = match &fam {
                    Some(l) => l.clone(),
                    None => "Otros".to_owned(),
                };
                lines.push(MenuLine::Header(label));
                last = fam;
            }
            lines.push(MenuLine::Model(m.clone()));
        }
        i += 1;
    }
    assert(menu_lines(names, qs, models@.len() as int, opt_text(last)) =~= seq![]);
    assert(lines_sv(lines@) =~= menu_lines(names, qs, 0, None));
    let total = models.len();
    let footer = if shown == 0 {
        if total == 0 {
            "Sin modelos. Pulsa Cargar modelos en Ajustes.".to_owned()
        } else {
            "Sin coincidencias.".to_owned()
        }
    } else {
        let mut f = String::new();
        push_decimal(&mut f, shown as u64);
        f.append("/");
        push_decimal(&mut f, total as u64);
        f.append(" modelos");
        f
    };
    ModelMenu { lines, shown, total, footer }
}

/// The conversation shown, if the selected one exists.
pub open spec fn shown_conversation(state: ChatState) -> Option<Conversation> {
    match state.current_id {
        Some(id) => match conv_index(state.conversations@, id@) {
            Some(i) => Some(state.conversations@[i]),
            None => None,
        },
        None => None,
    }
}

/// The title in the header: that of the conversation shown, or nothing.
pub fn header_title(state: &ChatState) -> (r: String)
    ensures
        r@ == match shown_conversation(*state) {
            Some(c) => c.title@,
            None => Seq::empty(),
        },
{
    match &state.current_id {
        Some(id) => match state.find_conversation(id.as_str()) {
            Some(i) => state.conversations[i].title.clone(),
            None => String::new(),
        },
        None => String::new(),
    }
}

/// The answer is still in its reasoning phase: the last message is the
/// assistant's, with reasoning and no text yet.
pub open spec fn thinking(msgs: Seq<Message>) -> bool {
    msgs.len() > 0 && msgs.last().role == Role::Assistant && trim(msgs.last().reasoning@).len() > 0
        && trim(msgs.last().content@).len() == 0
}

/// The "typing" indicator shows while an answer streams into the
/// conversation shown, except while only its reasoning has arrived (which
/// is shown instead).
pub fn shows_typing(state: &ChatState) -> (b: bool)
    ensures
        b == (state.streaming && shown_conversation(*state) is Some && !thinking(
            shown_conversation(*state)->0.messages@,
        )),
{
    if !state.streaming {
        return false;
    }
    let i = match &state.current_id {
        Some(id) => match state.find_conversation(id.as_str()) {
            Some(i) => i,
            None => {
                return false;
            },
        },
        None => {
            return false;
        },
    };
    let msgs = &state.conversations[i].messages;
    if msgs.len() == 0 {
        return true;
    }
    let m = &msgs[msgs.len() - 1];
    !(m.role == Role::Assistant && !is_blank(m.reasoning.as_str()) && is_blank(m.content.as_str()))
}

/// The image data URIs of the attachments of `msgs`, in order.
pub open spec fn image_uris(msgs: Seq<Message>) -> Seq<Seq<char>>
    decreases msgs.len(),
{
    if msgs.len() == 0 {
        seq![]
    } else {
        image_uris(msgs.drop_last()) + attachment_uris(msgs.last().attachments@)
    }
}

/// The image data URIs of `atts`, in order.
pub open spec fn attachment_uris(atts: Seq<Attachment>) -> Seq<Seq<char>>
    decreases atts.len(),
{
    if atts.len() == 0 {
        seq![]
    } else {
        attachment_uris(atts.drop_last()) + match atts.last().image_data {
            Some(d) => seq![d@],
            None => seq![],
        }
    }
}

/// The images of the conversation shown, whose pictures are to be ready
/// before it is drawn.
pub fn images_to_preload(state: &ChatState) -> (r: Vec<String>)
    ensures
        r@.map_values(|s: String| s@) == match shown_conversation(*state) {
            Some(c) => image_uris(c.messages@),
            None => seq![],
        },
{
    let mut out: Vec<String> = Vec::new();
    let i = match &state.current_id {
        Some(id) => match state.find_conversation(id.as_str()) {
            Some(i) => i,
            None => {
                assert(out@.map_values(|s: String| s@) =~= seq![]);
                return out;
            },
        },
        None => {
            assert(out@.map_values(|s: String| s@) =~= seq![]);
            return out;
        },
    };
    let msgs = &state.conversations[i].messages;
    let mut k: usize = 0;
    while k < msgs.len()
        invariant
            k <= msgs@.len(),
            out@.map_values(|s: String| s@) == image_uris(msgs@.subrange(0, k as int)),
        decreases msgs@.len() - k,
    {
        let atts = &msgs[k].attachments;
        let mut a: usize = 0;
        let ghost start = out@.map_values(|s: String| s@);
        assert(atts@.subrange(0, 0) =~= seq![]);
        assert(start + attachment_uris(atts@.subrange(0, 0)) =~= start);
        while a < atts.len()
            invariant
                a <= atts@.len(),
                out@.map_values(|s: String| s@) == start + attachment_uris(atts@.subrange(0, a as int)),
            decreases atts@.len() - a,
        {
            assert(atts@.subrange(0, a + 1).drop_last() =~= atts@.subrange(0, a as int));
            match &atts[a].image_data {
                Some(d) => {
                    let ghost old_out = out@;
                    let copy = d.clone();
                    assert(copy@ == d@);
                    out.push(copy);
                    assert(out@.map_values(|s: String| s@) =~= old_out.map_values(|s: String| s@).push(d@));
                    assert(atts@.subrange(0, a + 1).last() == atts@[a as int]);
                },
                None => {},
            }
            a += 1;
        }
        assert(atts@.subrange(0, atts@.len() as int) =~= atts@);
        assert(msgs@.subrange(0, k + 1).drop_last() =~= msgs@.subrange(0, k as int));
        k += 1;
    }
    assert(msgs@.subrange(0, msgs@.len() as int) =~= msgs@);
    out
}

/// The line that tells the state of the self-update in the settings.
pub open spec fn spec_update_text(status: UpdateStatus) -> Seq<char> {
    match status {
        UpdateStatus::Idle => "Buscando actualizaciones..."@,
        UpdateStatus::Checking => "Buscando actualizaciones..."@,
        UpdateStatus::UpToDate => "Estás al día (v"@ + "0.1.0"@ + ")."@,
        UpdateStatus::Available(info) => "Actualización disponible: "@ + info.version@,
        UpdateStatus::Downloading => "Descargando e instalando..."@,
        UpdateStatus::Error(e) => "Error: "@ + e@,
    }
}

/// The line that tells the state of the self-update.
pub fn update_text(status: &UpdateStatus) -> (r: String)
    ensures
        r@ == spec_update_text(*status),
{
    match status {
        UpdateStatus::Idle | UpdateStatus::Checking => "Buscando actualizaciones...".to_owned(),
        UpdateStatus::UpToDate => {
            let mut r = "Estás al día (v".to_owned();
            r.append(current_version());
            r.append(").");
            r
        },
        UpdateStatus::Available(info) => {
            let mut r = "Actualización disponible: ".to_owned();
            r.append(info.version.as_str());
            r
        },
        UpdateStatus::Downloading => "Descargando e instalando...".to_owned(),
        UpdateStatus::Error(e) => {
            let mut r = "Error: ".to_owned();
            r.append(e.as_str());
            r
        },
    }
}

} // verus!
