//! Markdown to a small tree of blocks and inlines, built from the event
//! stream of a CommonMark parser.

use vstd::prelude::*;
use crate::text::{chars_of, push_char, string_from_range};
use pulldown_cmark::{CodeBlockKind, Event, Options, Parser, Tag, TagEnd};

verus! {

// ---------------------------------------------------------------------------
// Tree
// ---------------------------------------------------------------------------

/// Inline content of a paragraph, heading or table cell.
#[derive(Debug)]
pub enum Inline {
    Text(String),
    Code(String),
    Emphasis(Vec<Inline>),
    Strong(Vec<Inline>),
    Strikethrough(Vec<Inline>),
    Link(String, Vec<Inline>),
    Break,
}

/// A block of a Markdown document.
#[derive(Debug)]
pub enum Block {
    Para(Vec<Inline>),
    Heading(u8, Vec<Inline>),
    Code { lang: String, text: String },
    List { ordered: bool, items: Vec<Vec<Block>> },
    Quote(Vec<Block>),
    Table { headers: Vec<Vec<Inline>>, rows: Vec<Vec<Vec<Inline>>> },
    Rule,
    Raw(String),
}

/// `Inline` as a mathematical value.
pub enum SInline {
    Text(Seq<char>),
    Code(Seq<char>),
    Emphasis(Seq<SInline>),
    Strong(Seq<SInline>),
    Strikethrough(Seq<SInline>),
    Link(Seq<char>, Seq<SInline>),
    Break,
}

/// `Block` as a mathematical value.
pub enum SBlock {
    Para(Seq<SInline>),
    Heading(u8, Seq<SInline>),
    Code(Seq<char>, Seq<char>),
    List(bool, Seq<Seq<SBlock>>),
    Quote(Seq<SBlock>),
    Table(Seq<Seq<SInline>>, Seq<Seq<Seq<SInline>>>),
    Rule,
    Raw(Seq<char>),
}

impl Inline {
    pub open spec fn sv(self) -> SInline
        decreases self,
    {
        match self {
            Inline::Text(t) => SInline::Text(t@),
            Inline::Code(c) => SInline::Code(c@),
            Inline::Emphasis(v) => SInline::Emphasis(inlines_sv(v@)),
            Inline::Strong(v) => SInline::Strong(inlines_sv(v@)),
            Inline::Strikethrough(v) => SInline::Strikethrough(inlines_sv(v@)),
            Inline::Link(u, v) => SInline::Link(u@, inlines_sv(v@)),
            Inline::Break => SInline::Break,
        }
    }
}

pub open spec fn inlines_sv(s: Seq<Inline>) -> Seq<SInline>
    decreases s,
{
    if s.len() == 0 {
        seq![]
    } else {
        inlines_sv(s.drop_last()).push(s.last().sv())
    }
}

impl Block {
    pub open spec fn sv(self) -> SBlock
        decreases self,
    {
        match self {
            Block::Para(v) => SBlock::Para(inlines_sv(v@)),
            Block::Heading(l, v) => SBlock::Heading(l, inlines_sv(v@)),
            Block::Code { lang, text } => SBlock::Code(lang@, text@),
            Block::List { ordered, items } => SBlock::List(ordered, block_lists_sv(items@)),
            Block::Quote(v) => SBlock::Quote(blocks_sv(v@)),
            Block::Table { headers, rows } => SBlock::Table(cells_sv(headers@), rows_sv(rows@)),
            Block::Rule => SBlock::Rule,
            Block::Raw(t) => SBlock::Raw(t@),
        }
    }
}

pub open spec fn blocks_sv(s: Seq<Block>) -> Seq<SBlock>
    decreases s,
{
    if s.len() == 0 {
        seq![]
    } else {
        blocks_sv(s.drop_last()).push(s.last().sv())
    }
}

pub open spec fn block_lists_sv(s: Seq<Vec<Block>>) -> Seq<Seq<SBlock>>
    decreases s,
{
    if s.len() == 0 {
        seq![]
    } else {
        block_lists_sv(s.drop_last()).push(blocks_sv(s.last()@))
    }
}

pub open spec fn cells_sv(s: Seq<Vec<Inline>>) -> Seq<Seq<SInline>>
    decreases s,
{
    if s.len() == 0 {
        seq![]
    } else {
        cells_sv(s.drop_last()).push(inlines_sv(s.last()@))
    }
}

pub open spec fn rows_sv(s: Seq<Vec<Vec<Inline>>>) -> Seq<Seq<Seq<SInline>>>
    decreases s,
{
    if s.len() == 0 {
        seq![]
    } else {
        rows_sv(s.drop_last()).push(cells_sv(s.last()@))
    }
}

// ---------------------------------------------------------------------------
// Events
// ---------------------------------------------------------------------------

/// The events of a CommonMark parser that the tree is built from; every
/// other event is `Other`.
#[derive(Debug)]
pub enum MdEvent {
    StartParagraph,
    EndParagraph,
    StartHeading(u8),
    EndHeading,
    /// A code block, with the info string of a fenced one (empty if indented).
    StartCodeBlock(String),
    EndCodeBlock,
    /// A list, ordered or not.
    StartList(bool),
    EndList,
    StartItem,
    EndItem,
    StartBlockQuote,
    EndBlockQuote,
    StartTable,
    EndTable,
    StartTableHead,
    EndTableHead,
    StartTableRow,
    EndTableRow,
    StartTableCell,
    EndTableCell,
    StartEmphasis,
    EndEmphasis,
    StartStrong,
    EndStrong,
    StartStrikethrough,
    EndStrikethrough,
    /// A link, with its destination.
    StartLink(String),
    EndLink,
    /// An image, with its destination and title.
    StartImage(String, String),
    EndImage,
    Text(String),
    Code(String),
    SoftBreak,
    HardBreak,
    Rule,
    Other,
}

/// Where a sequence of blocks ends.
#[derive(Clone, Copy)]
pub enum BlockStop {
    /// At the end of the events.
    Eof,
    /// At the end of a list item.
    Item,
    /// At the end of a block quote.
    Quote,
}

/// Where a sequence of inlines ends.
#[derive(Clone, Copy)]
pub enum InlineStop {
    ParaOrHeading,
    Emphasis,
    Strong,
    Strikethrough,
    Link,
    Image,
    Paragraph,
    TableCell,
}

pub open spec fn is_block_stop(e: MdEvent, stop: BlockStop) -> bool {
    match stop {
        BlockStop::Eof => false,
        BlockStop::Item => e is EndItem,
        BlockStop::Quote => e is EndBlockQuote,
    }
}

pub open spec fn is_inline_stop(e: MdEvent, stop: InlineStop) -> bool {
    match stop {
        InlineStop::ParaOrHeading => e is EndParagraph || e is EndHeading,
        InlineStop::Emphasis => e is EndEmphasis,
        InlineStop::Strong => e is EndStrong,
        InlineStop::Strikethrough => e is EndStrikethrough,
        InlineStop::Link => e is EndLink,
        InlineStop::Image => e is EndImage,
        InlineStop::Paragraph => e is EndParagraph,
        InlineStop::TableCell => e is EndTableCell,
    }
}

/// Position to resume at after a nested parse that started past `pos` and
/// stopped at `p`; it is `p` itself (see `lemma_positions`), written so that
/// the definitions below visibly terminate.
pub open spec fn resume(p: int, pos: int, len: int) -> int {
    if p <= pos {
        pos + 1
    } else if p > len {
        len
    } else {
        p
    }
}

// ---------------------------------------------------------------------------
// The tree that the events describe
// ---------------------------------------------------------------------------

/// Index of the first newline of `t` at or after `i` (or `t.len()`).
pub open spec fn first_newline(t: Seq<char>, i: int) -> int
    decreases t.len() - i,
{
    if i < 0 || i >= t.len() {
        t.len() as int
    } else if t[i] == '\n' {
        i
    } else {
        first_newline(t, i + 1)
    }
}

/// The inlines that `push_text` makes of `t[start..]`: the text split at
/// each newline into non-empty `Text` pieces, with a `Break` for each newline.
pub open spec fn pieces_from(t: Seq<char>, start: int) -> Seq<SInline>
    decreases t.len() - start,
{
    let k = first_newline(t, start);
    if start < 0 || start > t.len() {
        seq![]
    } else if k >= t.len() || k < start {
        if start < t.len() {
            seq![SInline::Text(t.subrange(start, t.len() as int))]
        } else {
            seq![]
        }
    } else {
        (if k > start {
            seq![SInline::Text(t.subrange(start, k))]
        } else {
            seq![]
        }) + seq![SInline::Break] + pieces_from(t, k + 1)
    }
}

pub open spec fn text_pieces(t: Seq<char>) -> Seq<SInline> {
    pieces_from(t, 0)
}

/// The text an image stands for: its title, or its destination when it has
/// no title, in `[imagen: ...]`.
pub open spec fn image_text(url: Seq<char>, title: Seq<char>) -> Seq<char> {
    "[imagen: "@ + (if title.len() == 0 {
        url
    } else {
        title
    }) + seq![']']
}

/// `s` without its trailing newlines.
pub open spec fn strip_newlines(s: Seq<char>) -> Seq<char>
    decreases s.len(),
{
    if s.len() > 0 && s.last() == '\n' {
        strip_newlines(s.drop_last())
    } else {
        s
    }
}

/// The inlines that the events from `pos` on describe, up to the event that
/// `stop` names (or an end of paragraph or heading, or the end of the
/// events), and the position after that event.
pub open spec fn spec_inlines(ev: Seq<MdEvent>, pos: int, stop: InlineStop) -> (Seq<SInline>, int)
    decreases ev.len() - pos, 0int,
{
    if pos < 0 || pos >= ev.len() {
        (seq![], pos)
    } else if is_inline_stop(ev[pos], stop) {
        (seq![], pos + 1)
    } else {
        let p = pos + 1;
        match ev[pos] {
            MdEvent::Text(t) => {
                let (rest, q) = spec_inlines(ev, p, stop);
                (text_pieces(t@) + rest, q)
            },
            MdEvent::Code(c) => {
                let (rest, q) = spec_inlines(ev, p, stop);
                (seq![SInline::Code(c@)] + rest, q)
            },
            MdEvent::SoftBreak => {
                let (rest, q) = spec_inlines(ev, p, stop);
                (seq![SInline::Break] + rest, q)
            },
            MdEvent::HardBreak => {
                let (rest, q) = spec_inlines(ev, p, stop);
                (seq![SInline::Break] + rest, q)
            },
            MdEvent::StartEmphasis => {
                let (inner, p2) = spec_inlines(ev, p, InlineStop::Emphasis);
                let (rest, q) = spec_inlines(ev, resume(p2, pos, ev.len() as int), stop);
                (seq![SInline::Emphasis(inner)] + rest, q)
            },
            MdEvent::StartStrong => {
                let (inner, p2) = spec_inlines(ev, p, InlineStop::Strong);
                let (rest, q) = spec_inlines(ev, resume(p2, pos, ev.len() as int), stop);
                (seq![SInline::Strong(inner)] + rest, q)
            },
            MdEvent::StartStrikethrough => {
                let (inner, p2) = spec_inlines(ev, p, InlineStop::Strikethrough);
                let (rest, q) = spec_inlines(ev, resume(p2, pos, ev.len() as int), stop);
                (seq![SInline::Strikethrough(inner)] + rest, q)
            },
            MdEvent::StartLink(url) => {
                let (inner, p2) = spec_inlines(ev, p, InlineStop::Link);
                let (rest, q) = spec_inlines(ev, resume(p2, pos, ev.len() as int), stop);
                (seq![SInline::Link(url@, inner)] + rest, q)
            },
            MdEvent::StartImage(url, title) => {
                let (inner, p2) = spec_inlines(ev, p, InlineStop::Image);
                let (rest, q) = spec_inlines(ev, resume(p2, pos, ev.len() as int), stop);
                (seq![SInline::Text(image_text(url@, title@))] + rest, q)
            },
            MdEvent::EndParagraph => (seq![], p),
            MdEvent::EndHeading => (seq![], p),
            _ => spec_inlines(ev, p, stop),
        }
    }
}

/// A table cell from `pos` on: its inlines, unwrapped from a paragraph when
/// the cell holds one (the event after that paragraph is skipped too).
pub open spec fn spec_cell(ev: Seq<MdEvent>, pos: int) -> (Seq<SInline>, int)
    decreases ev.len() - pos, 1int,
{
    if pos < 0 || pos >= ev.len() {
        (seq![], pos)
    } else if ev[pos] is StartParagraph {
        let (ins, p2) = spec_inlines(ev, pos + 1, InlineStop::Paragraph);
        (ins, if p2 < ev.len() {
            p2 + 1
        } else {
            p2
        })
    } else {
        spec_inlines(ev, pos, InlineStop::TableCell)
    }
}

/// The cells of a table head (`head`) or row from `pos` on.
pub open spec fn spec_cells(ev: Seq<MdEvent>, pos: int, head: bool) -> (Seq<Seq<SInline>>, int)
    decreases ev.len() - pos, 0int,
{
    if pos < 0 || pos >= ev.len() {
        (seq![], pos)
    } else if (head && ev[pos] is EndTableHead) || (!head && ev[pos] is EndTableRow) {
        (seq![], pos + 1)
    } else if ev[pos] is StartTableCell {
        let (c, p2) = spec_cell(ev, pos + 1);
        let (rest, q) = spec_cells(ev, resume(p2, pos, ev.len() as int), head);
        (seq![c] + rest, q)
    } else {
        spec_cells(ev, pos + 1, head)
    }
}

/// The header cells and rows of a table from `pos` on.
pub open spec fn spec_table(ev: Seq<MdEvent>, pos: int) -> (Seq<Seq<SInline>>, Seq<Seq<Seq<SInline>>>, int)
    decreases ev.len() - pos, 0int,
{
    if pos < 0 || pos >= ev.len() {
        (seq![], seq![], pos)
    } else if ev[pos] is EndTable {
        (seq![], seq![], pos + 1)
    } else if ev[pos] is StartTableHead {
        let (hs, p2) = spec_cells(ev, pos + 1, true);
        let (h2, r2, q) = spec_table(ev, resume(p2, pos, ev.len() as int));
        (hs + h2, r2, q)
    } else if ev[pos] is StartTableRow {
        let (row, p2) = spec_cells(ev, pos + 1, false);
        let (h2, r2, q) = spec_table(ev, resume(p2, pos, ev.len() as int));
        (h2, seq![row] + r2, q)
    } else {
        spec_table(ev, pos + 1)
    }
}

/// The text of a code block from `pos` on.
pub open spec fn spec_code_text(ev: Seq<MdEvent>, pos: int) -> (Seq<char>, int)
    decreases ev.len() - pos, 0int,
{
    if pos < 0 || pos >= ev.len() {
        (seq![], pos)
    } else if ev[pos] is EndCodeBlock {
        (seq![], pos + 1)
    } else {
        let (rest, q) = spec_code_text(ev, pos + 1);
        match ev[pos] {
            MdEvent::Text(t) => (t@ + rest, q),
            _ => (rest, q),
        }
    }
}

/// The items of a list from `pos` on.
pub open spec fn spec_items(ev: Seq<MdEvent>, pos: int) -> (Seq<Seq<SBlock>>, int)
    decreases ev.len() - pos, 0int,
{
    if pos < 0 || pos >= ev.len() {
        (seq![], pos)
    } else if ev[pos] is StartItem {
        let (item, p2) = spec_blocks(ev, pos + 1, BlockStop::Item);
        let (rest, q) = spec_items(ev, resume(p2, pos, ev.len() as int));
        (seq![item] + rest, q)
    } else if ev[pos] is EndList {
        (seq![], pos + 1)
    } else {
        spec_items(ev, pos + 1)
    }
}

/// The blocks that the events from `pos` on describe, up to the event that
/// `stop` names, and the position after it.
pub open spec fn spec_blocks(ev: Seq<MdEvent>, pos: int, stop: BlockStop) -> (Seq<SBlock>, int)
    decreases ev.len() - pos, 0int,
{
    if pos < 0 || pos >= ev.len() {
        (seq![], pos)
    } else if is_block_stop(ev[pos], stop) {
        (seq![], pos + 1)
    } else {
        let p = pos + 1;
        let len = ev.len() as int;
        match ev[pos] {
            MdEvent::StartParagraph => {
                let (ins, p2) = spec_inlines(ev, p, InlineStop::ParaOrHeading);
                let (rest, q) = spec_blocks(ev, resume(p2, pos, len), stop);
                (if ins.len() > 0 {
                    seq![SBlock::Para(ins)] + rest
                } else {
                    rest
                }, q)
            },
            MdEvent::StartHeading(level) => {
                let (ins, p2) = spec_inlines(ev, p, InlineStop::ParaOrHeading);
                let (rest, q) = spec_blocks(ev, resume(p2, pos, len), stop);
                (seq![SBlock::Heading(level, ins)] + rest, q)
            },
            MdEvent::StartCodeBlock(lang) => {
                let (code, p2) = spec_code_text(ev, p);
                let (rest, q) = spec_blocks(ev, resume(p2, pos, len), stop);
                (seq![SBlock::Code(lang@, strip_newlines(code))] + rest, q)
            },
            MdEvent::StartList(ordered) => {
                let (items, p2) = spec_items(ev, p);
                let (rest, q) = spec_blocks(ev, resume(p2, pos, len), stop);
                (seq![SBlock::List(ordered, items)] + rest, q)
            },
            MdEvent::StartBlockQuote => {
                let (inner, p2) = spec_blocks(ev, p, BlockStop::Quote);
                let (rest, q) = spec_blocks(ev, resume(p2, pos, len), stop);
                (seq![SBlock::Quote(inner)] + rest, q)
            },
            MdEvent::StartTable => {
                let (hs, rows, p2) = spec_table(ev, p);
                let (rest, q) = spec_blocks(ev, resume(p2, pos, len), stop);
                (seq![SBlock::Table(hs, rows)] + rest, q)
            },
            MdEvent::Rule => {
                let (rest, q) = spec_blocks(ev, p, stop);
                (seq![SBlock::Rule] + rest, q)
            },
            MdEvent::Text(t) => {
                let (rest, q) = spec_blocks(ev, p, stop);
                (seq![SBlock::Raw(t@)] + rest, q)
            },
            _ => spec_blocks(ev, p, stop),
        }
    }
}

/// The document that a whole event stream describes.
pub open spec fn spec_parse_events(ev: Seq<MdEvent>) -> Seq<SBlock> {
    spec_blocks(ev, 0, BlockStop::Eof).0
}

// ---------------------------------------------------------------------------
// Building the tree
// ---------------------------------------------------------------------------

proof fn lemma_inlines_push(a: Seq<Inline>, x: Inline)
    ensures
        inlines_sv(a.push(x)) == inlines_sv(a).push(x.sv()),
{
    assert(a.push(x).drop_last() =~= a);
}

proof fn lemma_blocks_push(a: Seq<Block>, x: Block)
    ensures
        blocks_sv(a.push(x)) == blocks_sv(a).push(x.sv()),
{
    assert(a.push(x).drop_last() =~= a);
}

proof fn lemma_block_lists_push(a: Seq<Vec<Block>>, x: Vec<Block>)
    ensures
        block_lists_sv(a.push(x)) == block_lists_sv(a).push(blocks_sv(x@)),
{
    assert(a.push(x).drop_last() =~= a);
}

proof fn lemma_cells_push(a: Seq<Vec<Inline>>, x: Vec<Inline>)
    ensures
        cells_sv(a.push(x)) == cells_sv(a).push(inlines_sv(x@)),
{
    assert(a.push(x).drop_last() =~= a);
}

proof fn lemma_rows_push(a: Seq<Vec<Vec<Inline>>>, x: Vec<Vec<Inline>>)
    ensures
        rows_sv(a.push(x)) == rows_sv(a).push(cells_sv(x@)),
{
    assert(a.push(x).drop_last() =~= a);
}

proof fn lemma_cells_concat(a: Seq<Vec<Inline>>, b: Seq<Vec<Inline>>)
    ensures
        cells_sv(a + b) == cells_sv(a) + cells_sv(b),
    decreases b.len(),
{
    if b.len() == 0 {
        assert(a + b =~= a);
        assert(cells_sv(b) =~= seq![]);
    } else {
        lemma_cells_concat(a, b.drop_last());
        assert((a + b).drop_last() =~= a + b.drop_last());
        assert((a + b).last() == b.last());
    }
}

/// Appends the inlines of a text event: its pieces between newlines, with a
/// line break for each newline (`text.split('\n')`).
pub fn push_text(out: &mut Vec<Inline>, text: &str)
    ensures
        inlines_sv(final(out)@) == inlines_sv(old(out)@) + text_pieces(text@),
{
    let t = chars_of(text);
    let n = t.len();
    let mut start: usize = 0;
    loop
        invariant
            n == t@.len(),
            start <= n,
            t@ == text@,
            inlines_sv(out@) + pieces_from(t@, start as int) == inlines_sv(old(out)@) + text_pieces(text@),
        decreases n - start,
    {
        let mut k = start;
        while k < n && t[k] != '\n'
            invariant
                start <= k <= n,
                n == t@.len(),
                first_newline(t@, k as int) == first_newline(t@, start as int),
            decreases n - k,
        {
            k += 1;
        }
        let ghost before = out@;
        if k > start {
            let piece = string_from_range(&t, start, k);
            proof {
                lemma_inlines_push(out@, Inline::Text(piece));
            }
            out.push(Inline::Text(piece));
        }
        if k >= n {
            proof {
                assert(inlines_sv(out@) =~= inlines_sv(before) + pieces_from(t@, start as int));
            }
            return;
        }
        let ghost mid = out@;
        proof {
            lemma_inlines_push(out@, Inline::Break);
        }
        out.push(Inline::Break);
        proof {
            assert(inlines_sv(out@) + pieces_from(t@, k + 1) =~= inlines_sv(before) + pieces_from(t@, start as int));
        }
        start = k + 1;
    }
}

fn inline_stop(e: &MdEvent, stop: InlineStop) -> (b: bool)
    ensures
        b == is_inline_stop(*e, stop),
{
    match stop {
        InlineStop::ParaOrHeading => matches!(e, MdEvent::EndParagraph) || matches!(e, MdEvent::EndHeading),
        InlineStop::Emphasis => matches!(e, MdEvent::EndEmphasis),
        InlineStop::Strong => matches!(e, MdEvent::EndStrong),
        InlineStop::Strikethrough => matches!(e, MdEvent::EndStrikethrough),
        InlineStop::Link => matches!(e, MdEvent::EndLink),
        InlineStop::Image => matches!(e, MdEvent::EndImage),
        InlineStop::Paragraph => matches!(e, MdEvent::EndParagraph),
        InlineStop::TableCell => matches!(e, MdEvent::EndTableCell),
    }
}

fn block_stop(e: &MdEvent, stop: BlockStop) -> (b: bool)
    ensures
        b == is_block_stop(*e, stop),
{
    match stop {
        BlockStop::Eof => false,
        BlockStop::Item => matches!(e, MdEvent::EndItem),
        BlockStop::Quote => matches!(e, MdEvent::EndBlockQuote),
    }
}

/// `[imagen: label]` for an image.
fn image_label(url: &String, title: &String) -> (r: String)
    ensures
        r@ == image_text(url@, title@),
{
    let mut r = String::new();
    r.append("[imagen: ");
    if title.as_str().is_empty() {
        r.append(url.as_str());
    } else {
        r.append(title.as_str());
    }
    push_char(&mut r, ']');
    r
}

/// Parses inlines from `pos` until the event that `stop` names.
fn parse_inlines_until(ev: &Vec<MdEvent>, pos: usize, stop: InlineStop) -> (r: (Vec<Inline>, usize))
    requires
        pos <= ev@.len(),
    ensures
        inlines_sv(r.0@) == spec_inlines(ev@, pos as int, stop).0,
        r.1 == spec_inlines(ev@, pos as int, stop).1,
        pos <= r.1 <= ev@.len(),
    decreases ev@.len() - pos, 0int,
{
    let n = ev.len();
    let mut out: Vec<Inline> = Vec::new();
    let mut i = pos;
    loop
        invariant
            n == ev@.len(),
            pos <= i <= n,
            inlines_sv(out@) + spec_inlines(ev@, i as int, stop).0 == spec_inlines(ev@, pos as int, stop).0,
            spec_inlines(ev@, i as int, stop).1 == spec_inlines(ev@, pos as int, stop).1,
        decreases n - i,
    {
        if i >= n {
            assert(inlines_sv(out@) =~= spec_inlines(ev@, pos as int, stop).0);
            return (out, i);
        }
        if inline_stop(&ev[i], stop) {
            assert(inlines_sv(out@) =~= spec_inlines(ev@, pos as int, stop).0);
            return (out, i + 1);
        }
        let ghost before = out@;
        let ghost len = n as int;
        match &ev[i] {
            MdEvent::Text(t) => {
                push_text(&mut out, t.as_str());
                assert(inlines_sv(out@) + spec_inlines(ev@, i + 1, stop).0 =~= inlines_sv(before) + spec_inlines(ev@, i as int, stop).0);
                i += 1;
            },
            MdEvent::Code(c) => {
                let x = Inline::Code(c.clone());
                proof { lemma_inlines_push(out@, x); }
                out.push(x);
                assert(inlines_sv(out@) + spec_inlines(ev@, i + 1, stop).0 =~= inlines_sv(before) + spec_inlines(ev@, i as int, stop).0);
                i += 1;
            },
            MdEvent::SoftBreak => {
                proof { lemma_inlines_push(out@, Inline::Break); }
                out.push(Inline::Break);
                assert(inlines_sv(out@) + spec_inlines(ev@, i + 1, stop).0 =~= inlines_sv(before) + spec_inlines(ev@, i as int, stop).0);
                i += 1;
            },
            MdEvent::HardBreak => {
                proof { lemma_inlines_push(out@, Inline::Break); }
                out.push(Inline::Break);
                assert(inlines_sv(out@) + spec_inlines(ev@, i + 1, stop).0 =~= inlines_sv(before) + spec_inlines(ev@, i as int, stop).0);
                i += 1;
            },
            MdEvent::StartEmphasis => {
                let (inner, p2) = parse_inlines_until(ev, i + 1, InlineStop::Emphasis);
                assert(resume(p2 as int, i as int, len) == p2);
                let x = Inline::Emphasis(inner);
                proof { lemma_inlines_push(out@, x); }
                out.push(x);
                assert(inlines_sv(out@) + spec_inlines(ev@, p2 as int, stop).0 =~= inlines_sv(before) + spec_inlines(ev@, i as int, stop).0);
                i = p2;
            },
            MdEvent::StartStrong => {
                let (inner, p2) = parse_inlines_until(ev, i + 1, InlineStop::Strong);
                assert(resume(p2 as int, i as int, len) == p2);
                let x = Inline::Strong(inner);
                proof { lemma_inlines_push(out@, x); }
                out.push(x);
                assert(inlines_sv(out@) + spec_inlines(ev@, p2 as int, stop).0 =~= inlines_sv(before) + spec_inlines(ev@, i as int, stop).0);
                i = p2;
            },
            MdEvent::StartStrikethrough => {
                let (inner, p2) = parse_inlines_until(ev, i + 1, InlineStop::Strikethrough);
                assert(resume(p2 as int, i as int, len) == p2);
                let x = Inline::Strikethrough(inner);
                proof { lemma_inlines_push(out@, x); }
                out.push(x);
                assert(inlines_sv(out@) + spec_inlines(ev@, p2 as int, stop).0 =~= inlines_sv(before) + spec_inlines(ev@, i as int, stop).0);
                i = p2;
            },
            MdEvent::StartLink(url) => {
                let (inner, p2) = parse_inlines_until(ev, i + 1, InlineStop::Link);
                assert(resume(p2 as int, i as int, len) == p2);
                let x = Inline::Link(url.clone(), inner);
                proof { lemma_inlines_push(out@, x); }
                out.push(x);
                assert(inlines_sv(out@) + spec_inlines(ev@, p2 as int, stop).0 =~= inlines_sv(before) + spec_inlines(ev@, i as int, stop).0);
                i = p2;
            },
            MdEvent::StartImage(url, title) => {
                let (_inner, p2) = parse_inlines_until(ev, i + 1, InlineStop::Image);
                assert(resume(p2 as int, i as int, len) == p2);
                let x = Inline::Text(image_label(url, title));
                proof { lemma_inlines_push(out@, x); }
                out.push(x);
                assert(inlines_sv(out@) + spec_inlines(ev@, p2 as int, stop).0 =~= inlines_sv(before) + spec_inlines(ev@, i as int, stop).0);
                i = p2;
            },
            MdEvent::EndParagraph => {
                assert(inlines_sv(out@) =~= spec_inlines(ev@, pos as int, stop).0);
                return (out, i + 1);
            },
            MdEvent::EndHeading => {
                assert(inlines_sv(out@) =~= spec_inlines(ev@, pos as int, stop).0);
                return (out, i + 1);
            },
            _ => {
                i += 1;
            },
        }
    }
}

/// Parses one table cell from `pos`.
fn parse_table_cell(ev: &Vec<MdEvent>, pos: usize) -> (r: (Vec<Inline>, usize))
    requires
        pos <= ev@.len(),
    ensures
        inlines_sv(r.0@) == spec_cell(ev@, pos as int).0,
        r.1 == spec_cell(ev@, pos as int).1,
        pos <= r.1 <= ev@.len(),
    decreases ev@.len() - pos, 1int,
{
    if pos >= ev.len() {
        return (Vec::new(), pos);
    }
    if matches!(&ev[pos], MdEvent::StartParagraph) {
        let (ins, p2) = parse_inlines_until(ev, pos + 1, InlineStop::Paragraph);
        let q = if p2 < ev.len() {
            p2 + 1
        } else {
            p2
        };
        (ins, q)
    } else {
        parse_inlines_until(ev, pos, InlineStop::TableCell)
    }
}

/// Parses the cells of a table head or row from `pos`.
fn parse_cells(ev: &Vec<MdEvent>, pos: usize, head: bool) -> (r: (Vec<Vec<Inline>>, usize))
    requires
        pos <= ev@.len(),
    ensures
        cells_sv(r.0@) == spec_cells(ev@, pos as int, head).0,
        r.1 == spec_cells(ev@, pos as int, head).1,
        pos <= r.1 <= ev@.len(),
    decreases ev@.len() - pos, 0int,
{
    let n = ev.len();
    let mut out: Vec<Vec<Inline>> = Vec::new();
    let mut i = pos;
    loop
        invariant
            n == ev@.len(),
            pos <= i <= n,
            cells_sv(out@) + spec_cells(ev@, i as int, head).0 == spec_cells(ev@, pos as int, head).0,
            spec_cells(ev@, i as int, head).1 == spec_cells(ev@, pos as int, head).1,
        decreases n - i,
    {
        if i >= n {
            assert(cells_sv(out@) =~= spec_cells(ev@, pos as int, head).0);
            return (out, i);
        }
        let e = &ev[i];
        if (head && matches!(e, MdEvent::EndTableHead)) || (!head && matches!(e, MdEvent::EndTableRow)) {
            assert(cells_sv(out@) =~= spec_cells(ev@, pos as int, head).0);
            return (out, i + 1);
        }
        if matches!(e, MdEvent::StartTableCell) {
            let ghost before = out@;
            let (c, p2) = parse_table_cell(ev, i + 1);
            assert(resume(p2 as int, i as int, n as int) == p2);
            proof { lemma_cells_push(out@, c); }
            out.push(c);
            assert(cells_sv(out@) + spec_cells(ev@, p2 as int, head).0 =~= cells_sv(before) + spec_cells(ev@, i as int, head).0);
            i = p2;
        } else {
            i += 1;
        }
    }
}

/// Parses the head and rows of a table from `pos`.
fn parse_table(ev: &Vec<MdEvent>, pos: usize) -> (r: (Vec<Vec<Inline>>, Vec<Vec<Vec<Inline>>>, usize))
    requires
        pos <= ev@.len(),
    ensures
        cells_sv(r.0@) == spec_table(ev@, pos as int).0,
        rows_sv(r.1@) == spec_table(ev@, pos as int).1,
        r.2 == spec_table(ev@, pos as int).2,
        pos <= r.2 <= ev@.len(),
    decreases ev@.len() - pos, 0int,
{
    let n = ev.len();
    let mut headers: Vec<Vec<Inline>> = Vec::new();
    let mut rows: Vec<Vec<Vec<Inline>>> = Vec::new();
    let mut i = pos;
    loop
        invariant
            n == ev@.len(),
            pos <= i <= n,
            cells_sv(headers@) + spec_table(ev@, i as int).0 == spec_table(ev@, pos as int).0,
            rows_sv(rows@) + spec_table(ev@, i as int).1 == spec_table(ev@, pos as int).1,
            spec_table(ev@, i as int).2 == spec_table(ev@, pos as int).2,
        decreases n - i,
    {
        if i >= n {
            assert(cells_sv(headers@) =~= spec_table(ev@, pos as int).0);
            assert(rows_sv(rows@) =~= spec_table(ev@, pos as int).1);
            return (headers, rows, i);
        }
        let e = &ev[i];
        if matches!(e, MdEvent::EndTable) {
            assert(cells_sv(headers@) =~= spec_table(ev@, pos as int).0);
            assert(rows_sv(rows@) =~= spec_table(ev@, pos as int).1);
            return (headers, rows, i + 1);
        }
        if matches!(e, MdEvent::StartTableHead) {
            let ghost hb = headers@;
            let (cells, p2) = parse_cells(ev, i + 1, true);
            assert(resume(p2 as int, i as int, n as int) == p2);
            let mut cells = cells;
            proof { lemma_cells_concat(headers@, cells@); }
            headers.append(&mut cells);
            assert(cells_sv(headers@) + spec_table(ev@, p2 as int).0 =~= cells_sv(hb) + spec_table(ev@, i as int).0);
            i = p2;
        } else if matches!(e, MdEvent::StartTableRow) {
            let ghost rb = rows@;
            let (row, p2) = parse_cells(ev, i + 1, false);
            assert(resume(p2 as int, i as int, n as int) == p2);
            proof { lemma_rows_push(rows@, row); }
            rows.push(row);
            assert(rows_sv(rows@) + spec_table(ev@, p2 as int).1 =~= rows_sv(rb) + spec_table(ev@, i as int).1);
            i = p2;
        } else {
            i += 1;
        }
    }
}

/// Collects the text of a code block from `pos`.
fn parse_code_text(ev: &Vec<MdEvent>, pos: usize) -> (r: (String, usize))
    requires
        pos <= ev@.len(),
    ensures
        r.0@ == spec_code_text(ev@, pos as int).0,
        r.1 == spec_code_text(ev@, pos as int).1,
        pos <= r.1 <= ev@.len(),
{
    let n = ev.len();
    let mut code = String::new();
    let mut i = pos;
    loop
        invariant
            n == ev@.len(),
            pos <= i <= n,
            code@ + spec_code_text(ev@, i as int).0 == spec_code_text(ev@, pos as int).0,
            spec_code_text(ev@, i as int).1 == spec_code_text(ev@, pos as int).1,
        decreases n - i,
    {
        if i >= n {
            assert(code@ =~= spec_code_text(ev@, pos as int).0);
            return (code, i);
        }
        match &ev[i] {
            MdEvent::EndCodeBlock => {
                assert(code@ =~= spec_code_text(ev@, pos as int).0);
                return (code, i + 1);
            },
            MdEvent::Text(t) => {
                let ghost before = code@;
                code.append(t.as_str());
                assert(code@ + spec_code_text(ev@, i + 1).0 =~= before + spec_code_text(ev@, i as int).0);
            },
            _ => {},
        }
        i += 1;
    }
}

/// `s` without its trailing newlines.
fn trim_newlines_end(s: &String) -> (r: String)
    ensures
        r@ == strip_newlines(s@),
{
    let v = chars_of(s.as_str());
    let mut k = v.len();
    assert(v@.subrange(0, v@.len() as int) =~= v@);
    while k > 0 && v[k - 1] == '\n'
        invariant
            k <= v@.len(),
            strip_newlines(v@.subrange(0, k as int)) == strip_newlines(v@),
        decreases k,
    {
        assert(v@.subrange(0, k as int).drop_last() =~= v@.subrange(0, k - 1));
        k -= 1;
    }
    string_from_range(&v, 0, k)
}

/// Parses the items of a list from `pos`.
fn parse_items(ev: &Vec<MdEvent>, pos: usize) -> (r: (Vec<Vec<Block>>, usize))
    requires
        pos <= ev@.len(),
    ensures
        block_lists_sv(r.0@) == spec_items(ev@, pos as int).0,
        r.1 == spec_items(ev@, pos as int).1,
        pos <= r.1 <= ev@.len(),
    decreases ev@.len() - pos, 0int,
{
    let n = ev.len();
    let mut items: Vec<Vec<Block>> = Vec::new();
    let mut i = pos;
    loop
        invariant
            n == ev@.len(),
            pos <= i <= n,
            block_lists_sv(items@) + spec_items(ev@, i as int).0 == spec_items(ev@, pos as int).0,
            spec_items(ev@, i as int).1 == spec_items(ev@, pos as int).1,
        decreases n - i,
    {
        if i >= n {
            assert(block_lists_sv(items@) =~= spec_items(ev@, pos as int).0);
            return (items, i);
        }
        let e = &ev[i];
        if matches!(e, MdEvent::StartItem) {
            let ghost before = items@;
            let (item, p2) = parse_blocks(ev, i + 1, BlockStop::Item);
            assert(resume(p2 as int, i as int, n as int) == p2);
            proof { lemma_block_lists_push(items@, item); }
            items.push(item);
            assert(block_lists_sv(items@) + spec_items(ev@, p2 as int).0 =~= block_lists_sv(before) + spec_items(ev@, i as int).0);
            i = p2;
        } else if matches!(e, MdEvent::EndList) {
            assert(block_lists_sv(items@) =~= spec_items(ev@, pos as int).0);
            return (items, i + 1);
        } else {
            i += 1;
        }
    }
}

/// Parses blocks from `pos` until the event that `stop` names.
fn parse_blocks(ev: &Vec<MdEvent>, pos: usize, stop: BlockStop) -> (r: (Vec<Block>, usize))
    requires
        pos <= ev@.len(),
    ensures
        blocks_sv(r.0@) == spec_blocks(ev@, pos as int, stop).0,
        r.1 == spec_blocks(ev@, pos as int, stop).1,
        pos <= r.1 <= ev@.len(),
    decreases ev@.len() - pos, 0int,
{
    let n = ev.len();
    let mut out: Vec<Block> = Vec::new();
    let mut i = pos;
    loop
        invariant
            n == ev@.len(),
            pos <= i <= n,
            blocks_sv(out@) + spec_blocks(ev@, i as int, stop).0 == spec_blocks(ev@, pos as int, stop).0,
            spec_blocks(ev@, i as int, stop).1 == spec_blocks(ev@, pos as int, stop).1,
        decreases n - i,
    {
        if i >= n {
            assert(blocks_sv(out@) =~= spec_blocks(ev@, pos as int, stop).0);
            return (out, i);
        }
        if block_stop(&ev[i], stop) {
            assert(blocks_sv(out@) =~= spec_blocks(ev@, pos as int, stop).0);
            return (out, i + 1);
        }
        let ghost before = out@;
        let ghost len = n as int;
        match &ev[i] {
            MdEvent::StartParagraph => {
                let (ins, p2) = parse_inlines_until(ev, i + 1, InlineStop::ParaOrHeading);
                assert(resume(p2 as int, i as int, len) == p2);
                if ins.len() > 0 {
                    let x = Block::Para(ins);
                    proof { lemma_blocks_push(out@, x); }
                    out.push(x);
                }
                assert(blocks_sv(out@) + spec_blocks(ev@, p2 as int, stop).0 =~= blocks_sv(before) + spec_blocks(ev@, i as int, stop).0);
                i = p2;
            },
            MdEvent::StartHeading(level) => {
                let (ins, p2) = parse_inlines_until(ev, i + 1, InlineStop::ParaOrHeading);
                assert(resume(p2 as int, i as int, len) == p2);
                let x = Block::Heading(*level, ins);
                proof { lemma_blocks_push(out@, x); }
                out.push(x);
                assert(blocks_sv(out@) + spec_blocks(ev@, p2 as int, stop).0 =~= blocks_sv(before) + spec_blocks(ev@, i as int, stop).0);
                i = p2;
            },
            MdEvent::StartCodeBlock(lang) => {
                let (code, p2) = parse_code_text(ev, i + 1);
                assert(resume(p2 as int, i as int, len) == p2);
                let text = trim_newlines_end(&code);
                let x = Block::Code { lang: lang.clone(), text };
                proof { lemma_blocks_push(out@, x); }
                out.push(x);
                assert(blocks_sv(out@) + spec_blocks(ev@, p2 as int, stop).0 =~= blocks_sv(before) + spec_blocks(ev@, i as int, stop).0);
                i = p2;
            },
            MdEvent::StartList(ordered) => {
                let (items, p2) = parse_items(ev, i + 1);
                assert(resume(p2 as int, i as int, len) == p2);
                let x = Block::List { ordered: *ordered, items };
                proof { lemma_blocks_push(out@, x); }
                out.push(x);
                assert(blocks_sv(out@) + spec_blocks(ev@, p2 as int, stop).0 =~= blocks_sv(before) + spec_blocks(ev@, i as int, stop).0);
                i = p2;
            },
            MdEvent::StartBlockQuote => {
                let (inner, p2) = parse_blocks(ev, i + 1, BlockStop::Quote);
                assert(resume(p2 as int, i as int, len) == p2);
                let x = Block::Quote(inner);
                proof { lemma_blocks_push(out@, x); }
                out.push(x);
                assert(blocks_sv(out@) + spec_blocks(ev@, p2 as int, stop).0 =~= blocks_sv(before) + spec_blocks(ev@, i as int, stop).0);
                i = p2;
            },
            MdEvent::StartTable => {
                let (headers, rows, p2) = parse_table(ev, i + 1);
                assert(resume(p2 as int, i as int, len) == p2);
                let x = Block::Table { headers, rows };
                proof { lemma_blocks_push(out@, x); }
                out.push(x);
                assert(blocks_sv(out@) + spec_blocks(ev@, p2 as int, stop).0 =~= blocks_sv(before) + spec_blocks(ev@, i as int, stop).0);
                i = p2;
            },
            MdEvent::Rule => {
                proof { lemma_blocks_push(out@, Block::Rule); }
                out.push(Block::Rule);
                assert(blocks_sv(out@) + spec_blocks(ev@, i + 1, stop).0 =~= blocks_sv(before) + spec_blocks(ev@, i as int, stop).0);
                i += 1;
            },
            MdEvent::Text(t) => {
                let x = Block::Raw(t.clone());
                proof { lemma_blocks_push(out@, x); }
                out.push(x);
                assert(blocks_sv(out@) + spec_blocks(ev@, i + 1, stop).0 =~= blocks_sv(before) + spec_blocks(ev@, i as int, stop).0);
                i += 1;
            },
            _ => {
                i += 1;
            },
        }
    }
}

/// Builds the document tree that an event stream describes.
pub fn parse_events(ev: &Vec<MdEvent>) -> (r: Vec<Block>)
    ensures
        blocks_sv(r@) == spec_parse_events(ev@),
{
    let (blocks, _) = parse_blocks(ev, 0, BlockStop::Eof);
    blocks
}

// ---------------------------------------------------------------------------
// Plain text of inlines
// ---------------------------------------------------------------------------

/// Inlines as plain text: styles dropped, code in backticks, breaks as spaces.
pub open spec fn plain_text(s: Seq<SInline>) -> Seq<char>
    decreases s,
{
    if s.len() == 0 {
        seq![]
    } else {
        plain_text(s.drop_last()) + plain_of(s.last())
    }
}

pub open spec fn plain_of(x: SInline) -> Seq<char>
    decreases x,
{
    match x {
        SInline::Text(t) => t,
        SInline::Code(c) => seq!['`'] + c + seq!['`'],
        SInline::Emphasis(v) => plain_text(v),
        SInline::Strong(v) => plain_text(v),
        SInline::Strikethrough(v) => plain_text(v),
        SInline::Link(_, v) => plain_text(v),
        SInline::Break => seq![' '],
    }
}

/// Converts inlines to plain text (no formatting) for labels and tables.
pub fn inline_plain(inlines: &[Inline]) -> (r: String)
    ensures
        r@ == plain_text(inlines_sv(inlines@)),
    decreases inlines@,
{
    let mut s = String::new();
    let mut i: usize = 0;
    while i < inlines.len()
        invariant
            i <= inlines@.len(),
            s@ == plain_text(inlines_sv(inlines@.subrange(0, i as int))),
        decreases inlines@.len() - i,
    {
        let ghost before = s@;
        let x = &inlines[i];
        match x {
            Inline::Text(t) => {
                s.append(t.as_str());
            },
            Inline::Code(c) => {
                push_char(&mut s, '`');
                s.append(c.as_str());
                push_char(&mut s, '`');
            },
            Inline::Emphasis(inner) => {
                assert(decreases_to!(inlines@ => inner@));
                let p = inline_plain(inner.as_slice());
                s.append(p.as_str());
            },
            Inline::Strong(inner) => {
                assert(decreases_to!(inlines@ => inner@));
                let p = inline_plain(inner.as_slice());
                s.append(p.as_str());
            },
            Inline::Strikethrough(inner) => {
                assert(decreases_to!(inlines@ => inner@));
                let p = inline_plain(inner.as_slice());
                s.append(p.as_str());
            },
            Inline::Link(_, inner) => {
                assert(decreases_to!(inlines@ => inner@));
                let p = inline_plain(inner.as_slice());
                s.append(p.as_str());
            },
            Inline::Break => {
                push_char(&mut s, ' ');
            },
        }
        proof {
            let sub = inlines@.subrange(0, i + 1);
            assert(sub.drop_last() =~= inlines@.subrange(0, i as int));
            assert(sub.last() == *x);
            let prev = inlines@.subrange(0, i as int);
            lemma_inlines_push(prev, *x);
            assert(prev.push(*x) =~= sub);
            let sv = inlines_sv(sub);
            assert(sv.drop_last() =~= inlines_sv(prev));
            assert(sv.last() == x.sv());
            assert(s@ =~= before + plain_of(x.sv()));
        }
        i += 1;
    }
    assert(inlines@.subrange(0, inlines@.len() as int) =~= inlines@);
    s
}

// ---------------------------------------------------------------------------
// Events of the CommonMark parser (pulldown-cmark)
// ---------------------------------------------------------------------------

#[verifier::external_type_specification]
#[verifier::external_body]
pub struct ExCmarkEvent<'a>(Event<'a>);

#[verifier::external_type_specification]
#[verifier::external_body]
pub struct ExCmarkTag<'a>(Tag<'a>);

#[verifier::external_type_specification]
#[verifier::external_body]
pub struct ExCmarkTagEnd(TagEnd);

/// Which variant of `pulldown_cmark::Event` an event is.
pub enum EventShape {
    Start,
    End,
    Text,
    Code,
    SoftBreak,
    HardBreak,
    Rule,
    Other,
}

/// Which variant of `pulldown_cmark::Tag` (or `TagEnd`) a tag is, among those
/// the tree is built from.
pub enum TagShape {
    Paragraph,
    Heading,
    BlockQuote,
    CodeBlock,
    List,
    Item,
    Table,
    TableHead,
    TableRow,
    TableCell,
    Emphasis,
    Strong,
    Strikethrough,
    Link,
    Image,
    Other,
}

/// The variant of an event.
#[verifier::external_body]
fn cmark_event_shape(e: &Event) -> EventShape {
    match e {
        Event::Start(_) => EventShape::Start,
        Event::End(_) => EventShape::End,
        Event::Text(_) => EventShape::Text,
        Event::Code(_) => EventShape::Code,
        Event::SoftBreak => EventShape::SoftBreak,
        Event::HardBreak => EventShape::HardBreak,
        Event::Rule => EventShape::Rule,
        _ => EventShape::Other,
    }
}

/// The tag that an `Event::Start` opens.
#[verifier::external_body]
fn cmark_start_tag<'b, 'a>(e: &'b Event<'a>) -> Option<&'b Tag<'a>> {
    match e {
        Event::Start(t) => Some(t),
        _ => None,
    }
}

/// The tag that an `Event::End` closes.
#[verifier::external_body]
fn cmark_end_tag(e: &Event) -> Option<TagEnd> {
    match e {
        Event::End(t) => Some(*t),
        _ => None,
    }
}

/// The text of an `Event::Text` or `Event::Code`.
#[verifier::external_body]
fn cmark_event_text(e: &Event) -> Option<String> {
    match e {
        Event::Text(t) => Some(t.to_string()),
        Event::Code(t) => Some(t.to_string()),
        _ => None,
    }
}

/// The variant of a block-level tag.
#[verifier::external_body]
fn cmark_block_tag_shape(t: &Tag) -> TagShape {
    match t {
        Tag::Paragraph => TagShape::Paragraph,
        Tag::Heading { .. } => TagShape::Heading,
        Tag::BlockQuote(_) => TagShape::BlockQuote,
        Tag::CodeBlock(_) => TagShape::CodeBlock,
        Tag::List(_) => TagShape::List,
        Tag::Item => TagShape::Item,
        Tag::Table(_) => TagShape::Table,
        Tag::TableHead => TagShape::TableHead,
        Tag::TableRow => TagShape::TableRow,
        Tag::TableCell => TagShape::TableCell,
        _ => TagShape::Other,
    }
}

/// The variant of an inline tag.
#[verifier::external_body]
fn cmark_inline_tag_shape(t: &Tag) -> TagShape {
    match t {
        Tag::Emphasis => TagShape::Emphasis,
        Tag::Strong => TagShape::Strong,
        Tag::Strikethrough => TagShape::Strikethrough,
        Tag::Link { .. } => TagShape::Link,
        Tag::Image { .. } => TagShape::Image,
        _ => TagShape::Other,
    }
}

/// The variant of a block-level closing tag.
#[verifier::external_body]
fn cmark_block_end_shape(t: TagEnd) -> TagShape {
    match t {
        TagEnd::Paragraph => TagShape::Paragraph,
        TagEnd::Heading(_) => TagShape::Heading,
        TagEnd::BlockQuote(_) => TagShape::BlockQuote,
        TagEnd::CodeBlock => TagShape::CodeBlock,
        TagEnd::List(_) => TagShape::List,
        TagEnd::Item => TagShape::Item,
        TagEnd::Table => TagShape::Table,
        TagEnd::TableHead => TagShape::TableHead,
        TagEnd::TableRow => TagShape::TableRow,
        TagEnd::TableCell => TagShape::TableCell,
        _ => TagShape::Other,
    }
}

/// The variant of an inline closing tag.
#[verifier::external_body]
fn cmark_inline_end_shape(t: TagEnd) -> TagShape {
    match t {
        TagEnd::Emphasis => TagShape::Emphasis,
        TagEnd::Strong => TagShape::Strong,
        TagEnd::Strikethrough => TagShape::Strikethrough,
        TagEnd::Link => TagShape::Link,
        TagEnd::Image => TagShape::Image,
        _ => TagShape::Other,
    }
}

/// The level (1 to 6) of a heading tag.
#[verifier::external_body]
fn cmark_heading_level(t: &Tag) -> (r: Option<u8>)
    ensures
        r matches Some(l) ==> 1 <= l <= 6,
{
    match t {
        Tag::Heading { level, .. } => Some(*level as u8),
        _ => None,
    }
}

/// The info string of a fenced code block, or an empty one for an indented block.
#[verifier::external_body]
fn cmark_code_block_info(t: &Tag) -> Option<String> {
    match t {
        Tag::CodeBlock(CodeBlockKind::Fenced(info)) => Some(info.to_string()),
        Tag::CodeBlock(CodeBlockKind::Indented) => Some(String::new()),
        _ => None,
    }
}

/// The start number of a list tag (`None` for a bullet list).
#[verifier::external_body]
fn cmark_list_start(t: &Tag) -> Option<Option<u64>> {
    match t {
        Tag::List(start) => Some(*start),
        _ => None,
    }
}

/// The destination of a link tag.
#[verifier::external_body]
fn cmark_link_dest(t: &Tag) -> Option<String> {
    match t {
        Tag::Link { dest_url, .. } => Some(dest_url.to_string()),
        _ => None,
    }
}

/// The destination and title of an image tag.
#[verifier::external_body]
fn cmark_image_dest_title(t: &Tag) -> Option<(String, String)> {
    match t {
        Tag::Image { dest_url, title, .. } => Some((dest_url.to_string(), title.to_string())),
        _ => None,
    }
}

/// A heading's level is between 1 and 6.
pub open spec fn level_in_range(e: MdEvent) -> bool {
    e matches MdEvent::StartHeading(l) ==> 1 <= l <= 6
}

/// An event that opens a block or an inline span (or one the tree ignores).
pub open spec fn is_start_event(e: MdEvent) -> bool {
    &&& level_in_range(e)
    &&& (e is StartParagraph || e is StartHeading || e is StartCodeBlock || e is StartList
        || e is StartItem || e is StartBlockQuote || e is StartTable || e is StartTableHead
        || e is StartTableRow || e is StartTableCell || e is StartEmphasis || e is StartStrong
        || e is StartStrikethrough || e is StartLink || e is StartImage || e is Other)
}

/// An event that closes a block or an inline span (or one the tree ignores).
pub open spec fn is_end_event(e: MdEvent) -> bool {
    e is EndParagraph || e is EndHeading || e is EndCodeBlock || e is EndList || e is EndItem
        || e is EndBlockQuote || e is EndTable || e is EndTableHead || e is EndTableRow
        || e is EndTableCell || e is EndEmphasis || e is EndStrong || e is EndStrikethrough
        || e is EndLink || e is EndImage || e is Other
}

/// The event of a list tag with start number `start` (`None` for a bullet
/// list): a numbered list is ordered, a bullet list is not. `list` is
/// `None` for a tag that is no list.
pub fn list_event(list: Option<Option<u64>>) -> (r: MdEvent)
    ensures
        match list {
            Some(start) => r == MdEvent::StartList(start is Some),
            None => r is Other,
        },
{
    match list {
        Some(start) => MdEvent::StartList(start.is_some()),
        None => MdEvent::Other,
    }
}

/// A list start event opens a list block that is ordered exactly when the
/// event says so, wherever it stands among the events.
pub proof fn law_list_block_keeps_order(ev: Seq<MdEvent>, pos: int, stop: BlockStop, ordered: bool)
    requires
        0 <= pos < ev.len(),
        ev[pos] == MdEvent::StartList(ordered),
        !is_block_stop(ev[pos], stop),
    ensures
        spec_blocks(ev, pos, stop).0.len() > 0,
        spec_blocks(ev, pos, stop).0[0] matches SBlock::List(o, _) && o == ordered,
{
}

/// The event a start tag stands for.
fn convert_start(t: &Tag) -> (r: MdEvent)
    ensures
        is_start_event(r),
{
    match cmark_block_tag_shape(t) {
        TagShape::Paragraph => MdEvent::StartParagraph,
        TagShape::Heading => match cmark_heading_level(t) {
            Some(l) => MdEvent::StartHeading(l),
            None => MdEvent::Other,
        },
        TagShape::BlockQuote => MdEvent::StartBlockQuote,
        TagShape::CodeBlock => match cmark_code_block_info(t) {
            Some(lang) => MdEvent::StartCodeBlock(lang),
            None => MdEvent::Other,
        },
        TagShape::List => list_event(cmark_list_start(t)),
        TagShape::Item => MdEvent::StartItem,
        TagShape::Table => MdEvent::StartTable,
        TagShape::TableHead => MdEvent::StartTableHead,
        TagShape::TableRow => MdEvent::StartTableRow,
        TagShape::TableCell => MdEvent::StartTableCell,
        _ => match cmark_inline_tag_shape(t) {
            TagShape::Emphasis => MdEvent::StartEmphasis,
            TagShape::Strong => MdEvent::StartStrong,
            TagShape::Strikethrough => MdEvent::StartStrikethrough,
            TagShape::Link => match cmark_link_dest(t) {
                Some(url) => MdEvent::StartLink(url),
                None => MdEvent::Other,
            },
            TagShape::Image => match cmark_image_dest_title(t) {
                Some((url, title)) => MdEvent::StartImage(url, title),
                None => MdEvent::Other,
            },
            _ => MdEvent::Other,
        },
    }
}

/// The event a closing tag stands for.
fn convert_end(t: TagEnd) -> (r: MdEvent)
    ensures
        is_end_event(r),
{
    match cmark_block_end_shape(t) {
        TagShape::Paragraph => MdEvent::EndParagraph,
        TagShape::Heading => MdEvent::EndHeading,
        TagShape::BlockQuote => MdEvent::EndBlockQuote,
        TagShape::CodeBlock => MdEvent::EndCodeBlock,
        TagShape::List => MdEvent::EndList,
        TagShape::Item => MdEvent::EndItem,
        TagShape::Table => MdEvent::EndTable,
        TagShape::TableHead => MdEvent::EndTableHead,
        TagShape::TableRow => MdEvent::EndTableRow,
        TagShape::TableCell => MdEvent::EndTableCell,
        _ => match cmark_inline_end_shape(t) {
            TagShape::Emphasis => MdEvent::EndEmphasis,
            TagShape::Strong => MdEvent::EndStrong,
            TagShape::Strikethrough => MdEvent::EndStrikethrough,
            TagShape::Link => MdEvent::EndLink,
            TagShape::Image => MdEvent::EndImage,
            _ => MdEvent::Other,
        },
    }
}

/// The event of the tree that a parser event stands for: a start event for
/// a start tag, an end event for a closing tag, otherwise text, code, a
/// break, a rule or an ignored event; headings are at levels 1 to 6.
fn convert_event(e: &Event) -> (r: MdEvent)
    ensures
        level_in_range(r),
        !(r is Text || r is Code || r is SoftBreak || r is HardBreak || r is Rule) ==> is_start_event(r)
            || is_end_event(r),
{
    match cmark_event_shape(e) {
        EventShape::Start => match cmark_start_tag(e) {
            Some(t) => convert_start(t),
            None => MdEvent::Other,
        },
        EventShape::End => match cmark_end_tag(e) {
            Some(t) => convert_end(t),
            None => MdEvent::Other,
        },
        EventShape::Text => match cmark_event_text(e) {
            Some(t) => MdEvent::Text(t),
            None => MdEvent::Other,
        },
        EventShape::Code => match cmark_event_text(e) {
            Some(t) => MdEvent::Code(t),
            None => MdEvent::Other,
        },
        EventShape::SoftBreak => MdEvent::SoftBreak,
        EventShape::HardBreak => MdEvent::HardBreak,
        EventShape::Rule => MdEvent::Rule,
        EventShape::Other => MdEvent::Other,
    }
}

/// The events that CommonMark parsing, every extension on, finds in `text`,
/// as the tree reads them.
pub uninterp spec fn commonmark_events(text: Seq<char>) -> Seq<MdEvent>;

/// `Parser::new_ext(text, Options::all())`, each event read by
/// `convert_event`: trusted to depend on the text alone (the parser is a
/// function of its input) and to keep `convert_event`'s heading levels.
#[verifier::external_body]
fn cmark_md_events(text: &str) -> (r: Vec<MdEvent>)
    ensures
        r@ == commonmark_events(text@),
        forall|i: int| 0 <= i < r@.len() ==> level_in_range(#[trigger] r@[i]),
{
    Parser::new_ext(text, Options::all()).map(|e| convert_event(&e)).collect()
}

/// The events that CommonMark parsing (every extension on) finds in `text`.
fn markdown_events(text: &str) -> (r: Vec<MdEvent>)
    ensures
        r@ == commonmark_events(text@),
        forall|i: int| 0 <= i < r@.len() ==> level_in_range(#[trigger] r@[i]),
{
    cmark_md_events(text)
}

/// Parses Markdown into blocks: the tree that the parser's events describe.
pub fn parse(text: &str) -> (r: Vec<Block>)
    ensures
        blocks_sv(r@) == spec_parse_events(commonmark_events(text@)),
        forall|i: int|
            0 <= i < commonmark_events(text@).len() ==> level_in_range(
                #[trigger] commonmark_events(text@)[i],
            ),
{
    let ev = markdown_events(text);
    parse_events(&ev)
}

} // verus!
