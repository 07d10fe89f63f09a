//! Text extraction from attached files: the PDF text-operator scan, HTML to
//! plain text for EPUB chapters, and the length limit on extracted text.

use vstd::prelude::*;
use vstd::utf8::{decode_utf8, valid_utf8};
use vstd::string::StringSliceAdditionalSpecFns;
use crate::types::{Attachment, AttachmentKind, spec_label};
use crate::config::is_plain_name;
use crate::imaging::{decoded_with_extension, image_data_uri, is_image_extension, resized_png_uri};
use crate::pdf::{document_images, document_text, pdf_images, pdf_load, pdf_load_error, pdf_text, MAX_PDF_IMAGES};
use lopdf::Document;
use crate::epub::{chapters_text, epub_text, spec_epub_text};
use crate::text::{
    ascii_lower, ascii_lowercase_chars, chars_of, decimal, find_from, first_occurrence, lemma_first_occurrence, occurs_at, push_char,
    push_decimal, push_range, string_from_range, to_lowercase, trim, trim_string, lowercase_text,
    utf8_to_string,
};

verus! {

/// Limit, in characters, on the text extracted from one file.
pub const MAX_TEXT: usize = 150_000;

/// What `String::from_utf8_lossy` decodes a byte sequence to.
pub uninterp spec fn utf8_lossy(bytes: Seq<u8>) -> Seq<char>;

/// `String::from_utf8_lossy`: decodes UTF-8, replacing invalid sequences
/// with U+FFFD. Trusted: the result depends on the bytes alone and, as its
/// documentation says, valid UTF-8 is decoded unchanged.
#[verifier::external_body]
pub(crate) fn from_utf8_lossy(bytes: &[u8]) -> (r: String)
    ensures
        r@ == utf8_lossy(bytes@),
        valid_utf8(bytes@) ==> r@ == decode_utf8(bytes@),
{
    String::from_utf8_lossy(bytes).into_owned()
}

// ---------------------------------------------------------------------------
// Text operators of PDF content streams
// ---------------------------------------------------------------------------

/// The bytes of a PDF string literal whose body starts at `i`, with `\x`
/// read as `x`, and the index where the scan stopped (on the closing `)`,
/// or past the end).
pub open spec fn pdf_literal(b: Seq<u8>, i: int) -> (Seq<u8>, int)
    decreases b.len() + 1 - i,
{
    if i < 0 || i >= b.len() {
        (seq![], i)
    } else if b[i] == 92u8 {
        let (rest, j) = pdf_literal(b, i + 2);
        (if i + 1 < b.len() {
            seq![b[i + 1]] + rest
        } else {
            rest
        }, j)
    } else if b[i] == 41u8 {
        (seq![], i)
    } else {
        let (rest, j) = pdf_literal(b, i + 1);
        (seq![b[i]] + rest, j)
    }
}

pub proof fn lemma_pdf_literal_end(b: Seq<u8>, i: int)
    requires
        0 <= i <= b.len() + 1,
    ensures
        i <= pdf_literal(b, i).1 <= b.len() + 1,
    decreases b.len() + 1 - i,
{
    if i < b.len() {
        if b[i] == 92u8 {
            lemma_pdf_literal_end(b, i + 2);
        } else if b[i] != 41u8 {
            lemma_pdf_literal_end(b, i + 1);
        }
    }
}

/// `out` with `piece` appended, after a space unless `out` is empty or
/// already ends with a space or a newline.
pub open spec fn join_piece(out: Seq<char>, piece: Seq<char>) -> Seq<char> {
    if out.len() > 0 && out.last() != ' ' && out.last() != '\n' {
        out.push(' ') + piece
    } else {
        out + piece
    }
}

/// The text that the scan of `b` from `i` on appends to `out`: each string
/// literal `( ... )`, decoded and trimmed, joined by single spaces.
pub open spec fn pdf_text_from(b: Seq<u8>, i: int, out: Seq<char>) -> Seq<char>
    decreases b.len() + 1 - i,
{
    if i < 0 || i >= b.len() {
        out
    } else if b[i] == 40u8 {
        let (buf, j) = pdf_literal(b, i + 1);
        proof {
            lemma_pdf_literal_end(b, i + 1);
        }
        let piece = trim(utf8_lossy(buf));
        pdf_text_from(b, j, if piece.len() == 0 {
            out
        } else {
            join_piece(out, piece)
        })
    } else {
        pdf_text_from(b, i + 1, out)
    }
}

/// Scanning a content stream only appends: the text gathered so far stays
/// as it was, at the start.
pub proof fn law_pdf_text_appends(b: Seq<u8>, i: int, out: Seq<char>)
    ensures
        out.len() <= pdf_text_from(b, i, out).len(),
        pdf_text_from(b, i, out).subrange(0, out.len() as int) == out,
    decreases b.len() + 1 - i,
{
    if 0 <= i < b.len() {
        if b[i] == 40u8 {
            let (buf, j) = pdf_literal(b, i + 1);
            lemma_pdf_literal_end(b, i + 1);
            let piece = trim(utf8_lossy(buf));
            let next = if piece.len() == 0 {
                out
            } else {
                join_piece(out, piece)
            };
            assert(next.subrange(0, out.len() as int) =~= out);
            law_pdf_text_appends(b, j, next);
            assert(pdf_text_from(b, i, out) == pdf_text_from(b, j, next));
            assert(pdf_text_from(b, i, out).subrange(0, out.len() as int) =~= pdf_text_from(
                b,
                j,
                next,
            ).subrange(0, next.len() as int).subrange(0, out.len() as int));
        } else {
            law_pdf_text_appends(b, i + 1, out);
        }
    }
}

/// Reads the string literals of a PDF content stream (the operands of
/// `Tj`, `TJ`, `'`, ...) and appends them to `out`, separated by spaces.
pub fn push_pdf_text(out: &mut String, content: &str)
    ensures
        final(out)@ == pdf_text_from(content.spec_bytes(), 0, old(out)@),
{
    let b = content.as_bytes();
    let n = b.len();
    let first = chars_of(out.as_str());
    let mut last: Option<char> = if first.len() == 0 {
        None
    } else {
        Some(first[first.len() - 1])
    };
    let mut i: usize = 0;
    while i < n
        invariant
            n == b@.len(),
            b@ == content.spec_bytes(),
            i <= n + 1,
            last == (if out@.len() == 0 {
                None::<char>
            } else {
                Some(out@.last())
            }),
            pdf_text_from(b@, i as int, out@) == pdf_text_from(b@, 0, old(out)@),
        decreases n + 1 - i,
    {
        if b[i] == 40u8 {
            let ghost i0 = i as int;
            let ghost out0 = out@;
            let ghost start = i + 1;
            let ghost lit = pdf_literal(b@, start as int);
            i += 1;
            let mut buf: Vec<u8> = Vec::new();
            let mut closed = false;
            let mut ran_off = false;
            proof {
                lemma_pdf_literal_end(b@, start as int);
            }
            while i < n && !closed && !ran_off
                invariant
                    n == b@.len(),
                    start <= i <= n,
                    !ran_off ==> buf@ + pdf_literal(b@, i as int).0 == lit.0,
                    !ran_off ==> pdf_literal(b@, i as int).1 == lit.1,
                    ran_off ==> buf@ == lit.0 && lit.1 == n + 1 && i == n,
                    closed ==> !ran_off && i < n && b@[i as int] == 41u8,
                    lit == pdf_literal(b@, start as int),
                decreases 2 * (n + 1 - i) + (if closed {
                    0int
                } else {
                    1int
                }),
            {
                if b[i] == 92u8 {
                    let ghost prev = buf@;
                    if i + 1 < n {
                        buf.push(b[i + 1]);
                        proof {
                            let (rest, _) = pdf_literal(b@, i + 2);
                            assert(buf@ + rest =~= prev + (seq![b@[i + 1]] + rest));
                        }
                        i += 2;
                    } else {
                        proof {
                            assert(pdf_literal(b@, i + 2).0 =~= seq![]);
                            assert(buf@ =~= prev + pdf_literal(b@, i as int).0);
                        }
                        i = n;
                        ran_off = true;
                    }
                } else if b[i] == 41u8 {
                    closed = true;
                } else {
                    let ghost prev = buf@;
                    buf.push(b[i]);
                    proof {
                        let (rest, _) = pdf_literal(b@, i + 1);
                        assert(buf@ + rest =~= prev + (seq![b@[i as int]] + rest));
                    }
                    i += 1;
                }
            }
            proof {
                if !ran_off {
                    assert(pdf_literal(b@, i as int).0 =~= seq![]);
                    assert(buf@ =~= lit.0);
                }
            }
            let lossy = from_utf8_lossy(buf.as_slice());
            let piece = trim_string(lossy.as_str());
            let pc = chars_of(piece.as_str());
            let ghost next_out = if pc@.len() == 0 {
                out0
            } else {
                join_piece(out0, pc@)
            };
            proof {
                assert(pdf_text_from(b@, i0, out0) == pdf_text_from(b@, lit.1, next_out));
                if ran_off {
                    assert(pdf_text_from(b@, lit.1, next_out) == next_out);
                    assert(pdf_text_from(b@, i as int, next_out) == next_out);
                }
            }
            if pc.len() == 0 {
                continue;
            }
            match last {
                Some(c) => {
                    if c != ' ' && c != '\n' {
                        push_char(out, ' ');
                    }
                },
                None => {},
            }
            out.append(piece.as_str());
            last = Some(pc[pc.len() - 1]);
            proof {
                assert(out@ =~= next_out);
            }
        } else {
            i += 1;
        }
    }
}

// ---------------------------------------------------------------------------
// HTML to plain text (EPUB chapters)
// ---------------------------------------------------------------------------

/// The entity that starts at `t[i]` (which is `&`), as the character it
/// stands for and its length; an unknown one is a literal `&` of length 1.
pub open spec fn entity_at(t: Seq<char>, i: int) -> (char, int) {
    if occurs_at(t, seq!['&', 'a', 'm', 'p', ';'], i) {
        ('&', 5)
    } else if occurs_at(t, seq!['&', 'l', 't', ';'], i) {
        ('<', 4)
    } else if occurs_at(t, seq!['&', 'g', 't', ';'], i) {
        ('>', 4)
    } else if occurs_at(t, seq!['&', 'q', 'u', 'o', 't', ';'], i) {
        ('"', 6)
    } else if occurs_at(t, seq!['&', '#', '3', '9', ';'], i) {
        ('\'', 5)
    } else if occurs_at(t, seq!['&', 'n', 'b', 's', 'p', ';'], i) {
        (' ', 6)
    } else if occurs_at(t, seq!['&', '#', '1', '6', '0', ';'], i) {
        (' ', 6)
    } else {
        ('&', 1)
    }
}

/// `t[i..]` with the entities `&amp; &lt; &gt; &quot; &#39; &nbsp; &#160;`
/// decoded, left to right.
pub open spec fn decode_from(t: Seq<char>, i: int) -> Seq<char>
    decreases t.len() - i,
{
    if i < 0 || i >= t.len() {
        seq![]
    } else if t[i] == '&' {
        let (c, k) = entity_at(t, i);
        seq![c] + decode_from(t, i + k)
    } else {
        seq![t[i]] + decode_from(t, i + 1)
    }
}

/// Text without `&` holds no entity: decoding leaves it as it is.
pub proof fn law_decode_without_entities(t: Seq<char>)
    requires
        !t.contains('&'),
    ensures
        decode_from(t, 0) == t,
{
    lemma_decode_plain(t, 0);
    assert(t.subrange(0, t.len() as int) =~= t);
}

proof fn lemma_decode_plain(t: Seq<char>, i: int)
    requires
        !t.contains('&'),
        0 <= i <= t.len(),
    ensures
        decode_from(t, i) == t.subrange(i, t.len() as int),
    decreases t.len() - i,
{
    if i < t.len() {
        assert(t[i] != '&');
        lemma_decode_plain(t, i + 1);
        assert(seq![t[i]] + t.subrange(i + 1, t.len() as int) =~= t.subrange(i, t.len() as int));
    }
}

/// Whether `pat` occurs in `t` at `i`.
fn at(t: &Vec<char>, i: usize, pat: &Vec<char>) -> (b: bool)
    ensures
        b == occurs_at(t@, pat@, i as int),
{
    crate::text::matches_at(t, pat, i)
}

/// The entity at `t[i]`, computed (`entity_at`).
fn entity(t: &Vec<char>, i: usize) -> (r: (char, usize))
    ensures
        r.0 == entity_at(t@, i as int).0,
        r.1 as int == entity_at(t@, i as int).1,
{
    let amp = vec!['&', 'a', 'm', 'p', ';'];
    let lt = vec!['&', 'l', 't', ';'];
    let gt = vec!['&', 'g', 't', ';'];
    let quot = vec!['&', 'q', 'u', 'o', 't', ';'];
    let apos = vec!['&', '#', '3', '9', ';'];
    let nbsp = vec!['&', 'n', 'b', 's', 'p', ';'];
    let nbsp_num = vec!['&', '#', '1', '6', '0', ';'];
    if at(t, i, &amp) {
        ('&', 5)
    } else if at(t, i, &lt) {
        ('<', 4)
    } else if at(t, i, &gt) {
        ('>', 4)
    } else if at(t, i, &quot) {
        ('"', 6)
    } else if at(t, i, &apos) {
        ('\'', 5)
    } else if at(t, i, &nbsp) {
        (' ', 6)
    } else if at(t, i, &nbsp_num) {
        (' ', 6)
    } else {
        ('&', 1)
    }
}

/// Decodes the basic HTML entities of `text`.
pub fn decode_entities(text: &str) -> (r: String)
    ensures
        r@ == decode_from(text@, 0),
{
    let t = chars_of(text);
    let mut out = String::new();
    let mut i: usize = 0;
    while i < t.len()
        invariant
            i <= t@.len(),
            out@ + decode_from(t@, i as int) == decode_from(t@, 0),
        decreases t@.len() - i,
    {
        if t[i] == '&' {
            let (c, k) = entity(&t, i);
            let ghost prev = out@;
            push_char(&mut out, c);
            proof {
                assert(out@ + decode_from(t@, i + k) =~= prev + (seq![c] + decode_from(t@, i + k)));
            }
            i += k;
        } else {
            let ghost prev = out@;
            push_char(&mut out, t[i]);
            proof {
                assert(out@ + decode_from(t@, i + 1) =~= prev + (seq![t@[i as int]] + decode_from(t@, i + 1)));
            }
            i += 1;
        }
    }
    assert(out@ =~= decode_from(t@, 0));
    out
}

/// `s` with its ASCII letters in lowercase, character by character.
pub open spec fn ascii_lowered(s: Seq<char>) -> Seq<char> {
    s.map_values(|c: char| ascii_lower(c))
}

/// What removing every region from `start` to `end` does to `text`: the
/// first `start` (ignoring ASCII case) up to and including the next `end`
/// goes, again and again; an unterminated `start` takes the rest of the
/// text with it.
pub open spec fn spec_remove_region(text: Seq<char>, start: Seq<char>, end: Seq<char>) -> Seq<char>
    decreases text.len(),
{
    let low = ascii_lowered(text);
    if end.len() == 0 {
        text
    } else {
        match first_occurrence(low, start, 0) {
            None => text,
            Some(j1) => match first_occurrence(low, end, j1) {
                None => text.subrange(0, j1),
                Some(j2) => if 0 <= j1 < j2 + end.len() <= text.len() {
                    spec_remove_region(
                        text.subrange(0, j1) + text.subrange(j2 + end.len(), text.len() as int),
                        start,
                        end,
                    )
                } else {
                    text
                },
            },
        }
    }
}

/// Removes every region that starts with `start` and ends with `end`
/// (matched ignoring ASCII case), or everything from an unterminated
/// `start` on.
pub fn remove_region(text: &str, start: &Vec<char>, end: &Vec<char>) -> (r: String)
    requires
        end@.len() > 0,
    ensures
        r@ == spec_remove_region(text@, start@, end@),
{
    let mut cur = text.to_owned();
    loop
        invariant
            end@.len() > 0,
            spec_remove_region(cur@, start@, end@) == spec_remove_region(text@, start@, end@),
        decreases cur@.len(),
    {
        let cv = chars_of(cur.as_str());
        let lv = ascii_lowercase_chars(&cv);
        assert(lv@ == ascii_lowered(cur@));
        match find_from(&lv, start, 0) {
            None => {
                return cur;
            },
            Some(j1) => {
                proof {
                    lemma_first_occurrence(lv@, start@, 0);
                }
                match find_from(&lv, end, j1) {
                    None => {
                        return string_from_range(&cv, 0, j1);
                    },
                    Some(j2) => {
                        proof {
                            lemma_first_occurrence(lv@, end@, j1 as int);
                        }
                        let n = lv.len();
                        assert(j2 + end@.len() <= n);
                        let mut next = string_from_range(&cv, 0, j1);
                        push_range(&mut next, &cv, j2 + end.len(), cv.len());
                        cur = next;
                    },
                }
            },
        }
    }
}

/// Removing the regions leaves no `start` (ignoring ASCII case), never
/// makes the text longer, leaves text without `start` as it is, and so
/// changes nothing when done again.
pub proof fn law_remove_region(text: Seq<char>, start: Seq<char>, end: Seq<char>)
    requires
        start.len() > 0,
        end.len() > 0,
    ensures
        first_occurrence(ascii_lowered(spec_remove_region(text, start, end)), start, 0) is None,
        spec_remove_region(text, start, end).len() <= text.len(),
        first_occurrence(ascii_lowered(text), start, 0) is None ==> spec_remove_region(
            text,
            start,
            end,
        ) == text,
        spec_remove_region(spec_remove_region(text, start, end), start, end) == spec_remove_region(
            text,
            start,
            end,
        ),
    decreases text.len(),
{
    let low = ascii_lowered(text);
    lemma_first_occurrence(low, start, 0);
    match first_occurrence(low, start, 0) {
        None => {},
        Some(j1) => {
            lemma_first_occurrence(low, end, j1);
            match first_occurrence(low, end, j1) {
                None => {
                    let r = text.subrange(0, j1);
                    let rl = ascii_lowered(r);
                    assert(rl =~= low.subrange(0, j1));
                    lemma_no_occurrence_before(low, start, j1);
                    lemma_first_occurrence(rl, start, 0);
                    if first_occurrence(rl, start, 0) is Some {
                        let k = first_occurrence(rl, start, 0)->0;
                        assert(occurs_at(rl, start, k));
                        assert(rl.subrange(k, k + start.len()) =~= low.subrange(k, k + start.len()));
                        assert(occurs_at(low, start, k));
                        assert(false);
                    }
                },
                Some(j2) => {
                    let next = text.subrange(0, j1) + text.subrange(j2 + end.len(), text.len() as int);
                    law_remove_region(next, start, end);
                },
            }
        },
    }
    let r = spec_remove_region(text, start, end);
    lemma_first_occurrence(ascii_lowered(r), start, 0);
}

/// An occurrence that ends within the first `j` characters starts before
/// the first occurrence `j`: there is none.
proof fn lemma_no_occurrence_before(low: Seq<char>, start: Seq<char>, j: int)
    requires
        start.len() > 0,
        first_occurrence(low, start, 0) == Some(j),
    ensures
        forall|k: int| 0 <= k && k + start.len() <= j ==> !occurs_at(low, start, k),
{
    lemma_first_occurrence(low, start, 0);
}

/// `s[i..]` without its HTML tags: everything from a `<` to the next `>`
/// is dropped, starting inside a tag when `in_tag`.
pub open spec fn strip_tags(s: Seq<char>, i: int, in_tag: bool) -> Seq<char>
    decreases s.len() - i,
{
    if i < 0 || i >= s.len() {
        seq![]
    } else if s[i] == '<' {
        strip_tags(s, i + 1, true)
    } else if s[i] == '>' {
        strip_tags(s, i + 1, false)
    } else if !in_tag {
        seq![s[i]] + strip_tags(s, i + 1, in_tag)
    } else {
        strip_tags(s, i + 1, in_tag)
    }
}

pub open spec fn script_open() -> Seq<char> {
    seq!['<', 's', 'c', 'r', 'i', 'p', 't']
}

pub open spec fn script_close() -> Seq<char> {
    seq!['<', '/', 's', 'c', 'r', 'i', 'p', 't', '>']
}

pub open spec fn style_open() -> Seq<char> {
    seq!['<', 's', 't', 'y', 'l', 'e']
}

pub open spec fn style_close() -> Seq<char> {
    seq!['<', '/', 's', 't', 'y', 'l', 'e', '>']
}

pub open spec fn comment_open() -> Seq<char> {
    seq!['<', '!', '-', '-']
}

pub open spec fn comment_close() -> Seq<char> {
    seq!['-', '-', '>']
}

/// The text of an HTML document: scripts, styles and comments removed,
/// then tags, then the basic entities decoded.
pub open spec fn spec_strip_html(raw: Seq<char>) -> Seq<char> {
    let a = spec_remove_region(raw, script_open(), script_close());
    let b = spec_remove_region(a, style_open(), style_close());
    let c = spec_remove_region(b, comment_open(), comment_close());
    decode_from(strip_tags(c, 0, false), 0)
}

/// Tag removal, computed (`strip_tags(s, 0, false)`).
fn strip_tags_string(s: &str) -> (r: String)
    ensures
        r@ == strip_tags(s@, 0, false),
{
    let v = chars_of(s);
    let mut out = String::new();
    let mut in_tag = false;
    let mut i: usize = 0;
    while i < v.len()
        invariant
            i <= v@.len(),
            out@ + strip_tags(v@, i as int, in_tag) == strip_tags(v@, 0, false),
        decreases v@.len() - i,
    {
        let c = v[i];
        if c == '<' {
            in_tag = true;
        } else if c == '>' {
            in_tag = false;
        } else if !in_tag {
            let ghost prev = out@;
            push_char(&mut out, c);
            assert(out@ + strip_tags(v@, i + 1, in_tag) =~= prev + (seq![c] + strip_tags(v@, i + 1, in_tag)));
        }
        i += 1;
    }
    assert(out@ =~= strip_tags(v@, 0, false));
    out
}

/// Plain text of an HTML document: scripts, styles, comments and tags
/// removed, basic entities decoded.
pub fn strip_html(raw: &str) -> (r: String)
    ensures
        r@ == spec_strip_html(raw@),
{
    let so = vec!['<', 's', 'c', 'r', 'i', 'p', 't'];
    let sc = vec!['<', '/', 's', 'c', 'r', 'i', 'p', 't', '>'];
    let yo = vec!['<', 's', 't', 'y', 'l', 'e'];
    let yc = vec!['<', '/', 's', 't', 'y', 'l', 'e', '>'];
    let co = vec!['<', '!', '-', '-'];
    let cc = vec!['-', '-', '>'];
    let a = remove_region(raw, &so, &sc);
    let b = remove_region(a.as_str(), &yo, &yc);
    let c = remove_region(b.as_str(), &co, &cc);
    assert(so@ == script_open() && sc@ == script_close() && yo@ == style_open() && yc@
        == style_close() && co@ == comment_open() && cc@ == comment_close());
    let stripped = strip_tags_string(c.as_str());
    decode_entities(stripped.as_str())
}

/// The marker appended to text cut at `MAX_TEXT` characters.
pub open spec fn truncation_marker() -> Seq<char> {
    "\n\n[... extracto truncado ...]"@
}

/// `text` itself when it has at most `MAX_TEXT` characters; otherwise its
/// first `MAX_TEXT` characters followed by the truncation marker.
pub open spec fn spec_truncate(text: Seq<char>) -> Seq<char> {
    if text.len() <= MAX_TEXT {
        text
    } else {
        text.subrange(0, MAX_TEXT as int) + truncation_marker()
    }
}

/// Extracted text keeps its first `MAX_TEXT` characters: text within the
/// limit is kept whole, and longer text is cut there and marked, so the
/// result is never longer than the limit and the marker.
pub proof fn law_truncate_keeps_prefix(text: Seq<char>)
    ensures
        text.len() <= MAX_TEXT ==> spec_truncate(text) == text,
        text.len() > MAX_TEXT ==> spec_truncate(text).subrange(0, MAX_TEXT as int) == text.subrange(
            0,
            MAX_TEXT as int,
        ),
        spec_truncate(text).len() <= MAX_TEXT + truncation_marker().len(),
{
    if text.len() > MAX_TEXT {
        assert(spec_truncate(text).subrange(0, MAX_TEXT as int) =~= text.subrange(0, MAX_TEXT as int));
    }
}

/// Limits extracted text to `MAX_TEXT` characters.
pub fn truncate(text: &str) -> (r: String)
    ensures
        r@ == spec_truncate(text@),
{
    let chars = chars_of(text);
    if chars.len() <= MAX_TEXT {
        text.to_owned()
    } else {
        let mut out = string_from_range(&chars, 0, MAX_TEXT);
        out.append("\n\n[... extracto truncado ...]");
        out
    }
}

// ---------------------------------------------------------------------------
// Importing a file
// ---------------------------------------------------------------------------

/// What importing a file gives.
pub struct Imported {
    /// Attachments to add to the message: one for an image, a text or an
    /// unknown file; for a PDF, the PDF itself and then its embedded images.
    pub attachments: Vec<Attachment>,
    /// Text extracted from a PDF, an EPUB or a text file, added to the
    /// message's content.
    pub extracted_text: Option<String>,
}

/// The kind of a file, by its lowercase extension.
pub open spec fn kind_of_extension(ext: Seq<char>) -> AttachmentKind {
    if ext == "png"@ || ext == "jpg"@ || ext == "jpeg"@ || ext == "gif"@ || ext == "webp"@ || ext
        == "bmp"@ || ext == "tiff"@ || ext == "tif"@ {
        AttachmentKind::Image
    } else if ext == "pdf"@ {
        AttachmentKind::Pdf
    } else if ext == "epub"@ {
        AttachmentKind::Epub
    } else if ext == "txt"@ || ext == "md"@ || ext == "markdown"@ || ext == "json"@ || ext
        == "csv"@ || ext == "log"@ || ext == "toml"@ || ext == "yaml"@ || ext == "yml"@ {
        AttachmentKind::Text
    } else {
        AttachmentKind::Other
    }
}

/// Which kind each known extension gives: images (png, jpg, jpeg, gif,
/// webp, bmp, tiff, tif), PDF, EPUB, and text files whose content is read
/// (txt, md, markdown, json, csv, log, toml, yaml, yml).
pub proof fn law_extension_kinds()
    ensures
        kind_of_extension("png"@) == AttachmentKind::Image,
        kind_of_extension("jpg"@) == AttachmentKind::Image,
        kind_of_extension("jpeg"@) == AttachmentKind::Image,
        kind_of_extension("gif"@) == AttachmentKind::Image,
        kind_of_extension("webp"@) == AttachmentKind::Image,
        kind_of_extension("bmp"@) == AttachmentKind::Image,
        kind_of_extension("tiff"@) == AttachmentKind::Image,
        kind_of_extension("tif"@) == AttachmentKind::Image,
        kind_of_extension("pdf"@) == AttachmentKind::Pdf,
        kind_of_extension("epub"@) == AttachmentKind::Epub,
        kind_of_extension("txt"@) == AttachmentKind::Text,
        kind_of_extension("md"@) == AttachmentKind::Text,
        kind_of_extension("markdown"@) == AttachmentKind::Text,
        kind_of_extension("json"@) == AttachmentKind::Text,
        kind_of_extension("csv"@) == AttachmentKind::Text,
        kind_of_extension("log"@) == AttachmentKind::Text,
        kind_of_extension("toml"@) == AttachmentKind::Text,
        kind_of_extension("yaml"@) == AttachmentKind::Text,
        kind_of_extension("yml"@) == AttachmentKind::Text,
{
    reveal_strlit("png");
    reveal_strlit("jpg");
    reveal_strlit("jpeg");
    reveal_strlit("gif");
    reveal_strlit("webp");
    reveal_strlit("bmp");
    reveal_strlit("tiff");
    reveal_strlit("tif");
    reveal_strlit("pdf");
    reveal_strlit("epub");
    reveal_strlit("txt");
    reveal_strlit("md");
    reveal_strlit("markdown");
    reveal_strlit("json");
    reveal_strlit("csv");
    reveal_strlit("log");
    reveal_strlit("toml");
    reveal_strlit("yaml");
    reveal_strlit("yml");
    assert("jpg"@[0] != "png"@[0]);
    assert("gif"@[0] != "png"@[0]);
    assert("gif"@[0] != "jpg"@[0]);
    assert("webp"@[0] != "jpeg"@[0]);
    assert("bmp"@[0] != "png"@[0]);
    assert("bmp"@[0] != "jpg"@[0]);
    assert("bmp"@[0] != "gif"@[0]);
    assert("tiff"@[0] != "jpeg"@[0]);
    assert("tiff"@[0] != "webp"@[0]);
    assert("tif"@[0] != "png"@[0]);
    assert("tif"@[0] != "jpg"@[0]);
    assert("tif"@[0] != "gif"@[0]);
    assert("tif"@[0] != "bmp"@[0]);
    assert("pdf"@[1] != "png"@[1]);
    assert("pdf"@[0] != "jpg"@[0]);
    assert("pdf"@[0] != "gif"@[0]);
    assert("pdf"@[0] != "bmp"@[0]);
    assert("pdf"@[0] != "tif"@[0]);
    assert("epub"@[0] != "jpeg"@[0]);
    assert("epub"@[0] != "webp"@[0]);
    assert("epub"@[0] != "tiff"@[0]);
    assert("txt"@[0] != "png"@[0]);
    assert("txt"@[0] != "jpg"@[0]);
    assert("txt"@[0] != "gif"@[0]);
    assert("txt"@[0] != "bmp"@[0]);
    assert("txt"@[1] != "tif"@[1]);
    assert("txt"@[0] != "pdf"@[0]);
    assert("json"@[1] != "jpeg"@[1]);
    assert("json"@[0] != "webp"@[0]);
    assert("json"@[0] != "tiff"@[0]);
    assert("json"@[0] != "epub"@[0]);
    assert("csv"@[0] != "png"@[0]);
    assert("csv"@[0] != "jpg"@[0]);
    assert("csv"@[0] != "gif"@[0]);
    assert("csv"@[0] != "bmp"@[0]);
    assert("csv"@[0] != "tif"@[0]);
    assert("csv"@[0] != "pdf"@[0]);
    assert("csv"@[0] != "txt"@[0]);
    assert("log"@[0] != "png"@[0]);
    assert("log"@[0] != "jpg"@[0]);
    assert("log"@[0] != "gif"@[0]);
    assert("log"@[0] != "bmp"@[0]);
    assert("log"@[0] != "tif"@[0]);
    assert("log"@[0] != "pdf"@[0]);
    assert("log"@[0] != "txt"@[0]);
    assert("log"@[0] != "csv"@[0]);
    assert("toml"@[0] != "jpeg"@[0]);
    assert("toml"@[0] != "webp"@[0]);
    assert("toml"@[1] != "tiff"@[1]);
    assert("toml"@[0] != "epub"@[0]);
    assert("toml"@[0] != "json"@[0]);
    assert("yaml"@[0] != "jpeg"@[0]);
    assert("yaml"@[0] != "webp"@[0]);
    assert("yaml"@[0] != "tiff"@[0]);
    assert("yaml"@[0] != "epub"@[0]);
    assert("yaml"@[0] != "json"@[0]);
    assert("yaml"@[0] != "toml"@[0]);
    assert("yml"@[0] != "png"@[0]);
    assert("yml"@[0] != "jpg"@[0]);
    assert("yml"@[0] != "gif"@[0]);
    assert("yml"@[0] != "bmp"@[0]);
    assert("yml"@[0] != "tif"@[0]);
    assert("yml"@[0] != "pdf"@[0]);
    assert("yml"@[0] != "txt"@[0]);
    assert("yml"@[0] != "csv"@[0]);
    assert("yml"@[0] != "log"@[0]);
}

/// Whether two strings are equal.
fn same_text(a: &str, b: &str) -> (r: bool)
    ensures
        r == (a@ == b@),
{
    a.to_owned() == b.to_owned()
}

/// Classifies a file by its lowercase extension.
pub fn classify_extension(ext: &str) -> (k: AttachmentKind)
    ensures
        k == kind_of_extension(ext@),
{
    if same_text(ext, "png") || same_text(ext, "jpg") || same_text(ext, "jpeg") || same_text(
        ext,
        "gif",
    ) || same_text(ext, "webp") || same_text(ext, "bmp") || same_text(ext, "tiff") || same_text(
        ext,
        "tif",
    ) {
        AttachmentKind::Image
    } else if same_text(ext, "pdf") {
        AttachmentKind::Pdf
    } else if same_text(ext, "epub") {
        AttachmentKind::Epub
    } else if same_text(ext, "txt") || same_text(ext, "md") || same_text(ext, "markdown")
        || same_text(ext, "json") || same_text(ext, "csv") || same_text(ext, "log") || same_text(
        ext,
        "toml",
    ) || same_text(ext, "yaml") || same_text(ext, "yml") {
        AttachmentKind::Text
    } else {
        AttachmentKind::Other
    }
}

/// Line shown next to an attachment: its kind's label and its name.
pub open spec fn spec_summary(kind: AttachmentKind, name: Seq<char>) -> Seq<char> {
    spec_label(kind) + ": "@ + name
}

/// An attachment of `kind` called `name` that carries no image.
pub open spec fn is_plain_attachment(a: Attachment, kind: AttachmentKind, name: Seq<char>) -> bool {
    &&& a.kind == kind
    &&& a.name@ == name
    &&& a.summary@ == spec_summary(kind, name)
    &&& a.image_file is None
    &&& a.image_data is None
}

/// The `n`-th image (from 1) embedded in the PDF called `name`, with data
/// URI `uri`.
pub open spec fn is_pdf_image(a: Attachment, name: Seq<char>, n: nat, uri: Seq<char>) -> bool {
    &&& a.kind == AttachmentKind::Image
    &&& a.name@ == name + " - imagen "@ + decimal(n)
    &&& a.summary@ == "Imagen: "@ + name + " ("@ + decimal(n) + ")"@
    &&& a.image_file is None
    &&& a.image_data matches Some(d) && d@ == uri
}

/// Prefix of the error of an import of each kind.
pub open spec fn import_error_prefix(kind: AttachmentKind) -> Seq<char> {
    match kind {
        AttachmentKind::Image => "No se pudo leer la imagen: "@,
        AttachmentKind::Pdf => "No se pudo leer el PDF: "@,
        AttachmentKind::Epub => "No se pudo leer el EPUB: "@,
        _ => "No se pudo leer el archivo: "@,
    }
}

/// Message of the error for a text file that is not UTF-8.
pub open spec fn not_utf8_message() -> Seq<char> {
    "stream did not contain valid UTF-8"@
}

/// What the import of a file called `name`, of lowercase extension `ext`
/// (which gives its kind), at `path`, whose content was read as `content`,
/// may give: for a kind whose content is read, a failed read is the kind's
/// prefix and the read's error; an unknown file gives its attachment alone;
/// a text file, its attachment and its text (cut at `MAX_TEXT` characters)
/// when it is UTF-8; an image, when it decodes in the format of its
/// extension, its attachment with the PNG data URI of the decoded image
/// (scaled down when huge), else the decoder's error; a PDF, its attachment and then its
/// images (at most `MAX_PDF_IMAGES`), with its text; an EPUB, its attachment
/// and its text; and every other failure carries the kind's prefix.
pub open spec fn import_outcome(
    name: Seq<char>,
    ext: Seq<char>,
    path: Seq<char>,
    content: Result<Vec<u8>, String>,
    r: Result<Imported, String>,
) -> bool {
    let kind = kind_of_extension(ext);
    let prefix = import_error_prefix(kind);
    if kind == AttachmentKind::Other {
        &&& r matches Ok(imp)
        &&& imp.attachments@.len() == 1
        &&& is_plain_attachment(imp.attachments@[0], kind, name)
        &&& imp.extracted_text is None
    } else if content is Err {
        r matches Err(m) && m@ == prefix + content->Err_0@
    } else {
        let bytes = content->Ok_0@;
        &&& (r matches Err(m) ==> prefix.len() <= m@.len() && m@.subrange(0, prefix.len() as int)
            == prefix)
        &&& (kind == AttachmentKind::Text && valid_utf8(bytes) ==> {
            &&& r matches Ok(imp)
            &&& imp.attachments@.len() == 1
            &&& is_plain_attachment(imp.attachments@[0], kind, name)
            &&& imp.extracted_text matches Some(t)
            &&& t@ == spec_truncate(decode_utf8(bytes))
        })
        &&& (kind == AttachmentKind::Text && !valid_utf8(bytes) ==> (r matches Err(m) && m@
            == prefix + not_utf8_message()))
        &&& (kind == AttachmentKind::Image ==> match decoded_with_extension(bytes, ext) {
            Ok(c) => r is Ok && {
                let imp = r->Ok_0;
                &&& imp.attachments@.len() == 1
                &&& imp.attachments@[0].kind == kind
                &&& imp.attachments@[0].name@ == name
                &&& imp.attachments@[0].summary@ == spec_summary(kind, name)
                &&& imp.attachments@[0].image_file matches Some(f)
                &&& f@ == path
                &&& imp.attachments@[0].image_data matches Some(d)
                &&& d@ == resized_png_uri(c)
                &&& imp.extracted_text is None
            },
            Err(m) => r matches Err(e) && e@ == prefix + m,
        })
        &&& (kind == AttachmentKind::Pdf ==> match pdf_load_error(bytes) {
            Some(m) => r matches Err(e) && e@ == prefix + m,
            None => exists|doc: Document| #[trigger] pdf_import_outcome(name, doc, r),
        })
        &&& (kind == AttachmentKind::Epub && r is Ok ==> {
            let imp = r->Ok_0;
            &&& imp.attachments@.len() == 1
            &&& is_plain_attachment(imp.attachments@[0], kind, name)
            &&& imp.extracted_text matches Some(t)
            &&& exists|raws: Seq<Seq<char>>|
                trim(#[trigger] chapters_text(raws)).len() > 0 && t@ == spec_truncate(
                    chapters_text(raws),
                )
        })
        &&& (kind == AttachmentKind::Epub ==> match spec_epub_text(bytes) {
            Ok(x) => r is Ok && r->Ok_0.extracted_text is Some && r->Ok_0.extracted_text->0@
                == spec_truncate(x),
            Err(e) => r matches Err(m) && m@ == prefix + e,
        })
    }
}

/// The extensions of the image kind each name an image format.
proof fn lemma_image_kind_has_format(ext: Seq<char>)
    requires
        kind_of_extension(ext) == AttachmentKind::Image,
    ensures
        is_image_extension(ext),
{
    reveal_strlit("png");
    reveal_strlit("jpg");
    reveal_strlit("jpeg");
    reveal_strlit("gif");
    reveal_strlit("webp");
    reveal_strlit("bmp");
    reveal_strlit("tiff");
    reveal_strlit("tif");
    assert(ext.map_values(|c: char| ascii_lower(c)) =~= ext);
}

/// What the import of the PDF document `doc`, called `name`, gives: its
/// attachment, then one attachment for each of its images (see
/// `document_images`), with its text cut at `MAX_TEXT` characters; or the
/// error of reading its text.
pub open spec fn pdf_import_outcome(name: Seq<char>, doc: Document, r: Result<Imported, String>) -> bool {
    match document_text(doc) {
        Err(e) => r matches Err(m) && m@ == import_error_prefix(AttachmentKind::Pdf) + e,
        Ok(t) => {
            &&& r matches Ok(imp)
            &&& imp.attachments@.len() == 1 + document_images(doc).len()
            &&& is_plain_attachment(imp.attachments@[0], AttachmentKind::Pdf, name)
            &&& forall|i: int|
                1 <= i < imp.attachments@.len() ==> #[trigger] is_pdf_image(
                    imp.attachments@[i],
                    name,
                    i as nat,
                    document_images(doc)[i - 1],
                )
            &&& imp.extracted_text matches Some(x)
            &&& x@ == spec_truncate(t)
        },
    }
}

/// Imports the PDF document `doc`, called `name` (see `pdf_import_outcome`).
pub fn import_pdf(name: &str, doc: &Document) -> (r: Result<Imported, String>)
    ensures
        pdf_import_outcome(name@, *doc, r),
{
    let kind = AttachmentKind::Pdf;
    let text = match pdf_text(doc) {
        Ok(t) => t,
        Err(e) => {
            return Err(import_error(kind, e.as_str()));
        },
    };
    let mut attachments: Vec<Attachment> = Vec::new();
    attachments.push(plain_attachment(kind, name));
    let images = pdf_images(doc);
    let ghost uris = images@.map_values(|u: String| u@);
    let mut i: usize = 0;
    while i < images.len()
        invariant
            i <= images@.len() <= MAX_PDF_IMAGES,
            uris == images@.map_values(|u: String| u@),
            uris == document_images(*doc),
            attachments@.len() == i + 1,
            is_plain_attachment(attachments@[0], kind, name@),
            kind == AttachmentKind::Pdf,
            forall|j: int|
                1 <= j < attachments@.len() ==> #[trigger] is_pdf_image(
                    attachments@[j],
                    name@,
                    j as nat,
                    uris[j - 1],
                ),
        decreases images@.len() - i,
    {
        let uri = images[i].clone();
        assert(uri@ == uris[i as int]);
        attachments.push(pdf_image_attachment(name, (i + 1) as u64, uri));
        i += 1;
    }
    let extracted = truncate(text.as_str());
    Ok(Imported { attachments, extracted_text: Some(extracted) })
}

/// An attachment without image.
fn plain_attachment(kind: AttachmentKind, name: &str) -> (a: Attachment)
    ensures
        is_plain_attachment(a, kind, name@),
{
    let mut summary = kind.label().to_owned();
    summary.append(": ");
    summary.append(name);
    Attachment { kind, name: name.to_owned(), summary, image_file: None, image_data: None }
}

/// The attachment of the `n`-th image (from 1) of the PDF called `name`.
fn pdf_image_attachment(name: &str, n: u64, uri: String) -> (a: Attachment)
    ensures
        is_pdf_image(a, name@, n as nat, uri@),
{
    let mut title = name.to_owned();
    title.append(" - imagen ");
    push_decimal(&mut title, n);
    let mut summary = "Imagen: ".to_owned();
    summary.append(name);
    summary.append(" (");
    push_decimal(&mut summary, n);
    summary.append(")");
    Attachment {
        kind: AttachmentKind::Image,
        name: title,
        summary,
        image_file: None,
        image_data: Some(uri),
    }
}

/// An error with the prefix of `kind`.
fn import_error(kind: AttachmentKind, e: &str) -> (m: String)
    ensures
        m@ == import_error_prefix(kind) + e@,
        m@.subrange(0, import_error_prefix(kind).len() as int) == import_error_prefix(kind),
{
    let mut m = match kind {
        AttachmentKind::Image => "No se pudo leer la imagen: ".to_owned(),
        AttachmentKind::Pdf => "No se pudo leer el PDF: ".to_owned(),
        AttachmentKind::Epub => "No se pudo leer el EPUB: ".to_owned(),
        _ => "No se pudo leer el archivo: ".to_owned(),
    };
    m.append(e);
    assert(m@.subrange(0, import_error_prefix(kind).len() as int) =~= import_error_prefix(kind));
    m
}

/// Imports a file called `name`, of lowercase extension `ext`, at `path`,
/// whose content was read as `content` (not looked at for an unknown kind).
pub fn import_named(name: &str, ext: &str, path: &str, content: Result<Vec<u8>, String>) -> (r:
    Result<Imported, String>)
    ensures
        import_outcome(name@, ext@, path@, content, r),
{
    let kind = classify_extension(ext);
    let ghost prefix = import_error_prefix(kind);
    let ghost c0 = content;
    let mut attachments: Vec<Attachment> = Vec::new();
    if kind == AttachmentKind::Other {
        attachments.push(plain_attachment(kind, name));
        return Ok(Imported { attachments, extracted_text: None });
    }
    let bytes = match content {
        Ok(b) => b,
        Err(e) => {
            return Err(import_error(kind, e.as_str()));
        },
    };
    match kind {
        AttachmentKind::Image => {
            proof {
                lemma_image_kind_has_format(ext@);
            }
            match image_data_uri(bytes.as_slice(), ext) {
                Ok(uri) => {
                    let mut summary = kind.label().to_owned();
                    summary.append(": ");
                    summary.append(name);
                    attachments.push(
                        Attachment {
                            kind,
                            name: name.to_owned(),
                            summary,
                            image_file: Some(path.to_owned()),
                            image_data: Some(uri),
                        },
                    );
                    let r = Ok(Imported { attachments, extracted_text: None });
                    assert(import_outcome(name@, ext@, path@, c0, r));
                    r
                },
                Err(e) => Err(import_error(kind, e.as_str())),
            }
        },
        AttachmentKind::Pdf => {
            let doc = match pdf_load(bytes.as_slice()) {
                Ok(d) => d,
                Err(e) => {
                    return Err(import_error(kind, e.as_str()));
                },
            };
            let r = import_pdf(name, &doc);
            assert(pdf_import_outcome(name@, doc, r));
            proof {
                if r is Err {
                    assert(r->Err_0@.subrange(0, prefix.len() as int) =~= prefix);
                }
            }
            assert(import_outcome(name@, ext@, path@, c0, r));
            r
        },
        AttachmentKind::Epub => {
            match epub_text(bytes) {
                Ok(text) => {
                    attachments.push(plain_attachment(kind, name));
                    let extracted = truncate(text.as_str());
                    let r = Ok(Imported { attachments, extracted_text: Some(extracted) });
                    assert(import_outcome(name@, ext@, path@, c0, r));
                    r
                },
                Err(e) => {
                    let r = Err(import_error(kind, e.as_str()));
                    assert(import_outcome(name@, ext@, path@, c0, r));
                    r
                },
            }
        },
        _ => {
            match utf8_to_string(bytes.as_slice()) {
                Some(text) => {
                    attachments.push(plain_attachment(kind, name));
                    let extracted = truncate(text.as_str());
                    let r = Ok(Imported { attachments, extracted_text: Some(extracted) });
                    assert(import_outcome(name@, ext@, path@, c0, r));
                    r
                },
                None => Err(import_error(kind, "stream did not contain valid UTF-8")),
            }
        },
    }
}

/// Index of the last `/` among the first `i` characters of `s`.
pub open spec fn last_slash(s: Seq<char>, i: int) -> Option<int>
    decreases i,
{
    if i <= 0 || i > s.len() {
        None
    } else if s[i - 1] == '/' {
        Some(i - 1)
    } else {
        last_slash(s, i - 1)
    }
}

/// What follows the last `/` of a path (the whole path when it has none).
pub open spec fn file_part(path: Seq<char>) -> Seq<char> {
    match last_slash(path, path.len() as int) {
        Some(k) => path.subrange(k + 1, path.len() as int),
        None => path,
    }
}

/// A path that every platform splits alike and that ends in a file name: it
/// holds no backslash and no drive colon, does not begin with two slashes
/// (a network share on some platforms), and after its last `/` (which std
/// takes as a separator everywhere) comes a plain name other than `.` and
/// `..`. A plain file name alone is such a path.
pub open spec fn is_portable_file_path(path: Seq<char>) -> bool {
    &&& forall|i: int| 0 <= i < path.len() ==> #[trigger] path[i] != '\\' && path[i] != ':'
    &&& !(path.len() >= 2 && path[0] == '/' && path[1] == '/')
    &&& is_plain_name(file_part(path))
}

/// `Path::file_name` of `path`, as text. For a portable file path (see
/// `is_portable_file_path`) std's documentation gives it on every platform:
/// the last component, the name after the last `/`. Of other paths nothing
/// is said here, as their separators and prefixes differ by platform.
#[verifier::external_body]
fn path_file_name(path: &str) -> (r: Option<String>)
    ensures
        is_portable_file_path(path@) ==> r is Some && r->0@ == file_part(path@),
{
    std::path::Path::new(path).file_name().map(|n| n.to_string_lossy().into_owned())
}

/// Index of the last `.` among the first `i` characters of `s`.
pub open spec fn last_dot(s: Seq<char>, i: int) -> Option<int>
    decreases i,
{
    if i <= 0 || i > s.len() {
        None
    } else if s[i - 1] == '.' {
        Some(i - 1)
    } else {
        last_dot(s, i - 1)
    }
}

/// The extension of a file name: what follows its last `.`, unless it has
/// no `.` or its last `.` is its first character (a hidden file such as
/// `.bashrc` has none).
pub open spec fn name_extension(name: Seq<char>) -> Option<Seq<char>> {
    match last_dot(name, name.len() as int) {
        Some(k) => if k > 0 {
            Some(name.subrange(k + 1, name.len() as int))
        } else {
            None
        },
        None => None,
    }
}

/// The lowercase extension of a plain file name; empty when it has none.
pub open spec fn plain_name_extension(name: Seq<char>) -> Seq<char> {
    match name_extension(name) {
        Some(e) => lowercase_text(e),
        None => Seq::empty(),
    }
}

/// `Path::extension` of `path`, as text. For a portable file path (see
/// `is_portable_file_path`) std's documentation gives it on every platform:
/// the extension of its last component, the text after the last `.` of that
/// name, or none when the name has no `.` or its last `.` is its first
/// character. Of other paths nothing is said here, as their separators and
/// prefixes differ by platform.
#[verifier::external_body]
fn path_extension(path: &str) -> (r: Option<String>)
    ensures
        is_portable_file_path(path@) ==> match r {
            Some(e) => name_extension(file_part(path@)) == Some(e@),
            None => name_extension(file_part(path@)) is None,
        },
{
    std::path::Path::new(path).extension().map(|e| e.to_string_lossy().into_owned())
}

/// The extension of `path` in lowercase; empty when it has none.
pub fn lowercase_extension(path: &str) -> (r: String)
    ensures
        r@.len() == 0 || exists|e: Seq<char>| r@ == #[trigger] lowercase_text(e),
        is_portable_file_path(path@) ==> r@ == plain_name_extension(file_part(path@)),
{
    match path_extension(path) {
        Some(e) => to_lowercase(e.as_str()),
        None => String::new(),
    }
}

/// The kind of the file at `path`, by its extension: which content
/// `import_file` needs to have read.
pub fn file_kind(path: &str) -> (k: AttachmentKind)
    ensures
        exists|ext: Seq<char>| k == #[trigger] kind_of_extension(ext),
        is_portable_file_path(path@) ==> k == kind_of_extension(plain_name_extension(file_part(path@))),
{
    let ext = lowercase_extension(path);
    classify_extension(ext.as_str())
}

/// Imports the file at `path`, whose content was read as `content` (an
/// unknown kind, see `file_kind`, needs none): its name is the last
/// component of the path (the whole path when there is none) and its kind
/// comes from its lowercase extension.
pub fn import_file(path: &str, content: Result<Vec<u8>, String>) -> (r: Result<Imported, String>)
    ensures
        exists|name: Seq<char>, ext: Seq<char>| #[trigger] import_outcome(name, ext, path@, content, r),
        is_portable_file_path(path@) ==> import_outcome(
            file_part(path@),
            plain_name_extension(file_part(path@)),
            path@,
            content,
            r,
        ),
{
    let name = match path_file_name(path) {
        Some(n) => n,
        None => path.to_owned(),
    };
    let ext = lowercase_extension(path);
    import_named(name.as_str(), ext.as_str(), path, content)
}

} // verus!
