//! PDF attachments: their text (the string operands of the text operators of
//! each page) and their embedded images (as PNG or JPEG data URIs).

use vstd::prelude::*;
use lopdf::{Document, Object, Stream};
use crate::files::{from_utf8_lossy, pdf_text_from, push_pdf_text, utf8_lossy};
use vstd::utf8::{decode_utf8, valid_utf8};
use crate::text::push_char;
use vstd::utf8::encode_utf8;
use crate::imaging::{
    decoded_guessing_format, encode_resized_data_uri, encode_rgba_png, fitted, image_rgba, load_image,
    png_payload, png_rgba, resized_png_uri, spec_data_uri, to_data_uri,
};
use crate::text::{decimal, utf8_to_string};

verus! {

#[verifier::external_type_specification]
#[verifier::external_body]
pub struct ExPdfDocument(Document);

#[verifier::external_type_specification]
#[verifier::external_body]
pub struct ExPdfStream(Stream);

/// Whether and why `Document::load_mem` refuses `bytes`: the text of its
/// error, `None` when it parses them.
pub uninterp spec fn pdf_load_error(bytes: Seq<u8>) -> Option<Seq<char>>;

/// `Document::load_mem`: parses a PDF file; trusted to succeed or fail by
/// the bytes alone.
#[verifier::external_body]
pub(crate) fn pdf_load(bytes: &[u8]) -> (r: Result<Document, String>)
    ensures
        r is Err <==> pdf_load_error(bytes@) is Some,
        r is Err ==> r->Err_0@ == pdf_load_error(bytes@)->0,
{
    Document::load_mem(bytes).map_err(|e| e.to_string())
}

/// The identifiers of a document's pages, in page order, as
/// `Document::get_pages` finds them by walking the page tree.
pub uninterp spec fn document_page_ids(doc: Document) -> Seq<(u32, u16)>;

/// `Document::get_pages`: the identifiers of the pages, in page order.
#[verifier::external_body]
fn pdf_page_ids(doc: &Document) -> (r: Vec<(u32, u16)>)
    ensures
        r@ == document_page_ids(*doc),
{
    doc.get_pages().into_values().collect()
}

/// The `Contents` entry of a page's dictionary, as far as the text of the
/// page depends on it.
pub enum PageContents {
    /// The page has no `Contents`.
    Missing,
    /// A reference to one content stream.
    Reference(u32, u16),
    /// An array, with the object that each of its items refers to (`None`
    /// for an item that is no reference).
    Array(Vec<Option<(u32, u16)>>),
    /// Anything else.
    Other,
}

/// A page's `Contents` entry as a mathematical value.
pub enum ContentsView {
    Missing,
    Reference((u32, u16)),
    Array(Seq<Option<(u32, u16)>>),
    Other,
}

impl PageContents {
    pub open spec fn view(self) -> ContentsView {
        match self {
            PageContents::Missing => ContentsView::Missing,
            PageContents::Reference(n, g) => ContentsView::Reference((n, g)),
            PageContents::Array(items) => ContentsView::Array(items@),
            PageContents::Other => ContentsView::Other,
        }
    }
}

/// What `Document::get_dictionary(id)` and then `Dictionary::get` of
/// `Contents` find in a document: the entry, or the text of the error when
/// `id` is no dictionary of the document.
pub uninterp spec fn document_page_contents(doc: Document, id: (u32, u16)) -> Result<
    ContentsView,
    Seq<char>,
>;

/// `Document::get_dictionary`, then `Dictionary::get` of `Contents`, told
/// apart by `Object`'s variants.
#[verifier::external_body]
fn pdf_page_contents(doc: &Document, id: (u32, u16)) -> (r: Result<PageContents, String>)
    ensures
        match r {
            Ok(c) => document_page_contents(*doc, id) == Ok::<ContentsView, Seq<char>>(c.view()),
            Err(e) => document_page_contents(*doc, id) == Err::<ContentsView, Seq<char>>(e@),
        },
{
    let page = doc.get_dictionary(id).map_err(|e| e.to_string())?;
    Ok(
        match page.get(b"Contents") {
            Err(_) => PageContents::Missing,
            Ok(Object::Reference(r)) => PageContents::Reference(r.0, r.1),
            Ok(Object::Array(items)) => PageContents::Array(items.iter().map(|o| o.as_reference().ok()).collect()),
            Ok(_) => PageContents::Other,
        },
    )
}

/// What `Document::get_object(id)`, `Object::as_stream` and
/// `Stream::decompressed_content` give in a document: the stream's bytes
/// with its filters undone, or the text of the first error.
pub uninterp spec fn document_stream_bytes(doc: Document, id: (u32, u16)) -> Result<
    Seq<u8>,
    Seq<char>,
>;

/// `Document::get_object`, `Object::as_stream`, then
/// `Stream::decompressed_content`.
#[verifier::external_body]
fn pdf_stream_bytes(doc: &Document, id: (u32, u16)) -> (r: Result<Vec<u8>, String>)
    ensures
        match r {
            Ok(b) => document_stream_bytes(*doc, id) == Ok::<Seq<u8>, Seq<char>>(b@),
            Err(e) => document_stream_bytes(*doc, id) == Err::<Seq<u8>, Seq<char>>(e@),
        },
{
    doc.get_object(id).and_then(|o| o.as_stream()).and_then(|s| s.decompressed_content()).map_err(
        |e| e.to_string(),
    )
}

/// The integer entries of a stream's dictionary, by the text of their keys.
pub uninterp spec fn stream_int_entries(s: Stream) -> Map<Seq<char>, i64>;

/// The name entries of a stream's dictionary (the bytes of each name), by
/// the text of their keys.
pub uninterp spec fn stream_name_entries(s: Stream) -> Map<Seq<char>, Seq<u8>>;

/// The integer entries of the dictionary that a stream's `DecodeParms`
/// entry holds (none when it holds no dictionary), by the text of their keys.
pub uninterp spec fn stream_parm_int_entries(s: Stream) -> Map<Seq<char>, i64>;

/// What `Stream::filters` reads: the names of the stream's filters, `None`
/// when its `Filter` entry is missing or is neither a name nor an array of
/// names.
pub uninterp spec fn stream_filter_names(s: Stream) -> Option<Seq<Seq<u8>>>;

/// A stream's bytes as stored.
pub uninterp spec fn stream_content(s: Stream) -> Seq<u8>;

/// What `Stream::get_plain_content` gives: the stream's bytes with its
/// filters undone, `None` where that fails.
pub uninterp spec fn stream_plain_content(s: Stream) -> Option<Seq<u8>>;

/// The entry of `m` under `k`, if any.
pub open spec fn entry<V>(m: Map<Seq<char>, V>, k: Seq<char>) -> Option<V> {
    if m.contains_key(k) {
        Some(m[k])
    } else {
        None
    }
}

/// `Dictionary::get` on a stream's dictionary, then `Object::as_i64`.
#[verifier::external_body]
fn stream_int_entry(stream: &Stream, key: &str) -> (r: Option<i64>)
    ensures
        r == entry(stream_int_entries(*stream), key@),
{
    stream.dict.get(key.as_bytes()).and_then(|o| o.as_i64()).ok()
}

/// `Dictionary::get` on a stream's dictionary, then `Object::as_name`.
#[verifier::external_body]
fn stream_name_entry(stream: &Stream, key: &str) -> (r: Option<Vec<u8>>)
    ensures
        r is Some <==> stream_name_entries(*stream).contains_key(key@),
        r is Some ==> r->0@ == stream_name_entries(*stream)[key@],
{
    stream.dict.get(key.as_bytes()).and_then(|o| o.as_name()).ok().map(|n| n.to_vec())
}

/// `Dictionary::get` of `DecodeParms` on a stream's dictionary,
/// `Object::as_dict`, then `Dictionary::get` and `Object::as_i64` on that.
#[verifier::external_body]
fn stream_parm_int_entry(stream: &Stream, key: &str) -> (r: Option<i64>)
    ensures
        r == entry(stream_parm_int_entries(*stream), key@),
{
    stream.dict.get(b"DecodeParms").and_then(|o| o.as_dict()).and_then(
        |d| d.get(key.as_bytes()),
    ).and_then(|o| o.as_i64()).ok()
}

/// `Stream::filters`, each name's bytes copied out.
#[verifier::external_body]
fn pdf_filters(stream: &Stream) -> (r: Option<Vec<Vec<u8>>>)
    ensures
        r is Some <==> stream_filter_names(*stream) is Some,
        r is Some ==> r->0@.map_values(|f: Vec<u8>| f@) == stream_filter_names(*stream)->0,
{
    stream.filters().ok().map(|fs| fs.into_iter().map(|f| f.to_vec()).collect())
}

/// `Stream::get_plain_content`.
#[verifier::external_body]
fn pdf_plain_content(stream: &Stream) -> (r: Option<Vec<u8>>)
    ensures
        opt_bytes(r) == stream_plain_content(*stream),
{
    stream.get_plain_content().ok()
}

/// The raw content of a stream (its `content` field).
#[verifier::external_body]
fn pdf_stream_content(stream: &Stream) -> (r: Vec<u8>)
    ensures
        r@ == stream_content(*stream),
{
    stream.content.clone()
}

/// The readable parts of a stream: its dictionary's integer entries, name
/// entries and `DecodeParms` integer entries, its filter names, its bytes as
/// stored, and its bytes with the filters undone.
pub open spec fn stream_parts(s: Stream) -> (
    Map<Seq<char>, i64>,
    Map<Seq<char>, Seq<u8>>,
    Map<Seq<char>, i64>,
    Option<Seq<Seq<u8>>>,
    Seq<u8>,
    Option<Seq<u8>>,
) {
    (
        stream_int_entries(s),
        stream_name_entries(s),
        stream_parm_int_entries(s),
        stream_filter_names(s),
        stream_content(s),
        stream_plain_content(s),
    )
}

/// A document's objects in identifier order: the readable parts of each
/// one that is a stream, `None` for the others.
pub uninterp spec fn document_object_streams(doc: Document) -> Seq<
    Option<
        (
            Map<Seq<char>, i64>,
            Map<Seq<char>, Seq<u8>>,
            Map<Seq<char>, i64>,
            Option<Seq<Seq<u8>>>,
            Seq<u8>,
            Option<Seq<u8>>,
        ),
    >,
>;

/// The document's objects (its `objects` field, in identifier order), each
/// through `Object::as_stream`.
#[verifier::external_body]
fn pdf_object_streams(doc: &Document) -> (r: Vec<Option<&Stream>>)
    ensures
        r@.len() == document_object_streams(*doc).len(),
        forall|i: int|
            0 <= i < r@.len() ==> (#[trigger] r@[i] is Some <==> document_object_streams(*doc)[i] is Some),
        forall|i: int|
            0 <= i < r@.len() && #[trigger] r@[i] is Some ==> stream_parts(*r@[i]->0)
                == document_object_streams(*doc)[i]->0,
{
    doc.objects.values().map(|o| o.as_stream().ok()).collect()
}

// ---------------------------------------------------------------------------
// Text of the pages
// ---------------------------------------------------------------------------

/// The text that the content streams `streams` (decoded to characters)
/// append to `out`, in order.
pub open spec fn streams_text(streams: Seq<Seq<char>>, out: Seq<char>) -> Seq<char>
    decreases streams.len(),
{
    if streams.len() == 0 {
        out
    } else {
        pdf_text_from(encode_utf8(streams.last()), 0, streams_text(streams.drop_last(), out))
    }
}

/// The text of a document's pages: for each page with contents, the text of
/// its content streams followed by a newline; a page without contents adds
/// nothing.
pub open spec fn pages_text(pages: Seq<Option<Seq<Seq<char>>>>) -> Seq<char>
    decreases pages.len(),
{
    if pages.len() == 0 {
        seq![]
    } else {
        let prev = pages_text(pages.drop_last());
        match pages.last() {
            None => prev,
            Some(streams) => streams_text(streams, prev).push('\n'),
        }
    }
}

/// A page's decoded content streams as mathematical values.
pub open spec fn page_sv(p: Option<Vec<String>>) -> Option<Seq<Seq<char>>> {
    match p {
        Some(v) => Some(v@.map_values(|s: String| s@)),
        None => None,
    }
}

/// The pages as mathematical values.
pub open spec fn pages_sv(pages: Seq<Option<Vec<String>>>) -> Seq<Option<Seq<Seq<char>>>> {
    pages.map_values(|p: Option<Vec<String>>| page_sv(p))
}

/// The text of the pages whose content streams, decoded, are `pages`
/// (`None` for a page without contents).
pub fn text_of_pages(pages: &Vec<Option<Vec<String>>>) -> (r: String)
    ensures
        r@ == pages_text(pages_sv(pages@)),
{
    let ghost sv = pages_sv(pages@);
    let mut out = String::new();
    let mut i: usize = 0;
    while i < pages.len()
        invariant
            i <= pages@.len(),
            sv == pages_sv(pages@),
            out@ == pages_text(sv.subrange(0, i as int)),
        decreases pages@.len() - i,
    {
        assert(sv.subrange(0, i + 1).drop_last() =~= sv.subrange(0, i as int));
        match &pages[i] {
            Some(streams) => {
                let ghost before = out@;
                let ghost ss = streams@.map_values(|s: String| s@);
                let mut k: usize = 0;
                while k < streams.len()
                    invariant
                        k <= streams@.len(),
                        ss == streams@.map_values(|s: String| s@),
                        out@ == streams_text(ss.subrange(0, k as int), before),
                    decreases streams@.len() - k,
                {
                    assert(ss.subrange(0, k + 1).drop_last() =~= ss.subrange(0, k as int));
                    push_pdf_text(&mut out, streams[k].as_str());
                    k += 1;
                }
                assert(ss.subrange(0, streams@.len() as int) =~= ss);
                push_char(&mut out, '\n');
            },
            None => {},
        }
        i += 1;
    }
    assert(sv.subrange(0, pages@.len() as int) =~= sv);
    out
}

/// The objects that the items of a `Contents` array refer to, in order.
pub open spec fn array_refs(items: Seq<Option<(u32, u16)>>) -> Seq<(u32, u16)>
    decreases items.len(),
{
    if items.len() == 0 {
        seq![]
    } else {
        let prev = array_refs(items.drop_last());
        match items.last() {
            Some(id) => prev.push(id),
            None => prev,
        }
    }
}

/// The content streams that a page's `Contents` entry refers to.
pub open spec fn contents_ids(c: ContentsView) -> Seq<(u32, u16)> {
    match c {
        ContentsView::Reference(id) => seq![id],
        ContentsView::Array(items) => array_refs(items),
        _ => seq![],
    }
}

/// The content streams `ids` of a document, decompressed and decoded as
/// UTF-8 (invalid sequences replaced), in order; the first error else.
pub open spec fn streams_read(doc: Document, ids: Seq<(u32, u16)>) -> Result<
    Seq<Seq<char>>,
    Seq<char>,
>
    decreases ids.len(),
{
    if ids.len() == 0 {
        Ok(seq![])
    } else {
        match streams_read(doc, ids.drop_last()) {
            Err(e) => Err(e),
            Ok(prev) => match document_stream_bytes(doc, ids.last()) {
                Err(e) => Err(e),
                Ok(b) => Ok(prev.push(utf8_lossy(b))),
            },
        }
    }
}

/// The decoded content streams of page `id`: `None` when it has no
/// `Contents`; the error of reading its dictionary or one of its streams.
pub open spec fn page_read(doc: Document, id: (u32, u16)) -> Result<
    Option<Seq<Seq<char>>>,
    Seq<char>,
> {
    match document_page_contents(doc, id) {
        Err(e) => Err(e),
        Ok(c) => if c is Missing {
            Ok(None)
        } else {
            match streams_read(doc, contents_ids(c)) {
                Err(e) => Err(e),
                Ok(t) => Ok(Some(t)),
            }
        },
    }
}

/// The decoded content streams of the pages `ids`, in order; the first
/// error else.
pub open spec fn pages_read(doc: Document, ids: Seq<(u32, u16)>) -> Result<
    Seq<Option<Seq<Seq<char>>>>,
    Seq<char>,
>
    decreases ids.len(),
{
    if ids.len() == 0 {
        Ok(seq![])
    } else {
        match pages_read(doc, ids.drop_last()) {
            Err(e) => Err(e),
            Ok(prev) => match page_read(doc, ids.last()) {
                Err(e) => Err(e),
                Ok(p) => Ok(prev.push(p)),
            },
        }
    }
}

/// The text of a document (see `pages_text`), or the first error met while
/// reading its pages.
pub open spec fn document_text(doc: Document) -> Result<Seq<char>, Seq<char>> {
    match pages_read(doc, document_page_ids(doc)) {
        Ok(pages) => Ok(pages_text(pages)),
        Err(e) => Err(e),
    }
}

/// Once a prefix of the streams fails, reading all of them fails alike.
proof fn lemma_streams_read_err(doc: Document, ids: Seq<(u32, u16)>, k: int)
    requires
        0 <= k <= ids.len(),
        streams_read(doc, ids.subrange(0, k)) is Err,
    ensures
        streams_read(doc, ids) == streams_read(doc, ids.subrange(0, k)),
    decreases ids.len(),
{
    if k < ids.len() {
        assert(ids.drop_last().subrange(0, k) =~= ids.subrange(0, k));
        lemma_streams_read_err(doc, ids.drop_last(), k);
    } else {
        assert(ids.subrange(0, k) =~= ids);
    }
}

/// Once a prefix of the pages fails, reading all of them fails alike.
proof fn lemma_pages_read_err(doc: Document, ids: Seq<(u32, u16)>, k: int)
    requires
        0 <= k <= ids.len(),
        pages_read(doc, ids.subrange(0, k)) is Err,
    ensures
        pages_read(doc, ids) == pages_read(doc, ids.subrange(0, k)),
    decreases ids.len(),
{
    if k < ids.len() {
        assert(ids.drop_last().subrange(0, k) =~= ids.subrange(0, k));
        lemma_pages_read_err(doc, ids.drop_last(), k);
    } else {
        assert(ids.subrange(0, k) =~= ids);
    }
}

/// The objects that the items of a `Contents` array refer to.
fn references_of(items: &Vec<Option<(u32, u16)>>) -> (r: Vec<(u32, u16)>)
    ensures
        r@ == array_refs(items@),
{
    let mut out: Vec<(u32, u16)> = Vec::new();
    let mut k: usize = 0;
    while k < items.len()
        invariant
            k <= items@.len(),
            out@ == array_refs(items@.subrange(0, k as int)),
        decreases items@.len() - k,
    {
        assert(items@.subrange(0, k + 1).drop_last() =~= items@.subrange(0, k as int));
        match items[k] {
            Some(id) => out.push(id),
            None => {},
        }
        k += 1;
    }
    assert(items@.subrange(0, items@.len() as int) =~= items@);
    out
}

/// The content streams of page `id`, decoded (see `page_read`).
fn page_streams(doc: &Document, id: (u32, u16)) -> (r: Result<Option<Vec<String>>, String>)
    ensures
        match page_read(*doc, id) {
            Ok(p) => r is Ok && page_sv(r->Ok_0) == p,
            Err(e) => r is Err && r->Err_0@ == e,
        },
{
    let contents = match pdf_page_contents(doc, id) {
        Ok(c) => c,
        Err(e) => {
            return Err(e);
        },
    };
    let ghost cv = contents.view();
    let ids: Vec<(u32, u16)> = match contents {
        PageContents::Missing => {
            return Ok(None);
        },
        PageContents::Reference(n, g) => {
            let v = vec![(n, g)];
            assert(v@ =~= seq![(n, g)]);
            v
        },
        PageContents::Array(items) => references_of(&items),
        PageContents::Other => Vec::new(),
    };
    assert(ids@ =~= contents_ids(cv));
    assert(!(cv is Missing));
    assert(document_page_contents(*doc, id) == Ok::<ContentsView, Seq<char>>(cv));
    let mut texts: Vec<String> = Vec::new();
    let mut k: usize = 0;
    assert(ids@.subrange(0, 0) =~= Seq::<(u32, u16)>::empty());
    assert(texts@.map_values(|t: String| t@) =~= Seq::<Seq<char>>::empty());
    while k < ids.len()
        invariant
            k <= ids@.len(),
            ids@ == contents_ids(cv),
            !(cv is Missing),
            document_page_contents(*doc, id) == Ok::<ContentsView, Seq<char>>(cv),
            streams_read(*doc, ids@.subrange(0, k as int)) == Ok::<Seq<Seq<char>>, Seq<char>>(
                texts@.map_values(|t: String| t@),
            ),
        decreases ids@.len() - k,
    {
        assert(ids@.subrange(0, k + 1).drop_last() =~= ids@.subrange(0, k as int));
        match pdf_stream_bytes(doc, ids[k]) {
            Ok(bytes) => {
                let t = from_utf8_lossy(bytes.as_slice());
                let ghost before = texts@;
                texts.push(t);
                assert(texts@.map_values(|t: String| t@) =~= before.map_values(|t: String| t@).push(
                    utf8_lossy(bytes@),
                ));
            },
            Err(e) => {
                proof {
                    assert(ids@.subrange(0, k + 1).last() == ids@[k as int]);
                    assert(document_stream_bytes(*doc, ids@[k as int]) == Err::<Seq<u8>, Seq<char>>(e@));
                    assert(streams_read(*doc, ids@.subrange(0, k + 1)) == Err::<Seq<Seq<char>>, Seq<char>>(e@));
                    lemma_streams_read_err(*doc, ids@, k + 1);
                    assert(streams_read(*doc, contents_ids(cv)) == Err::<Seq<Seq<char>>, Seq<char>>(e@));
                    assert(page_read(*doc, id) == Err::<Option<Seq<Seq<char>>>, Seq<char>>(e@));
                }
                return Err(e);
            },
        }
        k += 1;
    }
    assert(ids@.subrange(0, ids@.len() as int) =~= ids@);
    Ok(Some(texts))
}

/// The text of a PDF (see `document_text`): the string literals of the
/// text operators of each page's content streams, a newline after each page
/// that has contents.
pub fn pdf_text(doc: &Document) -> (r: Result<String, String>)
    ensures
        result_text(r) == document_text(*doc),
{
    let ids = pdf_page_ids(doc);
    let mut pages: Vec<Option<Vec<String>>> = Vec::new();
    let mut i: usize = 0;
    assert(ids@.subrange(0, 0) =~= Seq::<(u32, u16)>::empty());
    assert(pages_sv(pages@) =~= Seq::<Option<Seq<Seq<char>>>>::empty());
    while i < ids.len()
        invariant
            i <= ids@.len(),
            ids@ == document_page_ids(*doc),
            pages_read(*doc, ids@.subrange(0, i as int)) == Ok::<
                Seq<Option<Seq<Seq<char>>>>,
                Seq<char>,
            >(pages_sv(pages@)),
        decreases ids@.len() - i,
    {
        assert(ids@.subrange(0, i + 1).drop_last() =~= ids@.subrange(0, i as int));
        match page_streams(doc, ids[i]) {
            Ok(p) => {
                let ghost before = pages@;
                pages.push(p);
                assert(pages_sv(pages@) =~= pages_sv(before).push(page_sv(p)));
            },
            Err(e) => {
                proof {
                    assert(ids@.subrange(0, i + 1).last() == ids@[i as int]);
                    lemma_pages_read_err(*doc, ids@, i + 1);
                }
                return Err(e);
            },
        }
        i += 1;
    }
    assert(ids@.subrange(0, ids@.len() as int) =~= ids@);
    let text = text_of_pages(&pages);
    Ok(text)
}

// ---------------------------------------------------------------------------
// Embedded images
// ---------------------------------------------------------------------------

/// What the conversion of an image stream reads from it.
pub struct PdfImageStream {
    /// Names of its filters (none when they cannot be read as text).
    pub filters: Vec<String>,
    pub width: Option<i64>,
    pub height: Option<i64>,
    pub bits_per_component: Option<i64>,
    /// Name of its colour space, when that is a name in UTF-8.
    pub color_space: Option<String>,
    /// `Predictor` of its decode parameters.
    pub predictor: Option<i64>,
    /// Its bytes as stored.
    pub content: Vec<u8>,
    /// Its bytes once its filters are undone, if that succeeded.
    pub plain: Option<Vec<u8>>,
}

/// What the conversion of an image stream reads from it, as mathematical
/// values.
pub struct ImageStreamFacts {
    pub filters: Seq<Seq<char>>,
    pub width: Option<i64>,
    pub height: Option<i64>,
    pub bits_per_component: Option<i64>,
    pub color_space: Option<Seq<char>>,
    pub predictor: Option<i64>,
    pub content: Seq<u8>,
    pub plain: Option<Seq<u8>>,
}

pub open spec fn opt_text(o: Option<String>) -> Option<Seq<char>> {
    match o {
        Some(s) => Some(s@),
        None => None,
    }
}

pub open spec fn opt_bytes(o: Option<Vec<u8>>) -> Option<Seq<u8>> {
    match o {
        Some(v) => Some(v@),
        None => None,
    }
}

impl PdfImageStream {
    pub open spec fn facts(self) -> ImageStreamFacts {
        ImageStreamFacts {
            filters: self.filters@.map_values(|f: String| f@),
            width: self.width,
            height: self.height,
            bits_per_component: self.bits_per_component,
            color_space: opt_text(self.color_space),
            predictor: self.predictor,
            content: self.content@,
            plain: opt_bytes(self.plain),
        }
    }
}

pub open spec fn has_filter(fs: Seq<Seq<char>>, name: Seq<char>) -> bool {
    exists|j: int| 0 <= j < fs.len() && #[trigger] fs[j] == name
}

pub open spec fn or_default(v: Option<i64>, d: i64) -> i64 {
    match v {
        Some(x) => x,
        None => d,
    }
}

/// A row of samples once TIFF predictor 2 is undone: from the `ch`-th byte
/// on, each byte adds (modulo 256) the byte one pixel before it.
pub open spec fn tiff_row(r: Seq<u8>, ch: nat) -> Seq<u8>
    decreases r.len(),
{
    if r.len() <= ch {
        r
    } else {
        let p = tiff_row(r.drop_last(), ch);
        let a = p[r.len() - 1 - ch];
        let b = r.last();
        p.push(if a + b > 255 {
            (a + b - 256) as u8
        } else {
            (a + b) as u8
        })
    }
}

/// `d` with TIFF predictor 2 undone on rows `row..h` of `rb` bytes each;
/// a row that the data does not hold entirely stays as it is.
pub open spec fn tiff_rows(d: Seq<u8>, rb: nat, ch: nat, row: nat, h: nat) -> Seq<u8>
    decreases h - row,
{
    if row >= h {
        d
    } else {
        let s = row * rb;
        if s + rb > d.len() {
            tiff_rows(d, rb, ch, row + 1, h)
        } else {
            tiff_rows(
                d.subrange(0, s as int) + tiff_row(d.subrange(s as int, (s + rb) as int), ch)
                    + d.subrange((s + rb) as int, d.len() as int),
                rb,
                ch,
                row + 1,
                h,
            )
        }
    }
}

/// What to do with an image stream.
pub enum ImagePlan {
    /// Send the JPEG data as it is.
    Jpeg,
    /// Decode the JPEG data, scale it down and send it as PNG (the JPEG data
    /// as it is when it cannot be decoded).
    ShrinkJpeg,
    /// Convert these samples (width, height, bytes, channels) to PNG.
    Encode(u32, u32, Vec<u8>, usize),
    /// The image cannot be converted, for this reason.
    Fail(String),
}

/// The plan as mathematical values.
pub enum SpecPlan {
    Jpeg,
    ShrinkJpeg,
    Encode(u32, u32, Seq<u8>, nat),
    Fail(Seq<char>),
}

impl ImagePlan {
    pub open spec fn sv(self) -> SpecPlan {
        match self {
            ImagePlan::Jpeg => SpecPlan::Jpeg,
            ImagePlan::ShrinkJpeg => SpecPlan::ShrinkJpeg,
            ImagePlan::Encode(w, h, d, c) => SpecPlan::Encode(w, h, d@, c as nat),
            ImagePlan::Fail(m) => SpecPlan::Fail(m@),
        }
    }
}

/// Channels of a colour space name (with the default for a missing one);
/// 0 for a space that cannot be converted.
pub open spec fn channels_of(cs: Option<Seq<char>>) -> nat {
    let name = match cs {
        Some(s) => s,
        None => "DeviceRGB"@,
    };
    if name == "DeviceGray"@ {
        1
    } else if name == "DeviceRGB"@ {
        3
    } else if name == "DeviceCMYK"@ || name == "DeviceCMYK16"@ {
        4
    } else {
        0
    }
}

/// How an image stream is converted: JPEG data goes out as it is (scaled
/// down first when a side exceeds 2048 pixels); JPEG 2000 is refused;
/// otherwise the image must be 1 to 8000 pixels a side, in a gray, RGB or
/// CMYK space, with 8-bit samples and no predictor or the TIFF one.
pub open spec fn spec_plan(info: ImageStreamFacts) -> SpecPlan {
    let w = or_default(info.width, 0) as u32;
    let h = or_default(info.height, 0) as u32;
    if has_filter(info.filters, "DCTDecode"@) {
        if w > 2048 || h > 2048 {
            SpecPlan::ShrinkJpeg
        } else {
            SpecPlan::Jpeg
        }
    } else if has_filter(info.filters, "JPXDecode"@) || has_filter(info.filters, "JPEG2000"@) {
        SpecPlan::Fail("JPEG2000 no soportado"@)
    } else if w == 0 || h == 0 || w > 8000 || h > 8000 {
        SpecPlan::Fail("dimensiones no válidas"@)
    } else if channels_of(info.color_space) == 0 {
        SpecPlan::Fail("espacio de color no soportado"@)
    } else {
        let bits = or_default(info.bits_per_component, 8) as u32;
        let predictor = or_default(info.predictor, 1) as u32;
        let ch = channels_of(info.color_space);
        match info.plain {
            None => SpecPlan::Fail("no se pudo descomprimir la imagen"@),
            Some(raw) => if bits == 8 && (predictor == 1 || predictor == 2) {
                SpecPlan::Encode(
                    w,
                    h,
                    if predictor == 2 {
                        tiff_rows(raw, (w * ch) as nat, ch, 0, h as nat)
                    } else {
                        raw
                    },
                    ch,
                )
            } else {
                SpecPlan::Fail("modo de imagen no soportado"@)
            },
        }
    }
}

/// Whether one of `fs` is `name`.
fn filter_present(fs: &Vec<String>, name: &str) -> (b: bool)
    ensures
        b == has_filter(fs@.map_values(|f: String| f@), name@),
{
    let target = name.to_owned();
    let mut i: usize = 0;
    while i < fs.len()
        invariant
            i <= fs@.len(),
            target@ == name@,
            forall|j: int| 0 <= j < i ==> fs@[j]@ != name@,
        decreases fs@.len() - i,
    {
        if fs[i] == target {
            assert(fs@.map_values(|f: String| f@)[i as int] == name@);
            return true;
        }
        i += 1;
    }
    false
}

fn channels_for(cs: &Option<String>) -> (c: usize)
    ensures
        c as nat == channels_of(opt_text(*cs)),
        c <= 4,
{
    let name = match cs {
        Some(s) => s.clone(),
        None => "DeviceRGB".to_owned(),
    };
    if name == "DeviceGray".to_owned() {
        1
    } else if name == "DeviceRGB".to_owned() {
        3
    } else if name == "DeviceCMYK".to_owned() || name == "DeviceCMYK16".to_owned() {
        4
    } else {
        0
    }
}

fn value_or(v: Option<i64>, d: i64) -> (r: i64)
    ensures
        r == or_default(v, d),
{
    match v {
        Some(x) => x,
        None => d,
    }
}

/// Undoes TIFF predictor 2 on the rows of `data` (`rb` bytes per row).
fn undo_tiff_predictor(data: &mut Vec<u8>, rb: usize, ch: usize, h: usize)
    requires
        1 <= ch <= rb <= 32000,
        h <= 8000,
    ensures
        final(data)@ == tiff_rows(old(data)@, rb as nat, ch as nat, 0, h as nat),
{
    let ghost d0 = data@;
    let mut row: usize = 0;
    while row < h
        invariant
            1 <= ch <= rb <= 32000,
            h <= 8000,
            row <= h,
            data@.len() == d0.len(),
            tiff_rows(data@, rb as nat, ch as nat, row as nat, h as nat) == tiff_rows(d0, rb as nat, ch as nat, 0, h as nat),
        decreases h - row,
    {
        assert(row * rb <= 8000 * 32000) by (nonlinear_arith)
            requires
                row <= 8000,
                rb <= 32000,
        ;
        let start = row * rb;
        if start + rb <= data.len() {
            let ghost before = data@;
            let ghost seg = before.subrange(start as int, start + rb);
            let mut c = ch;
            assert(tiff_row(seg.subrange(0, ch as int), ch as nat) =~= seg.subrange(0, ch as int));
            while c < rb
                invariant
                    1 <= ch <= c <= rb,
                    start + rb <= data.len(),
                    data@.len() == before.len(),
                    seg == before.subrange(start as int, start + rb),
                    data@.subrange(start as int, start + c) == tiff_row(seg.subrange(0, c as int), ch as nat),
                    forall|k: int| 0 <= k < start ==> data@[k] == before[k],
                    forall|k: int| start + c <= k < data@.len() ==> data@[k] == before[k],
                decreases rb - c,
            {
                let idx = start + c;
                let a = data[idx - ch];
                let b = data[idx];
                let v = b.wrapping_add(a);
                proof {
                    let pre = seg.subrange(0, c + 1);
                    assert(pre.drop_last() =~= seg.subrange(0, c as int));
                    assert(pre.last() == b);
                    assert(a == tiff_row(seg.subrange(0, c as int), ch as nat)[c - ch]) by {
                        assert(data@.subrange(start as int, start + c)[c - ch] == data@[idx - ch]);
                    }
                }
                data.set(idx, v);
                proof {
                    assert(data@.subrange(start as int, start + c + 1) =~= tiff_row(seg.subrange(0, c + 1), ch as nat));
                }
                c += 1;
            }
            proof {
                assert(seg.subrange(0, rb as int) =~= seg);
                assert(data@ =~= before.subrange(0, start as int) + tiff_row(seg, ch as nat) + before.subrange(start + rb, before.len() as int));
            }
        }
        row += 1;
    }
}

/// The plan for an image stream.
pub fn plan_image(info: &PdfImageStream) -> (r: ImagePlan)
    ensures
        r.sv() == spec_plan(info.facts()),
{
    let w = value_or(info.width, 0) as u32;
    let h = value_or(info.height, 0) as u32;
    if filter_present(&info.filters, "DCTDecode") {
        if w > 2048 || h > 2048 {
            return ImagePlan::ShrinkJpeg;
        }
        return ImagePlan::Jpeg;
    }
    if filter_present(&info.filters, "JPXDecode") || filter_present(&info.filters, "JPEG2000") {
        return ImagePlan::Fail("JPEG2000 no soportado".to_owned());
    }
    if w == 0 || h == 0 || w > 8000 || h > 8000 {
        return ImagePlan::Fail("dimensiones no válidas".to_owned());
    }
    let ch = channels_for(&info.color_space);
    if ch == 0 {
        return ImagePlan::Fail("espacio de color no soportado".to_owned());
    }
    let bits = value_or(info.bits_per_component, 8) as u32;
    let predictor = value_or(info.predictor, 1) as u32;
    let raw = match &info.plain {
        Some(raw) => raw.clone(),
        None => {
            return ImagePlan::Fail("no se pudo descomprimir la imagen".to_owned());
        },
    };
    if bits == 8 && (predictor == 1 || predictor == 2) {
        let mut data = raw;
        if predictor == 2 {
            assert((w as usize) * ch <= 32000 && ch <= (w as usize) * ch) by (nonlinear_arith)
                requires
                    1 <= w <= 8000,
                    1 <= ch <= 4,
            ;
            let rb = (w as usize) * ch;
            undo_tiff_predictor(&mut data, rb, ch, h as usize);
        }
        ImagePlan::Encode(w, h, data, ch)
    } else {
        ImagePlan::Fail("modo de imagen no soportado".to_owned())
    }
}


/// Filter names as text: all of them when each is UTF-8, none otherwise (as
/// when the filters cannot be read at all).
fn names_as_text(raw: Option<Vec<Vec<u8>>>) -> (r: Vec<String>)
    ensures
        (raw matches Some(v) && forall|j: int| 0 <= j < v@.len() ==> vstd::utf8::valid_utf8(
            #[trigger] v@[j]@,
        )) ==> r@.len() == raw->0@.len() && forall|j: int|
            0 <= j < r@.len() ==> #[trigger] r@[j]@ == vstd::utf8::decode_utf8(raw->0@[j]@),
        !(raw matches Some(v) && forall|j: int| 0 <= j < v@.len() ==> vstd::utf8::valid_utf8(
            #[trigger] v@[j]@,
        )) ==> r@.len() == 0,
{
    let ghost raw0 = raw;
    let v = match raw {
        Some(v) => v,
        None => {
            return Vec::new();
        },
    };
    let mut out: Vec<String> = Vec::new();
    let mut i: usize = 0;
    while i < v.len()
        invariant
            i <= v@.len(),
            out@.len() == i,
            raw0 == Some(v),
            raw0 == raw,
            forall|j: int| 0 <= j < i ==> vstd::utf8::valid_utf8(#[trigger] v@[j]@),
            forall|j: int| 0 <= j < i ==> #[trigger] out@[j]@ == vstd::utf8::decode_utf8(v@[j]@),
        decreases v@.len() - i,
    {
        match utf8_to_string(v[i].as_slice()) {
            Some(name) => {
                out.push(name);
            },
            None => {
                assert(!vstd::utf8::valid_utf8(v@[i as int]@));
                assert(!(forall|j: int| 0 <= j < v@.len() ==> vstd::utf8::valid_utf8(#[trigger] v@[j]@)));
                return Vec::new();
            },
        }
        i += 1;
    }
    out
}

/// A name as text, when it is one and is UTF-8.
fn name_as_text(raw: Option<Vec<u8>>) -> (r: Option<String>)
    ensures
        r is Some <==> (raw matches Some(n) && vstd::utf8::valid_utf8(n@)),
        r matches Some(s) ==> s@ == vstd::utf8::decode_utf8(raw->0@),
{
    match raw {
        Some(n) => utf8_to_string(n.as_slice()),
        None => None,
    }
}

/// Filter names as text: all of them when each is UTF-8, none otherwise.
pub open spec fn names_text(raw: Option<Seq<Seq<u8>>>) -> Seq<Seq<char>> {
    match raw {
        Some(v) => if forall|j: int| 0 <= j < v.len() ==> valid_utf8(#[trigger] v[j]) {
            v.map_values(|b: Seq<u8>| decode_utf8(b))
        } else {
            seq![]
        },
        None => seq![],
    }
}

/// A name as text, when it is UTF-8.
pub open spec fn name_text(raw: Option<Seq<u8>>) -> Option<Seq<char>> {
    match raw {
        Some(b) => if valid_utf8(b) {
            Some(decode_utf8(b))
        } else {
            None
        },
        None => None,
    }
}

/// What the conversion reads from a stream with readable parts `p` (see
/// `stream_parts`).
pub open spec fn facts_of_parts(
    p: (
        Map<Seq<char>, i64>,
        Map<Seq<char>, Seq<u8>>,
        Map<Seq<char>, i64>,
        Option<Seq<Seq<u8>>>,
        Seq<u8>,
        Option<Seq<u8>>,
    ),
) -> ImageStreamFacts {
    ImageStreamFacts {
        filters: names_text(p.3),
        width: entry(p.0, "Width"@),
        height: entry(p.0, "Height"@),
        bits_per_component: entry(p.0, "BitsPerComponent"@),
        color_space: name_text(entry(p.1, "ColorSpace"@)),
        predictor: entry(p.2, "Predictor"@),
        content: p.4,
        plain: p.5,
    }
}

/// What the conversion reads from the image stream `s`.
pub open spec fn stream_facts(s: Stream) -> ImageStreamFacts {
    facts_of_parts(stream_parts(s))
}

/// Reads from an image stream what its conversion needs.
fn image_stream_info(stream: &Stream) -> (info: PdfImageStream)
    ensures
        info.facts() == stream_facts(*stream),
{
    let raw_filters = pdf_filters(stream);
    let ghost rf = raw_filters;
    let filters = names_as_text(raw_filters);
    proof {
        let f = filters@.map_values(|f: String| f@);
        let want = names_text(stream_filter_names(*stream));
        if rf is Some {
            let v = rf->0@;
            let sv = v.map_values(|x: Vec<u8>| x@);
            assert(sv == stream_filter_names(*stream)->0);
            if forall|j: int| 0 <= j < v.len() ==> valid_utf8(#[trigger] v[j]@) {
                assert(forall|j: int| 0 <= j < sv.len() ==> valid_utf8(#[trigger] sv[j])) by {
                    assert forall|j: int| 0 <= j < sv.len() implies valid_utf8(#[trigger] sv[j]) by {
                        assert(sv[j] == v[j]@);
                    }
                }
                assert(f =~= want);
            } else {
                let j = choose|j: int| 0 <= j < v.len() && !valid_utf8(#[trigger] v[j]@);
                assert(sv[j] == v[j]@);
                assert(!(forall|j: int| 0 <= j < sv.len() ==> valid_utf8(#[trigger] sv[j])));
                assert(f =~= want);
            }
        } else {
            assert(f =~= want);
        }
    }
    let color_space = name_as_text(stream_name_entry(stream, "ColorSpace"));
    PdfImageStream {
        filters,
        width: stream_int_entry(stream, "Width"),
        height: stream_int_entry(stream, "Height"),
        bits_per_component: stream_int_entry(stream, "BitsPerComponent"),
        color_space,
        predictor: stream_parm_int_entry(stream, "Predictor"),
        content: pdf_stream_content(stream),
        plain: pdf_plain_content(stream),
    }
}

/// A result's strings as mathematical values.
pub open spec fn result_text(r: Result<String, String>) -> Result<Seq<char>, Seq<char>> {
    match r {
        Ok(s) => Ok(s@),
        Err(e) => Err(e@),
    }
}

/// The error for image data shorter than its size says.
pub open spec fn missing_data_message(have: nat, need: nat) -> Seq<char> {
    "datos insuficientes: "@ + decimal(have) + " < "@ + decimal(need)
}

/// The data URI of an image stream, or why it cannot be converted: JPEG data
/// as it is (when a side exceeds 2048 pixels, the PNG of the decoded image
/// scaled down, or the JPEG data as it is when it does not decode); samples
/// as the PNG of their first `w * h` pixels; the plan's error else.
pub open spec fn stream_uri(f: ImageStreamFacts) -> Result<Seq<char>, Seq<char>> {
    match spec_plan(f) {
        SpecPlan::Jpeg => Ok(spec_data_uri("image/jpeg"@, f.content)),
        SpecPlan::ShrinkJpeg => match decoded_guessing_format(f.content) {
            Ok(c) => Ok(resized_png_uri(c)),
            Err(_) => Ok(spec_data_uri("image/jpeg"@, f.content)),
        },
        SpecPlan::Encode(w, h, d, ch) => if d.len() < w * h * ch {
            Err(missing_data_message(d.len(), (w * h * ch) as nat))
        } else {
            Ok(spec_data_uri("image/png"@, png_rgba(w, h, image_rgba(w, h, d, ch))))
        },
        SpecPlan::Fail(m) => Err(m),
    }
}

/// Converts an image stream to a data URI as `stream_uri` says.
pub fn image_stream_to_data_uri(info: &PdfImageStream) -> (r: Result<String, String>)
    ensures
        result_text(r) == stream_uri(info.facts()),
{
    match plan_image(info) {
        ImagePlan::Jpeg => Ok(to_data_uri("image/jpeg", info.content.as_slice())),
        ImagePlan::ShrinkJpeg => {
            match load_image(info.content.as_slice()) {
                Ok(img) => Ok(encode_resized_data_uri(&img)),
                Err(_) => Ok(to_data_uri("image/jpeg", info.content.as_slice())),
            }
        },
        ImagePlan::Encode(w, h, data, ch) => {
            assert((w as int) * (h as int) * (ch as int) <= 8000 * 8000 * 4) by (nonlinear_arith)
                requires
                    w <= 8000,
                    h <= 8000,
                    ch <= 4,
            ;
            encode_rgba_png(w, h, data.as_slice(), ch)
        },
        ImagePlan::Fail(m) => Err(m),
    }
}

/// Converts a PDF image stream to a data URI (PNG, or JPEG as it came), as
/// `stream_uri` says of what the stream holds.
pub fn pdf_stream_to_data_uri(stream: &Stream) -> (r: Result<String, String>)
    ensures
        result_text(r) == stream_uri(stream_facts(*stream)),
{
    let info = image_stream_info(stream);
    image_stream_to_data_uri(&info)
}

/// A JPEG or PNG data URI.
pub open spec fn is_image_uri(u: Seq<char>) -> bool {
    exists|bytes: Seq<u8>|
        #![trigger spec_data_uri("image/jpeg"@, bytes)]
        #![trigger spec_data_uri("image/png"@, bytes)]
        spec_data_uri("image/jpeg"@, bytes) == u || spec_data_uri("image/png"@, bytes) == u
}

/// Every data URI that a stream converts to is a JPEG or PNG one.
pub proof fn lemma_stream_uri_is_image(f: ImageStreamFacts)
    ensures
        stream_uri(f) matches Ok(u) ==> is_image_uri(u),
{
    match stream_uri(f) {
        Ok(u) => {
            match spec_plan(f) {
                SpecPlan::Jpeg => {
                    assert(spec_data_uri("image/jpeg"@, f.content) == u);
                },
                SpecPlan::ShrinkJpeg => {
                    match decoded_guessing_format(f.content) {
                        Ok(c) => {
                            let png = png_payload(fitted(c, 2048));
                            assert(spec_data_uri("image/png"@, png) == u);
                        },
                        Err(_) => {
                            assert(spec_data_uri("image/jpeg"@, f.content) == u);
                        },
                    }
                },
                SpecPlan::Encode(w, h, d, ch) => {
                    let png = png_rgba(w, h, image_rgba(w, h, d, ch));
                    assert(spec_data_uri("image/png"@, png) == u);
                },
                SpecPlan::Fail(_) => {},
            }
        },
        Err(_) => {},
    }
}

/// Whether a name is `Image`.
fn is_image_name(name: &Option<Vec<u8>>) -> (b: bool)
    ensures
        b <==> (name matches Some(n) && n@ == seq![73u8, 109u8, 97u8, 103u8, 101u8]),
{
    match name {
        Some(n) => {
            if n.len() != 5 {
                return false;
            }
            let r = n[0] == 73 && n[1] == 109 && n[2] == 97 && n[3] == 103 && n[4] == 101;
            assert(r ==> n@ =~= seq![73u8, 109u8, 97u8, 103u8, 101u8]);
            r
        },
        None => false,
    }
}

/// Most images taken from one PDF, so as not to flood the request.
pub const MAX_PDF_IMAGES: usize = 20;

/// A stream whose `Subtype` is the name `Image`.
pub open spec fn is_image_stream(
    p: (
        Map<Seq<char>, i64>,
        Map<Seq<char>, Seq<u8>>,
        Map<Seq<char>, i64>,
        Option<Seq<Seq<u8>>>,
        Seq<u8>,
        Option<Seq<u8>>,
    ),
) -> bool {
    p.1.contains_key("Subtype"@) && p.1["Subtype"@] == seq![73u8, 109u8, 97u8, 103u8, 101u8]
}

/// The data URIs of the image streams among the first `n` objects `objs`
/// that convert, in order, no more once `MAX_PDF_IMAGES` are taken.
pub open spec fn images_collected(
    objs: Seq<
        Option<
            (
                Map<Seq<char>, i64>,
                Map<Seq<char>, Seq<u8>>,
                Map<Seq<char>, i64>,
                Option<Seq<Seq<u8>>>,
                Seq<u8>,
                Option<Seq<u8>>,
            ),
        >,
    >,
    n: int,
) -> Seq<Seq<char>>
    decreases n,
{
    if n <= 0 || n > objs.len() {
        seq![]
    } else {
        let prev = images_collected(objs, n - 1);
        if prev.len() >= MAX_PDF_IMAGES {
            prev
        } else {
            match objs[n - 1] {
                Some(p) => if is_image_stream(p) && stream_uri(facts_of_parts(p)) is Ok {
                    prev.push(stream_uri(facts_of_parts(p))->Ok_0)
                } else {
                    prev
                },
                None => prev,
            }
        }
    }
}

/// The embedded images of a document (see `images_collected`).
pub open spec fn document_images(doc: Document) -> Seq<Seq<char>> {
    images_collected(document_object_streams(doc), document_object_streams(doc).len() as int)
}

/// Once `MAX_PDF_IMAGES` are taken, later objects add none.
proof fn lemma_images_full(
    objs: Seq<
        Option<
            (
                Map<Seq<char>, i64>,
                Map<Seq<char>, Seq<u8>>,
                Map<Seq<char>, i64>,
                Option<Seq<Seq<u8>>>,
                Seq<u8>,
                Option<Seq<u8>>,
            ),
        >,
    >,
    i: int,
    j: int,
)
    requires
        0 < i <= j <= objs.len(),
        images_collected(objs, i).len() >= MAX_PDF_IMAGES,
    ensures
        images_collected(objs, j) == images_collected(objs, i),
    decreases j - i,
{
    if j > i {
        lemma_images_full(objs, i, j - 1);
    }
}

/// The embedded images of a PDF (streams whose `Subtype` is `Image`) that can
/// be converted, as data URIs, in object order; at most `MAX_PDF_IMAGES`.
pub fn pdf_images(doc: &Document) -> (r: Vec<String>)
    ensures
        r@.map_values(|u: String| u@) == document_images(*doc),
        r@.len() <= MAX_PDF_IMAGES,
        forall|i: int| 0 <= i < r@.len() ==> is_image_uri(#[trigger] r@[i]@),
{
    let objects = pdf_object_streams(doc);
    let ghost objs = document_object_streams(*doc);
    let mut out: Vec<String> = Vec::new();
    let mut i: usize = 0;
    while i < objects.len()
        invariant
            i <= objects@.len(),
            objs == document_object_streams(*doc),
            objects@.len() == objs.len(),
            forall|k: int| 0 <= k < objects@.len() ==> (#[trigger] objects@[k] is Some <==> objs[k] is Some),
            forall|k: int|
                0 <= k < objects@.len() && #[trigger] objects@[k] is Some ==> stream_parts(*objects@[k]->0)
                    == objs[k]->0,
            out@.len() < MAX_PDF_IMAGES,
            out@.map_values(|u: String| u@) == images_collected(objs, i as int),
            forall|j: int| 0 <= j < out@.len() ==> is_image_uri(#[trigger] out@[j]@),
        decreases objects@.len() - i,
    {
        let ghost before = out@;
        let item = objects[i];
        match item {
            None => {},
            Some(stream) => {
                let subtype = stream_name_entry(stream, "Subtype");
                if is_image_name(&subtype) {
                    let converted = pdf_stream_to_data_uri(stream);
                    proof {
                        lemma_stream_uri_is_image(stream_facts(*stream));
                    }
                    match converted {
                        Ok(uri) => {
                            out.push(uri);
                            assert(out@.map_values(|u: String| u@) =~= before.map_values(
                                |u: String| u@,
                            ).push(uri@));
                        },
                        Err(_) => {},
                    }
                }
            },
        }
        i += 1;
        if out.len() >= MAX_PDF_IMAGES {
            proof {
                lemma_images_full(objs, i as int, objs.len() as int);
            }
            return out;
        }
    }
    out
}

} // verus!
