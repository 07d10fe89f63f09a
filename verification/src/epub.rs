//! EPUB attachments: the text of the (X)HTML chapters of the archive.

use vstd::prelude::*;
use std::io::{Cursor, Read};
use zip::ZipArchive;
use crate::files::{spec_strip_html, strip_html};
use crate::text::{
    ascii_lower, ascii_lowercase_chars, chars_of, ends_with, ends_with_chars, is_blank, push_char,
    trim,
};

verus! {

#[verifier::external_type_specification]
#[verifier::external_body]
#[verifier::reject_recursive_types(T)]
pub struct ExCursor<T>(Cursor<T>);

#[verifier::external_type_specification]
#[verifier::external_body]
#[verifier::reject_recursive_types(R)]
pub struct ExZipArchive<R>(ZipArchive<R>);

/// An archive read from bytes in memory.
pub type MemoryArchive = ZipArchive<Cursor<Vec<u8>>>;

/// An entry of an archive as reading it gives it: the outcome of reading its
/// name, and the outcome of reading its content as text.
pub type EntryRead = (Result<Seq<char>, Seq<char>>, Result<Seq<char>, Seq<char>>);

/// What zip reads from `bytes`: the error of opening them as an archive, or
/// each entry as reading it gives it, in the archive's order.
pub uninterp spec fn zip_contents(bytes: Seq<u8>) -> Result<Seq<EntryRead>, Seq<char>>;

/// The entries of an opened archive, as reading them gives them.
pub uninterp spec fn archive_entries(archive: ZipArchive<Cursor<Vec<u8>>>) -> Seq<EntryRead>;

/// `ZipArchive::new` over the bytes of an archive: trusted, as zip reads
/// the archive from the bytes alone, to give the error or the entries that
/// `zip_contents` names.
#[verifier::external_body]
fn zip_open(bytes: Vec<u8>) -> (r: Result<MemoryArchive, String>)
    ensures
        match r {
            Ok(a) => zip_contents(bytes@) == Ok::<Seq<EntryRead>, Seq<char>>(archive_entries(a)),
            Err(e) => zip_contents(bytes@) == Err::<Seq<EntryRead>, Seq<char>>(e@),
        },
{
    ZipArchive::new(Cursor::new(bytes)).map_err(|e| e.to_string())
}

/// `ZipArchive::len`: the number of entries.
#[verifier::external_body]
fn zip_len(archive: &MemoryArchive) -> (r: usize)
    ensures
        r == archive_entries(*archive).len(),
{
    archive.len()
}

/// `ZipArchive::by_index` then `ZipFile::name`: opens entry `i` and gives
/// its name. Reading moves only the archive's cursor: its entries stay.
#[verifier::external_body]
fn zip_entry_name(archive: &mut MemoryArchive, i: usize) -> (r: Result<String, String>)
    ensures
        archive_entries(*final(archive)) == archive_entries(*old(archive)),
        i < archive_entries(*old(archive)).len() ==> match r {
            Ok(n) => archive_entries(*old(archive))[i as int].0 == Ok::<Seq<char>, Seq<char>>(n@),
            Err(e) => archive_entries(*old(archive))[i as int].0 == Err::<Seq<char>, Seq<char>>(e@),
        },
{
    let entry = archive.by_index(i).map_err(|e| e.to_string())?;
    entry.name().map(|n| n.into_owned()).map_err(|e| e.to_string())
}

/// `ZipArchive::by_index` then `Read::read_to_string`: the decompressed
/// content of entry `i` as text. Reading moves only the archive's cursor:
/// its entries stay.
#[verifier::external_body]
fn zip_entry_text(archive: &mut MemoryArchive, i: usize) -> (r: Result<String, String>)
    ensures
        archive_entries(*final(archive)) == archive_entries(*old(archive)),
        i < archive_entries(*old(archive)).len() ==> match r {
            Ok(t) => archive_entries(*old(archive))[i as int].1 == Ok::<Seq<char>, Seq<char>>(t@),
            Err(e) => archive_entries(*old(archive))[i as int].1 == Err::<Seq<char>, Seq<char>>(e@),
        },
{
    let mut entry = archive.by_index(i).map_err(|e| e.to_string())?;
    let mut s = String::new();
    entry.read_to_string(&mut s).map(|_| s).map_err(|e| e.to_string())
}

/// The raw chapters of `entries`, in order, or the first failure to read an
/// entry's name or a chapter's text.
pub open spec fn scan_entries(entries: Seq<EntryRead>) -> Result<Seq<Seq<char>>, Seq<char>>
    decreases entries.len(),
{
    if entries.len() == 0 {
        Ok(Seq::empty())
    } else {
        match scan_entries(entries.drop_last()) {
            Err(e) => Err(e),
            Ok(raws) => match entries.last().0 {
                Err(e) => Err(e),
                Ok(name) => if is_chapter_name(name) {
                    match entries.last().1 {
                        Err(e) => Err(e),
                        Ok(text) => Ok(raws.push(text)),
                    }
                } else {
                    Ok(raws)
                },
            },
        }
    }
}

/// A failure in the first `k` entries is the failure of the whole scan.
proof fn lemma_scan_error(entries: Seq<EntryRead>, k: int)
    requires
        0 <= k <= entries.len(),
        scan_entries(entries.subrange(0, k)) is Err,
    ensures
        scan_entries(entries) == scan_entries(entries.subrange(0, k)),
    decreases entries.len() - k,
{
    if k < entries.len() {
        let next = entries.subrange(0, k + 1);
        assert(next.drop_last() =~= entries.subrange(0, k));
        lemma_scan_error(entries, k + 1);
    } else {
        assert(entries.subrange(0, k) =~= entries);
    }
}

/// What `epub_text_of_chapters` gives for the raw chapters `raws`.
pub open spec fn spec_chapters_outcome(raws: Seq<Seq<char>>) -> Result<Seq<char>, Seq<char>> {
    let t = chapters_text(raws);
    if trim(t).len() == 0 {
        Err(no_epub_text())
    } else {
        Ok(t)
    }
}

/// The text of the EPUB file `bytes`, or why there is none.
pub open spec fn spec_epub_text(bytes: Seq<u8>) -> Result<Seq<char>, Seq<char>> {
    match zip_contents(bytes) {
        Err(e) => Err(e),
        Ok(entries) => match scan_entries(entries) {
            Err(e) => Err(e),
            Ok(raws) => spec_chapters_outcome(raws),
        },
    }
}

/// The name of an (X)HTML chapter: in ASCII lowercase it ends with
/// `.xhtml`, `.html` or `.htm`.
pub open spec fn is_chapter_name(name: Seq<char>) -> bool {
    let lower = name.map_values(|c: char| ascii_lower(c));
    ends_with(lower, ".xhtml"@) || ends_with(lower, ".html"@) || ends_with(lower, ".htm"@)
}

/// Every name that ends with `.xhtml`, `.html` or `.htm`, in any ASCII
/// case, is that of a chapter; one that ends with `.css` or `.opf` is not.
pub proof fn law_chapter_names(stem: Seq<char>)
    ensures
        is_chapter_name(stem + ".xhtml"@),
        is_chapter_name(stem + ".html"@),
        is_chapter_name(stem + ".htm"@),
        is_chapter_name(stem + ".XHTML"@),
        is_chapter_name(stem + ".HTML"@),
        is_chapter_name(stem + ".Htm"@),
        !is_chapter_name(stem + ".css"@),
        !is_chapter_name(stem + ".opf"@),
{
    reveal_strlit(".xhtml");
    reveal_strlit(".html");
    reveal_strlit(".htm");
    reveal_strlit(".XHTML");
    reveal_strlit(".HTML");
    reveal_strlit(".Htm");
    reveal_strlit(".css");
    reveal_strlit(".opf");
    assert(".xhtml"@.map_values(|c: char| ascii_lower(c)) =~= ".xhtml"@);
    lemma_lower_suffix(stem, ".xhtml"@, ".xhtml"@);
    assert(".html"@.map_values(|c: char| ascii_lower(c)) =~= ".html"@);
    lemma_lower_suffix(stem, ".html"@, ".html"@);
    assert(".htm"@.map_values(|c: char| ascii_lower(c)) =~= ".htm"@);
    lemma_lower_suffix(stem, ".htm"@, ".htm"@);
    assert(".XHTML"@.map_values(|c: char| ascii_lower(c)) =~= ".xhtml"@);
    lemma_lower_suffix(stem, ".XHTML"@, ".xhtml"@);
    assert(".HTML"@.map_values(|c: char| ascii_lower(c)) =~= ".html"@);
    lemma_lower_suffix(stem, ".HTML"@, ".html"@);
    assert(".Htm"@.map_values(|c: char| ascii_lower(c)) =~= ".htm"@);
    lemma_lower_suffix(stem, ".Htm"@, ".htm"@);
    assert(".css"@.map_values(|c: char| ascii_lower(c)) =~= ".css"@);
    lemma_lower_suffix(stem, ".css"@, ".css"@);
    assert(".opf"@.map_values(|c: char| ascii_lower(c)) =~= ".opf"@);
    lemma_lower_suffix(stem, ".opf"@, ".opf"@);
    let css = (stem + ".css"@).map_values(|c: char| ascii_lower(c));
    let opf = (stem + ".opf"@).map_values(|c: char| ascii_lower(c));
    lemma_last_char_differs(css, 's');
    lemma_last_char_differs(opf, 'f');
}

/// A text whose last character is `c` (neither `l` nor `m`) ends with none
/// of the chapter suffixes.
proof fn lemma_last_char_differs(s: Seq<char>, c: char)
    requires
        s.len() > 0,
        s[s.len() - 1] == c,
        c != 'l' && c != 'm',
    ensures
        !(ends_with(s, ".xhtml"@) || ends_with(s, ".html"@) || ends_with(s, ".htm"@)),
{
    reveal_strlit(".xhtml");
    reveal_strlit(".html");
    reveal_strlit(".htm");
    if ends_with(s, ".xhtml"@) {
        assert(s.subrange(s.len() - 6, s.len() as int)[5] == s[s.len() - 1]);
    }
    if ends_with(s, ".html"@) {
        assert(s.subrange(s.len() - 5, s.len() as int)[4] == s[s.len() - 1]);
    }
    if ends_with(s, ".htm"@) {
        assert(s.subrange(s.len() - 4, s.len() as int)[3] == s[s.len() - 1]);
    }
}

/// Lowering a name whose suffix lowers to `lower` gives a name that ends
/// with `lower`.
proof fn lemma_lower_suffix(stem: Seq<char>, suffix: Seq<char>, lower: Seq<char>)
    requires
        suffix.map_values(|c: char| ascii_lower(c)) == lower,
    ensures
        ends_with((stem + suffix).map_values(|c: char| ascii_lower(c)), lower),
{
    let l = (stem + suffix).map_values(|c: char| ascii_lower(c));
    assert(l.subrange(l.len() - lower.len(), l.len() as int) =~= lower) by {
        assert forall|k: int| 0 <= k < lower.len() implies l.subrange(
            l.len() - lower.len(),
            l.len() as int,
        )[k] == lower[k] by {
            assert(l[stem.len() + k] == ascii_lower((stem + suffix)[stem.len() + k]));
            assert((stem + suffix)[stem.len() + k] == suffix[k]);
        }
    }
}

/// Whether `name` is that of an (X)HTML chapter.
pub fn is_chapter(name: &str) -> (b: bool)
    ensures
        b == is_chapter_name(name@),
{
    let lower = ascii_lowercase_chars(&chars_of(name));
    ends_with_chars(&lower, &chars_of(".xhtml")) || ends_with_chars(&lower, &chars_of(".html"))
        || ends_with_chars(&lower, &chars_of(".htm"))
}

/// The text of a list of chapters: the plain text of each, followed by a
/// newline.
pub open spec fn chapters_text(raws: Seq<Seq<char>>) -> Seq<char>
    decreases raws.len(),
{
    if raws.len() == 0 {
        Seq::empty()
    } else {
        chapters_text(raws.drop_last()) + spec_strip_html(raws.last()).push('\n')
    }
}

/// Error when the chapters hold no text.
pub open spec fn no_epub_text() -> Seq<char> {
    "no se encontró texto en el EPUB (XHTML)"@
}

/// The text of an EPUB from the raw HTML of its chapters, in archive order:
/// an error when there is no text but whitespace.
pub fn epub_text_of_chapters(raws: &Vec<String>) -> (r: Result<String, String>)
    ensures
        ({
            let t = chapters_text(raws@.map_values(|s: String| s@));
            if trim(t).len() == 0 {
                r matches Err(e) && e@ == no_epub_text()
            } else {
                r matches Ok(s) && s@ == t
            }
        }),
{
    let ghost texts = raws@.map_values(|s: String| s@);
    let mut out = String::new();
    let mut i: usize = 0;
    while i < raws.len()
        invariant
            i <= raws@.len(),
            texts == raws@.map_values(|s: String| s@),
            chapters_text(texts.subrange(0, i as int)) == out@,
        decreases raws@.len() - i,
    {
        assert(texts.subrange(0, i + 1).drop_last() =~= texts.subrange(0, i as int));
        let c = strip_html(raws[i].as_str());
        out.append(c.as_str());
        push_char(&mut out, '\n');
        i += 1;
    }
    assert(texts.subrange(0, raws@.len() as int) =~= texts);
    if is_blank(out.as_str()) {
        Err("no se encontró texto en el EPUB (XHTML)".to_owned())
    } else {
        Ok(out)
    }
}

/// The text of an EPUB file: that of its (X)HTML chapters, in archive order.
pub fn epub_text(bytes: Vec<u8>) -> (r: Result<String, String>)
    ensures
        match spec_epub_text(bytes@) {
            Ok(t) => r matches Ok(s) && s@ == t,
            Err(e) => r matches Err(m) && m@ == e,
        },
        r matches Ok(s) ==> trim(s@).len() > 0 && exists|raws: Seq<Seq<char>>|
            #[trigger] chapters_text(raws) == s@,
{
    let ghost b = bytes@;
    let mut archive = match zip_open(bytes) {
        Ok(a) => a,
        Err(e) => {
            return Err(e);
        },
    };
    let ghost entries = archive_entries(archive);
    let n = zip_len(&archive);
    let mut raws: Vec<String> = Vec::new();
    let mut i: usize = 0;
    assert(entries.subrange(0, 0) =~= Seq::<EntryRead>::empty());
    assert(raws@.map_values(|s: String| s@) =~= Seq::<Seq<char>>::empty());
    while i < n
        invariant
            i <= n,
            n == entries.len(),
            zip_contents(b) == Ok::<Seq<EntryRead>, Seq<char>>(entries),
            b == bytes@,
            archive_entries(archive) == entries,
            scan_entries(entries.subrange(0, i as int)) == Ok::<Seq<Seq<char>>, Seq<char>>(
                raws@.map_values(|s: String| s@),
            ),
        decreases n - i,
    {
        assert(entries.subrange(0, i + 1).drop_last() =~= entries.subrange(0, i as int));
        assert(entries.subrange(0, i + 1).last() == entries[i as int]);
        let name = match zip_entry_name(&mut archive, i) {
            Ok(name) => name,
            Err(e) => {
                proof {
                    let p = entries.subrange(0, i + 1);
                    assert(p.drop_last() =~= entries.subrange(0, i as int));
                    assert(p.last() == entries[i as int]);
                    assert(entries[i as int].0 == Err::<Seq<char>, Seq<char>>(e@));
                    assert(scan_entries(p) == Err::<Seq<Seq<char>>, Seq<char>>(e@));
                    lemma_scan_error(entries, i + 1);
                }
                return Err(e);
            },
        };
        if is_chapter(name.as_str()) {
            match zip_entry_text(&mut archive, i) {
                Ok(raw) => {
                    let ghost before = raws@.map_values(|s: String| s@);
                    raws.push(raw);
                    assert(raws@.map_values(|s: String| s@) =~= before.push(raw@));
                },
                Err(e) => {
                    proof {
                        let p = entries.subrange(0, i + 1);
                        assert(p.drop_last() =~= entries.subrange(0, i as int));
                        assert(p.last() == entries[i as int]);
                        assert(entries[i as int].0 == Ok::<Seq<char>, Seq<char>>(name@));
                        assert(entries[i as int].1 == Err::<Seq<char>, Seq<char>>(e@));
                        assert(scan_entries(p) == Err::<Seq<Seq<char>>, Seq<char>>(e@));
                        lemma_scan_error(entries, i + 1);
                    }
                    return Err(e);
                },
            }
        }
        i += 1;
    }
    assert(entries.subrange(0, n as int) =~= entries);
    epub_text_of_chapters(&raws)
}

} // verus!
