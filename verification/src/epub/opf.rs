//! EPUB 3 package document (`content.opf`).
//!
//! Holds the Dublin Core metadata, the manifest (every file of the
//! archive with its media type and properties) and the spine (reading
//! order).
use vstd::prelude::*;

use time::OffsetDateTime;
use uuid::Uuid;
use vstd::string::StringSliceAdditionalSpecFns;
use vstd::utf8::encode_utf8;

use crate::epub::escape::{self, escape_attribute, escape_text};
use crate::epub::paths::{self, back_matter_file, chapter_file, front_matter_file};
use crate::ir::{opt_view, Book, BookMeta};
use crate::text::{decimal, decimal_pad3, decimal_padded, push_decimal, push_decimal_pad3, push_decimal_padded};

verus! {

broadcast use vstd::string::group_string_axioms;

/// A UTC date and time, to the second.
#[derive(Debug, Clone, Copy)]
pub struct UtcTimestamp {
    pub year: i32,
    pub month: u8,
    pub day: u8,
    pub hour: u8,
    pub minute: u8,
    pub second: u8,
}

/// The current UTC time, read with `time::OffsetDateTime::now_utc`. The
/// result depends on the clock; what holds of every outcome is that the
/// fields are in the ranges that the `time` crate's dates and times keep
/// (the year within ±999,999 whether or not its `large-dates` feature is
/// on). Which time it is stays unsaid.
#[verifier::external_body]
fn utc_now() -> (t: UtcTimestamp)
    ensures
        -999999 <= t.year <= 999999,
        1 <= t.month <= 12,
        1 <= t.day <= 31,
        t.hour < 24,
        t.minute < 60,
        t.second < 60,
{
    let now = OffsetDateTime::now_utc();
    UtcTimestamp {
        year: now.year(),
        month: now.month() as u8,
        day: now.day(),
        hour: now.hour(),
        minute: now.minute(),
        second: now.second(),
    }
}

/// The version-5 UUID of `name` in the URL namespace, in hyphenated
/// lower-case form: the text of `Uuid::new_v5(&Uuid::NAMESPACE_URL, name)`.
pub uninterp spec fn uuid_v5_url(name: Seq<u8>) -> Seq<char>;

/// `uuid::Uuid::new_v5` in the URL namespace, converted to its text form.
/// The UUID is a function of `name` alone.
#[verifier::external_body]
fn uuid_v5_url_text(name: &[u8]) -> (s: String)
    ensures
        s@ == uuid_v5_url(name@),
{
    Uuid::new_v5(&Uuid::NAMESPACE_URL, name).to_string()
}

/// `YYYY-MM-DDThh:mm:ssZ`, the form `dcterms:modified` requires.
pub open spec fn dcterms_stamp(t: UtcTimestamp) -> Seq<char> {
    (if t.year < 0 {
        "-"@
    } else {
        seq![]
    }) + decimal_padded(
        (if t.year < 0 {
            -t.year
        } else {
            t.year as int
        }) as nat,
        4,
    ) + "-"@ + decimal_padded(t.month as nat, 2) + "-"@ + decimal_padded(t.day as nat, 2) + "T"@
        + decimal_padded(t.hour as nat, 2) + ":"@ + decimal_padded(t.minute as nat, 2) + ":"@
        + decimal_padded(t.second as nat, 2) + "Z"@
}

pub fn format_dcterms(t: &UtcTimestamp) -> (s: String)
    ensures
        s@ == dcterms_stamp(*t),
{
    let mut s = String::new();
    let year_abs: u64 = if t.year < 0 {
        s.append("-");
        (0i64 - t.year as i64) as u64
    } else {
        t.year as u64
    };
    push_decimal_padded(&mut s, year_abs, 4);
    s.append("-");
    push_decimal_padded(&mut s, t.month as u64, 2);
    s.append("-");
    push_decimal_padded(&mut s, t.day as u64, 2);
    s.append("T");
    push_decimal_padded(&mut s, t.hour as u64, 2);
    s.append(":");
    push_decimal_padded(&mut s, t.minute as u64, 2);
    s.append(":");
    push_decimal_padded(&mut s, t.second as u64, 2);
    s.append("Z");
    assert(s@ =~= dcterms_stamp(*t));
    s
}

/// `title|author|year`, the name from which a book without an e-book ISBN
/// gets its UUID.
pub open spec fn identifier_seed(meta: BookMeta) -> Seq<char> {
    meta.title@ + "|"@ + meta.author@ + "|"@ + decimal(meta.copyright.year as nat)
}

/// The book's unique identifier: its e-book ISBN as a URN when it has one,
/// else a UUID derived from title, author and year (so the same metadata
/// always gives the same identifier).
pub open spec fn book_identifier_text(meta: BookMeta) -> Seq<char> {
    match meta.copyright.isbn_epub {
        Some(isbn) => "urn:isbn:"@ + isbn@,
        None => "urn:uuid:"@ + uuid_v5_url(encode_utf8(identifier_seed(meta))),
    }
}

/// The identifier depends only on the e-book ISBN, the title, the author
/// and the copyright year: rebuilding a book whose metadata agrees on
/// those keeps its identifier, whatever the time or the other fields.
pub proof fn book_identifier_is_stable(a: BookMeta, b: BookMeta)
    requires
        opt_view(a.copyright.isbn_epub) == opt_view(b.copyright.isbn_epub),
        a.title@ == b.title@,
        a.author@ == b.author@,
        a.copyright.year == b.copyright.year,
    ensures
        book_identifier_text(a) == book_identifier_text(b),
{
    assert(identifier_seed(a) == identifier_seed(b));
}

pub fn book_identifier(meta: &BookMeta) -> (id: String)
    ensures
        id@ == book_identifier_text(*meta),
{
    match &meta.copyright.isbn_epub {
        Some(isbn) => {
            let mut id = String::from_str("urn:isbn:");
            id.append(isbn.as_str());
            id
        },
        None => {
            let mut seed = String::new();
            seed.append(meta.title.as_str());
            seed.append("|");
            seed.append(meta.author.as_str());
            seed.append("|");
            push_decimal(&mut seed, meta.copyright.year as u64);
            assert(seed@ =~= identifier_seed(*meta));
            let uuid = uuid_v5_url_text(seed.as_str().as_bytes());
            let mut id = String::from_str("urn:uuid:");
            id.append(uuid.as_str());
            id
        },
    }
}

pub open spec fn metadata_text(book: Book, lang: Seq<char>, modified: Seq<char>) -> Seq<char> {
    let meta = book.meta;
    let year = decimal(meta.copyright.year as nat);
    "  <metadata xmlns:dc=\"http://purl.org/dc/elements/1.1/\">\n"@
        + "    <dc:identifier id=\"pub-id\">"@ + escape_text(book_identifier_text(meta))
        + "</dc:identifier>\n"@ + "    <dc:title>"@ + escape_text(meta.title@) + "</dc:title>\n"@
        + "    <dc:creator>"@ + escape_text(meta.author@) + "</dc:creator>\n"@
        + "    <dc:language>"@ + lang + "</dc:language>\n"@ + "    <dc:date>"@ + year
        + "</dc:date>\n"@ + "    <dc:publisher>"@ + escape_text(meta.copyright.publisher@)
        + "</dc:publisher>\n"@ + "    <dc:rights>Copyright \u{00A9} "@ + year + " "@ + escape_text(
        meta.copyright.holder@,
    ) + "</dc:rights>\n"@ + "    <meta property=\"dcterms:modified\">"@ + modified
        + "</meta>\n"@ + (if book.cover is Some {
        "    <meta name=\"cover\" content=\"cover-image\"/>\n"@
    } else {
        seq![]
    }) + "  </metadata>\n"@
}

/// The file name of page `i` of a section: 0 front matter, 1 chapters,
/// 2 back matter.
pub open spec fn section_file(kind: int, i: nat) -> Seq<char> {
    if kind == 0 {
        front_matter_file(i)
    } else if kind == 1 {
        chapter_file(i)
    } else {
        back_matter_file(i)
    }
}

/// The manifest id prefix of a section.
pub open spec fn section_id(kind: int) -> Seq<char> {
    if kind == 0 {
        "front-"@
    } else if kind == 1 {
        "chapter-"@
    } else {
        "back-"@
    }
}

/// Manifest items for the first `n` pages of a section.
pub open spec fn manifest_items(kind: int, n: nat) -> Seq<char>
    decreases n,
{
    if n == 0 {
        seq![]
    } else {
        let i = (n - 1) as nat;
        manifest_items(kind, i) + "    <item id=\""@ + section_id(kind) + decimal_pad3(i + 1)
            + "\" href=\""@ + section_file(kind, i) + "\" media-type=\"application/xhtml+xml\"/>\n"@
    }
}

/// The manifest line of the page whose id is `id`: its href is the file
/// named after the id.
pub open spec fn page_item_line(id: Seq<char>) -> Seq<char> {
    "    <item id=\""@ + id + "\" href=\""@ + id + ".xhtml"@ + "\" media-type=\"application/xhtml+xml\"/>\n"@
}

/// Each page of a section gets one manifest item whose href is the file
/// of that page: item `front-NNN` points at `front-NNN.xhtml`, item
/// `chapter-NNN` at `chapter-NNN.xhtml`, item `back-NNN` at
/// `back-NNN.xhtml`, the pages numbered from 1 in order.
pub proof fn manifest_items_point_at_their_pages(kind: int, n: nat)
    requires
        0 <= kind < 3,
        n > 0,
    ensures
        manifest_items(kind, n) == manifest_items(kind, (n - 1) as nat) + page_item_line(
            section_id(kind) + decimal_pad3(n),
        ),
{
    let i = (n - 1) as nat;
    assert(i + 1 == n);
    assert(section_file(kind, i) == section_id(kind) + decimal_pad3(n) + ".xhtml"@);
    assert(manifest_items(kind, n) =~= manifest_items(kind, i) + page_item_line(
        section_id(kind) + decimal_pad3(n),
    ));
}

/// Spine references for the first `n` pages of a section.
pub open spec fn spine_refs(kind: int, n: nat) -> Seq<char>
    decreases n,
{
    if n == 0 {
        seq![]
    } else {
        let i = (n - 1) as nat;
        spine_refs(kind, i) + "    <itemref idref=\""@ + section_id(kind) + decimal_pad3(i + 1)
            + "\"/>\n"@
    }
}

pub open spec fn manifest_text(book: Book) -> Seq<char> {
    "  <manifest>\n"@ + match book.cover {
        Some(c) => "    <item id=\"cover-image\" href=\"cover.jpg\" media-type=\""@ + c.mime@
            + "\" properties=\"cover-image\"/>\n"@,
        None => seq![],
    } + "    <item id=\"theme-css\" href=\"theme.css\" media-type=\"text/css\"/>\n"@
        + "    <item id=\"nav\" href=\"nav.xhtml\" media-type=\"application/xhtml+xml\" properties=\"nav\"/>\n"@
        + (if book.cover is Some {
        "    <item id=\"cover\" href=\"cover.xhtml\" media-type=\"application/xhtml+xml\"/>\n"@
    } else {
        seq![]
    }) + "    <item id=\"title\" href=\"title.xhtml\" media-type=\"application/xhtml+xml\"/>\n"@
        + "    <item id=\"copyright\" href=\"copyright.xhtml\" media-type=\"application/xhtml+xml\"/>\n"@
        + manifest_items(0, book.front_matter@.len()) + manifest_items(1, book.chapters@.len())
        + manifest_items(2, book.back_matter@.len()) + "  </manifest>\n"@
}

pub open spec fn spine_text(book: Book) -> Seq<char> {
    "  <spine>\n"@ + (if book.cover is Some {
        "    <itemref idref=\"cover\"/>\n"@
    } else {
        seq![]
    }) + "    <itemref idref=\"title\"/>\n"@ + "    <itemref idref=\"copyright\"/>\n"@
        + "    <itemref idref=\"nav\"/>\n"@ + spine_refs(0, book.front_matter@.len()) + spine_refs(
        1,
        book.chapters@.len(),
    ) + spine_refs(2, book.back_matter@.len()) + "  </spine>\n"@
}

/// The whole package document of `book`, last modified at `modified`.
pub open spec fn opf_text(book: Book, modified: Seq<char>) -> Seq<char> {
    let lang = escape_attribute(book.meta.language@);
    "<?xml version=\"1.0\" encoding=\"UTF-8\"?>\n"@
        + "<package xmlns=\"http://www.idpf.org/2007/opf\" version=\"3.0\" unique-identifier=\"pub-id\" xml:lang=\""@
        + lang + "\">\n"@ + metadata_text(book, lang, modified) + manifest_text(book)
        + spine_text(book) + "</package>\n"@
}

#[verifier::rlimit(50)]
fn write_metadata(out: &mut String, book: &Book, lang: &String, modified: &String)
    ensures
        final(out)@ == old(out)@ + metadata_text(*book, lang@, modified@),
{
    let ghost start = out@;
    let identifier = book_identifier(&book.meta);
    out.append("  <metadata xmlns:dc=\"http://purl.org/dc/elements/1.1/\">\n");
    out.append("    <dc:identifier id=\"pub-id\">");
    let e = escape::text(identifier.as_str());
    out.append(e.as_str());
    out.append("</dc:identifier>\n");
    out.append("    <dc:title>");
    let e = escape::text(book.meta.title.as_str());
    out.append(e.as_str());
    out.append("</dc:title>\n");
    out.append("    <dc:creator>");
    let e = escape::text(book.meta.author.as_str());
    out.append(e.as_str());
    out.append("</dc:creator>\n");
    out.append("    <dc:language>");
    out.append(lang.as_str());
    out.append("</dc:language>\n");
    out.append("    <dc:date>");
    push_decimal(out, book.meta.copyright.year as u64);
    out.append("</dc:date>\n");
    out.append("    <dc:publisher>");
    let e = escape::text(book.meta.copyright.publisher.as_str());
    out.append(e.as_str());
    out.append("</dc:publisher>\n");
    out.append("    <dc:rights>Copyright \u{00A9} ");
    push_decimal(out, book.meta.copyright.year as u64);
    out.append(" ");
    let e = escape::text(book.meta.copyright.holder.as_str());
    out.append(e.as_str());
    out.append("</dc:rights>\n");
    out.append("    <meta property=\"dcterms:modified\">");
    out.append(modified.as_str());
    out.append("</meta>\n");
    if book.cover.is_some() {
        out.append("    <meta name=\"cover\" content=\"cover-image\"/>\n");
    }
    out.append("  </metadata>\n");
    assert(out@ =~= start + metadata_text(*book, lang@, modified@));
}

fn section_page_file(kind: u8, i: usize) -> (s: String)
    requires
        kind < 3,
        i < usize::MAX,
    ensures
        s@ == section_file(kind as int, i as nat),
{
    if kind == 0 {
        paths::front_matter(i)
    } else if kind == 1 {
        paths::chapter(i)
    } else {
        paths::back_matter(i)
    }
}

fn section_id_of(kind: u8) -> (s: &'static str)
    requires
        kind < 3,
    ensures
        s@ == section_id(kind as int),
{
    if kind == 0 {
        "front-"
    } else if kind == 1 {
        "chapter-"
    } else {
        "back-"
    }
}

fn write_manifest_items(out: &mut String, kind: u8, n: usize)
    requires
        kind < 3,
    ensures
        final(out)@ == old(out)@ + manifest_items(kind as int, n as nat),
{
    let ghost start = out@;
    let mut i: usize = 0;
    while i < n
        invariant
            kind < 3,
            i <= n,
            out@ == start + manifest_items(kind as int, i as nat),
        decreases n - i,
    {
        let ghost before = out@;
        out.append("    <item id=\"");
        out.append(section_id_of(kind));
        push_decimal_pad3(out, (i + 1) as u64);
        out.append("\" href=\"");
        let file = section_page_file(kind, i);
        out.append(file.as_str());
        out.append("\" media-type=\"application/xhtml+xml\"/>\n");
        assert(out@ =~= start + manifest_items(kind as int, (i + 1) as nat));
        i = i + 1;
    }
}

fn write_spine_refs(out: &mut String, kind: u8, n: usize)
    requires
        kind < 3,
    ensures
        final(out)@ == old(out)@ + spine_refs(kind as int, n as nat),
{
    let ghost start = out@;
    let mut i: usize = 0;
    while i < n
        invariant
            kind < 3,
            i <= n,
            out@ == start + spine_refs(kind as int, i as nat),
        decreases n - i,
    {
        out.append("    <itemref idref=\"");
        out.append(section_id_of(kind));
        push_decimal_pad3(out, (i + 1) as u64);
        out.append("\"/>\n");
        assert(out@ =~= start + spine_refs(kind as int, (i + 1) as nat));
        i = i + 1;
    }
}

#[verifier::rlimit(100)]
#[verifier::spinoff_prover]
fn write_manifest(out: &mut String, book: &Book)
    ensures
        final(out)@ == old(out)@ + manifest_text(*book),
{
    let ghost start = out@;
    out.append("  <manifest>\n");
    match &book.cover {
        Some(cover) => {
            out.append("    <item id=\"cover-image\" href=\"cover.jpg\" media-type=\"");
            out.append(cover.mime);
            out.append("\" properties=\"cover-image\"/>\n");
        },
        None => {},
    }
    out.append("    <item id=\"theme-css\" href=\"theme.css\" media-type=\"text/css\"/>\n");
    out.append(
        "    <item id=\"nav\" href=\"nav.xhtml\" media-type=\"application/xhtml+xml\" properties=\"nav\"/>\n",
    );
    if book.cover.is_some() {
        out.append(
            "    <item id=\"cover\" href=\"cover.xhtml\" media-type=\"application/xhtml+xml\"/>\n",
        );
    }
    out.append(
        "    <item id=\"title\" href=\"title.xhtml\" media-type=\"application/xhtml+xml\"/>\n",
    );
    out.append(
        "    <item id=\"copyright\" href=\"copyright.xhtml\" media-type=\"application/xhtml+xml\"/>\n",
    );
    write_manifest_items(out, 0, book.front_matter.len());
    write_manifest_items(out, 1, book.chapters.len());
    write_manifest_items(out, 2, book.back_matter.len());
    out.append("  </manifest>\n");
    assert(out@ =~= start + manifest_text(*book));
}

fn write_spine(out: &mut String, book: &Book)
    ensures
        final(out)@ == old(out)@ + spine_text(*book),
{
    let ghost start = out@;
    out.append("  <spine>\n");
    if book.cover.is_some() {
        out.append("    <itemref idref=\"cover\"/>\n");
    }
    out.append("    <itemref idref=\"title\"/>\n");
    out.append("    <itemref idref=\"copyright\"/>\n");
    out.append("    <itemref idref=\"nav\"/>\n");
    write_spine_refs(out, 0, book.front_matter.len());
    write_spine_refs(out, 1, book.chapters.len());
    write_spine_refs(out, 2, book.back_matter.len());
    out.append("  </spine>\n");
    assert(out@ =~= start + spine_text(*book));
}

/// The package document of `book` with `modified` as its
/// `dcterms:modified` time.
pub fn build_at(book: &Book, modified: &UtcTimestamp) -> (opf: String)
    ensures
        opf@ == opf_text(*book, dcterms_stamp(*modified)),
{
    let stamp = format_dcterms(modified);
    let lang = escape::attribute(book.meta.language.as_str());
    let mut out = String::from_str("<?xml version=\"1.0\" encoding=\"UTF-8\"?>\n");
    out.append(
        "<package xmlns=\"http://www.idpf.org/2007/opf\" version=\"3.0\" unique-identifier=\"pub-id\" xml:lang=\"",
    );
    out.append(lang.as_str());
    out.append("\">\n");
    write_metadata(&mut out, book, &lang, &stamp);
    write_manifest(&mut out, book);
    write_spine(&mut out, book);
    out.append("</package>\n");
    assert(out@ =~= opf_text(*book, dcterms_stamp(*modified)));
    out
}

/// `opf` is the package document of `book`, stamped with some valid UTC
/// time (the time it was built).
pub open spec fn opf_stamped_now(opf: Seq<char>, book: Book) -> bool {
    exists|t: UtcTimestamp|
        {
            &&& 1 <= t.month <= 12
            &&& 1 <= t.day <= 31
            &&& t.hour < 24
            &&& t.minute < 60
            &&& t.second < 60
            &&& opf == opf_text(book, #[trigger] dcterms_stamp(t))
        }
}

/// The package document of `book`, stamped with the current UTC time.
pub fn build(book: &Book) -> (opf: String)
    ensures
        opf_stamped_now(opf@, *book),
{
    let now = utc_now();
    build_at(book, &now)
}

} // verus!
