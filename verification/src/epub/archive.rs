//! Layout of the EPUB archive.
//!
//! EPUB has two rigid layout requirements that other ZIP files do not:
//!
//! 1. The first entry must be `mimetype`, stored without compression,
//!    so that a reader can identify the file by peeking at its bytes.
//! 2. The package document and the content documents live under a
//!    sub-directory (`OEBPS/`) referenced from `META-INF/container.xml`.
//!
//! [`archive_entries`] lists the entries in the order they are written;
//! [`pack`] writes them, one after the other, with the `zip` crate.
use vstd::prelude::*;

use std::io::{Cursor, Write};
use zip::result::ZipError;

use crate::epub::EpubError;
use zip::write::{SimpleFileOptions, ZipWriter};
use zip::CompressionMethod;
use vstd::string::StringSliceAdditionalSpecFns;
use vstd::utf8::encode_utf8;

use crate::text::{decimal_pad3, decimal_padded_value, digits_value};

use crate::epub::paths::{
    self, back_matter_file, chapter_file, front_matter_file, COPYRIGHT_XHTML, COVER_IMAGE,
    COVER_XHTML, NAV_XHTML, STYLESHEET, TITLE_XHTML,
};

verus! {

broadcast use vstd::string::group_string_axioms;

pub const MIMETYPE: &'static str = "application/epub+zip";

pub const CONTAINER_XML: &'static str = "<?xml version=\"1.0\" encoding=\"UTF-8\"?>\n<container version=\"1.0\" xmlns=\"urn:oasis:names:tc:opendocument:xmlns:container\">\n  <rootfiles>\n    <rootfile full-path=\"OEBPS/content.opf\" media-type=\"application/oebps-package+xml\"/>\n  </rootfiles>\n</container>\n";

/// All the file contents that go into an EPUB, as the renderer assembles
/// them.
#[derive(Debug)]
pub struct EpubPackage<'a> {
    pub opf: String,
    pub nav: String,
    pub stylesheet: &'a str,
    pub title_xhtml: String,
    pub copyright_xhtml: String,
    /// The cover page and image, present together or not at all.
    pub cover: Option<CoverFiles<'a>>,
    pub front_matter_xhtml: Vec<String>,
    pub chapter_xhtml: Vec<String>,
    pub back_matter_xhtml: Vec<String>,
}

#[derive(Debug)]
pub struct CoverFiles<'a> {
    pub xhtml: String,
    pub image_bytes: &'a [u8],
}

/// How an archive entry is stored.
#[derive(Debug, Clone, Copy, PartialEq, Eq, Structural)]
pub enum Compression {
    Stored,
    Deflated,
}

/// One file of the archive, in the order it is written.
#[derive(Debug)]
pub struct ArchiveEntry<'a> {
    pub name: String,
    pub compression: Compression,
    pub data: &'a [u8],
}

pub struct EntryView {
    pub name: Seq<char>,
    pub compression: Compression,
    pub data: Seq<u8>,
}

impl<'a> View for ArchiveEntry<'a> {
    type V = EntryView;

    open spec fn view(&self) -> EntryView {
        EntryView { name: self.name@, compression: self.compression, data: self.data@ }
    }
}

/// `OEBPS/<name>`.
pub open spec fn oebps_path(name: Seq<char>) -> Seq<char> {
    "OEBPS/"@ + name
}

pub open spec fn deflated_text(name: Seq<char>, text: Seq<char>) -> EntryView {
    EntryView { name, compression: Compression::Deflated, data: encode_utf8(text) }
}

/// Entries for the XHTML pages of one section; `file(i)` names page `i`.
pub open spec fn section_entries(pages: Seq<String>, kind: int) -> Seq<EntryView>
    decreases pages.len(),
{
    if pages.len() == 0 {
        seq![]
    } else {
        let i = (pages.len() - 1) as nat;
        let file = if kind == 0 {
            front_matter_file(i)
        } else if kind == 1 {
            chapter_file(i)
        } else {
            back_matter_file(i)
        };
        section_entries(pages.drop_last(), kind).push(deflated_text(oebps_path(file), pages.last()@))
    }
}

/// Every entry of the archive of `pkg`, in order.
pub open spec fn package_entries(pkg: EpubPackage) -> Seq<EntryView> {
    seq![
        EntryView { name: "mimetype"@, compression: Compression::Stored, data: encode_utf8(MIMETYPE@) },
        deflated_text("META-INF/container.xml"@, CONTAINER_XML@),
        deflated_text("OEBPS/content.opf"@, pkg.opf@),
        deflated_text(oebps_path(STYLESHEET@), pkg.stylesheet@),
        deflated_text(oebps_path(NAV_XHTML@), pkg.nav@),
    ] + match pkg.cover {
        Some(c) => seq![
            EntryView { name: oebps_path(COVER_IMAGE@), compression: Compression::Stored, data: c.image_bytes@ },
            deflated_text(oebps_path(COVER_XHTML@), c.xhtml@),
        ],
        None => seq![],
    } + seq![
        deflated_text(oebps_path(TITLE_XHTML@), pkg.title_xhtml@),
        deflated_text(oebps_path(COPYRIGHT_XHTML@), pkg.copyright_xhtml@),
    ] + section_entries(pkg.front_matter_xhtml@, 0) + section_entries(pkg.chapter_xhtml@, 1)
        + section_entries(pkg.back_matter_xhtml@, 2)
}

// ---------------------------------------------------------------------
// Laws of the layout

/// The file of page `i` of a section (0: front matter, 1: chapters,
/// 2: back matter).
pub open spec fn section_file(kind: int, i: nat) -> Seq<char> {
    if kind == 0 {
        front_matter_file(i)
    } else if kind == 1 {
        chapter_file(i)
    } else {
        back_matter_file(i)
    }
}

/// The package document names each page by the file the archive stores
/// under `OEBPS/`: the manifest href of page `i` of a section is the
/// archive's file of that page.
pub proof fn manifest_hrefs_are_archive_files(kind: int, i: nat)
    requires
        0 <= kind < 3,
    ensures
        crate::epub::opf::section_file(kind, i) == section_file(kind, i),
{
}

proof fn lemma_section_entries(pages: Seq<String>, kind: int)
    ensures
        section_entries(pages, kind).len() == pages.len(),
        forall|i: int|
            0 <= i < pages.len() ==> #[trigger] section_entries(pages, kind)[i] == deflated_text(
                oebps_path(section_file(kind, i as nat)),
                pages[i]@,
            ),
    decreases pages.len(),
{
    if pages.len() > 0 {
        lemma_section_entries(pages.drop_last(), kind);
        assert forall|i: int| 0 <= i < pages.len() implies #[trigger] section_entries(pages, kind)[i]
            == deflated_text(oebps_path(section_file(kind, i as nat)), pages[i]@) by {
            if i < pages.len() - 1 {
                assert(section_entries(pages, kind)[i] == section_entries(pages.drop_last(), kind)[i]);
                assert(pages.drop_last()[i] == pages[i]);
            }
        }
    }
}

/// Reads back from an entry name which file it is: a class, and for the
/// pages of a section the number in the name.
pub open spec fn name_slot(n: Seq<char>) -> (int, int) {
    if n[0] == 'm' {
        (0, 0)
    } else if n[0] == 'M' {
        (1, 0)
    } else if n[6] == 'f' {
        (9, digits_value(n.subrange(12, n.len() - 6)) as int)
    } else if n[6] == 'b' {
        (11, digits_value(n.subrange(11, n.len() - 6)) as int)
    } else if n[6] == 'c' && n[7] == 'h' {
        (10, digits_value(n.subrange(14, n.len() - 6)) as int)
    } else if n[6] == 'c' && n[8] == 'n' {
        (2, 0)
    } else if n[6] == 't' && n[7] == 'h' {
        (3, 0)
    } else if n[6] == 'n' {
        (4, 0)
    } else if n[6] == 'c' && n[8] == 'v' && n.len() == 15 {
        (5, 0)
    } else if n[6] == 'c' && n[8] == 'v' {
        (6, 0)
    } else if n[6] == 't' {
        (7, 0)
    } else {
        (8, 0)
    }
}

/// The slot of entry `i` of the archive of `pkg`.
pub open spec fn entry_slot(pkg: EpubPackage, i: int) -> (int, int) {
    let c: int = if pkg.cover is Some { 2 } else { 0 };
    let nf = pkg.front_matter_xhtml@.len() as int;
    let nc = pkg.chapter_xhtml@.len() as int;
    if i < 5 {
        (i, 0)
    } else if i < 5 + c {
        (i, 0)
    } else if i < 7 + c {
        (i - c + 2, 0)
    } else if i < 7 + c + nf {
        (9, i - 7 - c + 1)
    } else if i < 7 + c + nf + nc {
        (10, i - 7 - c - nf + 1)
    } else {
        (11, i - 7 - c - nf - nc + 1)
    }
}

proof fn lemma_section_slot(kind: int, i: nat)
    requires
        0 <= kind < 3,
    ensures
        name_slot(oebps_path(section_file(kind, i))) == (9 + kind, i + 1 as int),
{
    reveal_strlit("OEBPS/");
    reveal_strlit("front-");
    reveal_strlit("chapter-");
    reveal_strlit("back-");
    reveal_strlit(".xhtml");
    let d = decimal_pad3(i + 1);
    decimal_padded_value(i + 1, 3);
    let n = oebps_path(section_file(kind, i));
    let prefix: Seq<char> = if kind == 0 {
        "front-"@
    } else if kind == 1 {
        "chapter-"@
    } else {
        "back-"@
    };
    assert(n =~= "OEBPS/"@ + prefix + d + ".xhtml"@);
    assert(n.subrange(6 + prefix.len() as int, n.len() - 6) =~= d);
}

proof fn lemma_entry_slot(pkg: EpubPackage, i: int)
    requires
        0 <= i < package_entries(pkg).len(),
    ensures
        name_slot(package_entries(pkg)[i].name) == entry_slot(pkg, i),
{
    reveal_strlit("mimetype");
    reveal_strlit("META-INF/container.xml");
    reveal_strlit("OEBPS/");
    reveal_strlit("OEBPS/content.opf");
    reveal_strlit("theme.css");
    reveal_strlit("nav.xhtml");
    reveal_strlit("cover.jpg");
    reveal_strlit("cover.xhtml");
    reveal_strlit("title.xhtml");
    reveal_strlit("copyright.xhtml");
    let es = package_entries(pkg);
    let c: int = if pkg.cover is Some { 2 } else { 0 };
    let nf = pkg.front_matter_xhtml@.len() as int;
    let nc = pkg.chapter_xhtml@.len() as int;
    lemma_section_entries(pkg.front_matter_xhtml@, 0);
    lemma_section_entries(pkg.chapter_xhtml@, 1);
    lemma_section_entries(pkg.back_matter_xhtml@, 2);
    let n = es[i].name;
    if i < 7 + c {
        if i == 3 {
            assert(n =~= "OEBPS/"@ + "theme.css"@);
        } else if i == 4 {
            assert(n =~= "OEBPS/"@ + "nav.xhtml"@);
        } else if i == 5 && c == 2 {
            assert(n =~= "OEBPS/"@ + "cover.jpg"@);
        } else if i == 6 && c == 2 {
            assert(n =~= "OEBPS/"@ + "cover.xhtml"@);
        } else if i == 5 + c {
            assert(n =~= "OEBPS/"@ + "title.xhtml"@);
        } else if i == 6 + c {
            assert(n =~= "OEBPS/"@ + "copyright.xhtml"@);
        }
    } else if i < 7 + c + nf {
        let k = i - 7 - c;
        assert(es[i] == section_entries(pkg.front_matter_xhtml@, 0)[k]);
        lemma_section_slot(0, k as nat);
    } else if i < 7 + c + nf + nc {
        let k = i - 7 - c - nf;
        assert(es[i] == section_entries(pkg.chapter_xhtml@, 1)[k]);
        lemma_section_slot(1, k as nat);
    } else {
        let k = i - 7 - c - nf - nc;
        assert(es[i] == section_entries(pkg.back_matter_xhtml@, 2)[k]);
        lemma_section_slot(2, k as nat);
    }
}

/// The archive of a package starts with the `mimetype` entry, stored
/// uncompressed, and no two of its entries share a name.
pub proof fn package_entries_are_well_formed(pkg: EpubPackage)
    ensures
        package_entries(pkg)[0] == (EntryView {
            name: "mimetype"@,
            compression: Compression::Stored,
            data: encode_utf8(MIMETYPE@),
        }),
        forall|i: int, j: int|
            0 <= i < j < package_entries(pkg).len() ==> #[trigger] package_entries(pkg)[i].name
                != #[trigger] package_entries(pkg)[j].name,
{
    assert forall|i: int, j: int| 0 <= i < j < package_entries(pkg).len() implies #[trigger] package_entries(
        pkg,
    )[i].name != #[trigger] package_entries(pkg)[j].name by {
        lemma_entry_slot(pkg, i);
        lemma_entry_slot(pkg, j);
    }
}

/// `OEBPS/<name>`.
pub fn oebps(name: &str) -> (path: String)
    ensures
        path@ == oebps_path(name@),
{
    let mut path = String::from_str("OEBPS/");
    path.append(name);
    path
}

fn text_entry<'a>(name: String, text: &'a str) -> (e: ArchiveEntry<'a>)
    ensures
        e@ == deflated_text(name@, text@),
{
    ArchiveEntry { name, compression: Compression::Deflated, data: text.as_bytes() }
}

fn push_section<'a>(entries: &mut Vec<ArchiveEntry<'a>>, pages: &'a Vec<String>, kind: u8)
    requires
        kind < 3,
    ensures
        final(entries)@.len() == old(entries)@.len() + pages@.len(),
        section_entries(pages@, kind as int).len() == pages@.len(),
        forall|i: int| 0 <= i < old(entries)@.len() ==> final(entries)@[i] == old(entries)@[i],
        forall|i: int|
            0 <= i < pages@.len() ==> #[trigger] final(entries)@[old(entries)@.len() + i]@
                == section_entries(pages@, kind as int)[i],
{
    let ghost start = entries@;
    let mut i: usize = 0;
    while i < pages.len()
        invariant
            kind < 3,
            i <= pages@.len(),
            entries@.len() == start.len() + i,
            forall|j: int| 0 <= j < start.len() ==> entries@[j] == start[j],
            section_entries(pages@.take(i as int), kind as int).len() == i,
            forall|j: int|
                0 <= j < i ==> #[trigger] entries@[start.len() + j]@ == section_entries(
                    pages@.take(i as int),
                    kind as int,
                )[j],
        decreases pages@.len() - i,
    {
        let file = if kind == 0 {
            paths::front_matter(i)
        } else if kind == 1 {
            paths::chapter(i)
        } else {
            paths::back_matter(i)
        };
        let name = oebps(file.as_str());
        entries.push(text_entry(name, pages[i].as_str()));
        proof {
            let t = pages@.take(i + 1);
            assert(t.drop_last() =~= pages@.take(i as int));
            assert(t.last() == pages@[i as int]);
        }
        i = i + 1;
    }
    assert(pages@.take(pages@.len() as int) =~= pages@);
}

/// The entries of the EPUB archive of `pkg`, in the order they are
/// written: `mimetype` first and stored, then the container and package
/// documents, the stylesheet, the navigation document, the cover (image
/// stored, page compressed) when there is one, the title and copyright
/// pages, and the front-matter, chapter and back-matter pages.
pub fn archive_entries<'a>(pkg: &'a EpubPackage<'a>) -> (entries: Vec<ArchiveEntry<'a>>)
    ensures
        entries@.len() == package_entries(*pkg).len(),
        forall|i: int| 0 <= i < entries@.len() ==> #[trigger] entries@[i]@ == package_entries(*pkg)[i],
{
    let mut entries: Vec<ArchiveEntry<'a>> = Vec::new();
    entries.push(
        ArchiveEntry {
            name: String::from_str("mimetype"),
            compression: Compression::Stored,
            data: MIMETYPE.as_bytes(),
        },
    );
    entries.push(text_entry(String::from_str("META-INF/container.xml"), CONTAINER_XML));
    entries.push(text_entry(String::from_str("OEBPS/content.opf"), pkg.opf.as_str()));
    entries.push(text_entry(oebps(STYLESHEET), pkg.stylesheet));
    entries.push(text_entry(oebps(NAV_XHTML), pkg.nav.as_str()));
    match &pkg.cover {
        Some(cover) => {
            entries.push(
                ArchiveEntry {
                    name: oebps(COVER_IMAGE),
                    compression: Compression::Stored,
                    data: cover.image_bytes,
                },
            );
            entries.push(text_entry(oebps(COVER_XHTML), cover.xhtml.as_str()));
        },
        None => {},
    }
    entries.push(text_entry(oebps(TITLE_XHTML), pkg.title_xhtml.as_str()));
    entries.push(text_entry(oebps(COPYRIGHT_XHTML), pkg.copyright_xhtml.as_str()));
    let ghost head = entries@;
    push_section(&mut entries, &pkg.front_matter_xhtml, 0);
    let ghost with_front = entries@;
    push_section(&mut entries, &pkg.chapter_xhtml, 1);
    let ghost with_chapters = entries@;
    push_section(&mut entries, &pkg.back_matter_xhtml, 2);
    proof {
        let spec = package_entries(*pkg);
        let f = section_entries(pkg.front_matter_xhtml@, 0);
        let c = section_entries(pkg.chapter_xhtml@, 1);
        let b = section_entries(pkg.back_matter_xhtml@, 2);
        let h = spec.len() - f.len() - c.len() - b.len();
        assert(h == head.len());
        assert forall|i: int| 0 <= i < entries@.len() implies #[trigger] entries@[i]@ == spec[i] by {
            if i < h {
                assert(entries@[i] == head[i]);
            } else if i < h + f.len() {
                assert(entries@[i] == with_front[i]);
                assert(with_front[head.len() + (i - h)]@ == f[i - h]);
            } else if i < h + f.len() + c.len() {
                assert(entries@[i] == with_chapters[i]);
                assert(with_chapters[with_front.len() + (i - h - f.len())]@ == c[i - h - f.len()]);
            } else {
                assert(entries@[with_chapters.len() + (i - h - f.len() - c.len())]@ == b[i - h
                    - f.len() - c.len()]);
            }
        }
    }
    entries
}


// ---------------------------------------------------------------------
// Writing the archive

/// A ZIP writer over an in-memory buffer. The writer is opaque to the
/// verifier; what it has been asked to store is named by [`zip_log`].
#[verifier::external_body]
pub struct ArchiveWriter {
    inner: ZipWriter<Cursor<Vec<u8>>>,
}

/// One operation on a ZIP writer.
pub enum ZipOp {
    /// Start a new entry with this path and compression.
    StartFile(Seq<char>, Compression),
    /// Append these bytes to the entry being written.
    WriteAll(Seq<u8>),
}

/// The operations that have succeeded on a ZIP writer since it was
/// created, in order.
pub uninterp spec fn zip_log(w: ArchiveWriter) -> Seq<ZipOp>;

/// Whether no operation on a ZIP writer has failed since it was created.
pub uninterp spec fn zip_usable(w: ArchiveWriter) -> bool;

/// The archive bytes that a ZIP writer (over an in-memory buffer, with
/// the crate's default file options) produces when finished after the
/// operations `log`, none of which failed. With the crate's `time`
/// feature off every entry is dated 1980-01-01, so the bytes depend on
/// the operations alone.
pub uninterp spec fn zip_archive(log: Seq<ZipOp>) -> Seq<u8>;

/// The largest deflated entry that the writer is promised to take. The
/// crate refuses an entry whose compressed size is over 4 GiB without its
/// large-file option; its deflater falls back to stored blocks of at most
/// five bytes' overhead when compressing does not pay, so an entry of at
/// most this many bytes stays under that bound.
pub const DEFLATED_ENTRY_LIMIT: u64 = 4000000000;

/// The largest entry, in bytes, that the writer is promised to take with
/// the given compression: 4 GiB less one stored, a little less deflated.
pub open spec fn entry_limit(c: Compression) -> int {
    match c {
        Compression::Stored => u32::MAX as int,
        Compression::Deflated => DEFLATED_ENTRY_LIMIT as int,
    }
}

/// The entry being written after the operations `log`: its compression
/// and the bytes written to it so far, or none before the first entry.
pub open spec fn current_entry(log: Seq<ZipOp>) -> Option<(Compression, int)>
    decreases log.len(),
{
    if log.len() == 0 {
        None
    } else {
        match log.last() {
            ZipOp::StartFile(_, c) => Some((c, 0)),
            ZipOp::WriteAll(d) => match current_entry(log.drop_last()) {
                Some((c, n)) => Some((c, n + d.len())),
                None => None,
            },
        }
    }
}

/// Whether the entry being written, if any, is within its limit, so that
/// the writer can finish it.
pub open spec fn current_entry_fits(log: Seq<ZipOp>) -> bool {
    match current_entry(log) {
        Some((c, n)) => n <= entry_limit(c),
        None => true,
    }
}

/// Whether an entry is being written after the operations `log` and
/// stays at or under 4 GiB (`u32::MAX` bytes) with `more` bytes added.
pub open spec fn entry_can_take(log: Seq<ZipOp>, more: int) -> bool {
    match current_entry(log) {
        Some((_, n)) => n + more <= u32::MAX,
        None => false,
    }
}

/// Whether `op` starts an entry called `name`.
pub open spec fn starts_entry(op: ZipOp, name: Seq<char>) -> bool {
    match op {
        ZipOp::StartFile(n, _) => n == name,
        ZipOp::WriteAll(_) => false,
    }
}

/// Whether an entry called `name` has been started in `log`.
pub open spec fn started(log: Seq<ZipOp>, name: Seq<char>) -> bool {
    exists|k: int| 0 <= k < log.len() && starts_entry(#[trigger] log[k], name)
}

/// `ZipWriter::new` over an empty in-memory buffer: no operation has
/// been performed on it.
#[verifier::external_body]
fn zip_new() -> (w: ArchiveWriter)
    ensures
        zip_log(w) == Seq::<ZipOp>::empty(),
        zip_usable(w),
{
    ArchiveWriter { inner: ZipWriter::new(Cursor::new(Vec::new())) }
}

/// `ZipWriter::start_file` with default options and the given
/// compression method. On success the operation is logged. On a usable
/// writer it succeeds when no entry of that name was started and the
/// entry it finishes first is within its limit: writing to the in-memory
/// buffer cannot fail, zip64 records are added as offsets grow, and a
/// duplicate name is the only error the new entry can give. The name is
/// under 16384 characters, so its UTF-8 length fits the header's 16-bit
/// field (a longer one panics).
#[verifier::external_body]
fn zip_start_file(w: &mut ArchiveWriter, name: &str, compression: Compression) -> (r: Result<(), ZipError>)
    requires
        name@.len() < 16384,
    ensures
        r is Ok ==> zip_log(*final(w)) == zip_log(*old(w)).push(ZipOp::StartFile(name@, compression)),
        r is Ok && zip_usable(*old(w)) ==> zip_usable(*final(w)),
        zip_usable(*old(w)) && !started(zip_log(*old(w)), name@) && current_entry_fits(zip_log(*old(w)))
            ==> r is Ok,
{
    let method = match compression {
        Compression::Stored => CompressionMethod::Stored,
        Compression::Deflated => CompressionMethod::Deflated,
    };
    w.inner.start_file(name, SimpleFileOptions::default().compression_method(method))
}

/// `Write::write_all` on the ZIP writer: appends `data` to the entry
/// being written. On success the operation is logged. On a usable writer
/// it succeeds when an entry has been started and stays at or under 4 GiB
/// (`u32::MAX` bytes): the only errors are writing with no entry started
/// and an entry over that without the large-file option.
#[verifier::external_body]
fn zip_write_all(w: &mut ArchiveWriter, data: &[u8]) -> (r: Result<(), std::io::Error>)
    ensures
        r is Ok ==> zip_log(*final(w)) == zip_log(*old(w)).push(ZipOp::WriteAll(data@)),
        r is Ok && zip_usable(*old(w)) ==> zip_usable(*final(w)),
        zip_usable(*old(w)) && entry_can_take(zip_log(*old(w)), data@.len() as int) ==> r is Ok,
{
    w.inner.write_all(data)
}

/// `ZipWriter::finish`, then the finished buffer's bytes. On a usable
/// writer, success gives the archive of every operation performed, and
/// it succeeds when the last entry is within its limit: the central
/// directory goes to the in-memory buffer.
#[verifier::external_body]
fn zip_finish(w: ArchiveWriter) -> (r: Result<Vec<u8>, ZipError>)
    ensures
        zip_usable(w) ==> (r matches Ok(bytes) ==> bytes@ == zip_archive(zip_log(w))),
        zip_usable(w) && current_entry_fits(zip_log(w)) ==> r is Ok,
{
    w.inner.finish().map(|c| c.into_inner())
}

/// The writer operations that store `entries`, each entry started and
/// then written in one piece.
pub open spec fn entry_ops(entries: Seq<EntryView>) -> Seq<ZipOp>
    decreases entries.len(),
{
    if entries.len() == 0 {
        seq![]
    } else {
        let e = entries.last();
        entry_ops(entries.drop_last()).push(ZipOp::StartFile(e.name, e.compression)).push(
            ZipOp::WriteAll(e.data),
        )
    }
}

/// Whether an entry is within the size the writer is promised to take.
pub open spec fn entry_fits(e: EntryView) -> bool {
    e.data.len() <= entry_limit(e.compression)
}

/// Whether every entry of the archive of `pkg` is within its limit:
/// 4 GiB less one byte stored, [`DEFLATED_ENTRY_LIMIT`] deflated.
pub open spec fn package_fits(pkg: EpubPackage) -> bool {
    forall|i: int| 0 <= i < package_entries(pkg).len() ==> entry_fits(#[trigger] package_entries(pkg)[i])
}

proof fn lemma_entry_ops(entries: Seq<EntryView>)
    ensures
        current_entry(entry_ops(entries)) == (if entries.len() == 0 {
            None
        } else {
            Some((entries.last().compression, entries.last().data.len() as int))
        }),
        forall|n: Seq<char>|
            #[trigger] started(entry_ops(entries), n) ==> exists|k: int|
                0 <= k < entries.len() && #[trigger] entries[k].name == n,
    decreases entries.len(),
{
    if entries.len() > 0 {
        let pre = entries.drop_last();
        lemma_entry_ops(pre);
        let e = entries.last();
        let l1 = entry_ops(pre).push(ZipOp::StartFile(e.name, e.compression));
        let l2 = l1.push(ZipOp::WriteAll(e.data));
        assert(l2.drop_last() == l1);
        assert(l1.drop_last() == entry_ops(pre));
        assert(current_entry(l1) == Some((e.compression, 0int)));
        assert forall|n: Seq<char>| #[trigger] started(entry_ops(entries), n) implies exists|k: int|
            0 <= k < entries.len() && #[trigger] entries[k].name == n by {
            let k = choose|k: int| 0 <= k < l2.len() && starts_entry(#[trigger] l2[k], n);
            if k < entry_ops(pre).len() {
                assert(entry_ops(pre)[k] == l2[k]);
                assert(started(entry_ops(pre), n));
                let j = choose|j: int| 0 <= j < pre.len() && #[trigger] pre[j].name == n;
                assert(entries[j] == pre[j]);
            } else {
                assert(entries[entries.len() - 1].name == n);
            }
        }
    }
}

proof fn lemma_entry_name_short(pkg: EpubPackage, i: int)
    requires
        0 <= i < package_entries(pkg).len(),
        pkg.front_matter_xhtml@.len() <= usize::MAX,
        pkg.chapter_xhtml@.len() <= usize::MAX,
        pkg.back_matter_xhtml@.len() <= usize::MAX,
    ensures
        package_entries(pkg)[i].name.len() < 16384,
{
    reveal_strlit("mimetype");
    reveal_strlit("META-INF/container.xml");
    reveal_strlit("OEBPS/");
    reveal_strlit("OEBPS/content.opf");
    reveal_strlit("theme.css");
    reveal_strlit("nav.xhtml");
    reveal_strlit("cover.jpg");
    reveal_strlit("cover.xhtml");
    reveal_strlit("title.xhtml");
    reveal_strlit("copyright.xhtml");
    reveal_strlit("front-");
    reveal_strlit("chapter-");
    reveal_strlit("back-");
    reveal_strlit(".xhtml");
    let es = package_entries(pkg);
    let c: int = if pkg.cover is Some { 2 } else { 0 };
    let nf = pkg.front_matter_xhtml@.len() as int;
    let nc = pkg.chapter_xhtml@.len() as int;
    lemma_section_entries(pkg.front_matter_xhtml@, 0);
    lemma_section_entries(pkg.chapter_xhtml@, 1);
    lemma_section_entries(pkg.back_matter_xhtml@, 2);
    if i >= 7 + c {
        let (kind, k) = if i < 7 + c + nf {
            (0int, i - 7 - c)
        } else if i < 7 + c + nf + nc {
            (1int, i - 7 - c - nf)
        } else {
            (2int, i - 7 - c - nf - nc)
        };
        crate::text::lemma_decimal_len_bound((k + 1) as nat);
        let d = decimal_pad3((k + 1) as nat);
        assert(d.len() <= 20);
        if kind == 0 {
            assert(es[i] == section_entries(pkg.front_matter_xhtml@, 0)[k]);
        } else if kind == 1 {
            assert(es[i] == section_entries(pkg.chapter_xhtml@, 1)[k]);
        } else {
            assert(es[i] == section_entries(pkg.back_matter_xhtml@, 2)[k]);
        }
        assert(es[i].name.len() <= 40);
    }
}

/// Write a complete EPUB archive of `pkg` and return its bytes: the
/// archive of the entries [`archive_entries`] lists, in that order. It
/// succeeds whenever every entry is within the size the ZIP writer takes
/// (see [`package_fits`]); the entry names are distinct and short, so
/// nothing else can make it fail.
pub fn pack(pkg: &EpubPackage) -> (r: Result<Vec<u8>, EpubError>)
    ensures
        r matches Ok(bytes) ==> bytes@ == zip_archive(entry_ops(package_entries(*pkg))),
        package_fits(*pkg) ==> r is Ok,
{
    let ghost pe = package_entries(*pkg);
    let _ = pkg.front_matter_xhtml.len();
    let _ = pkg.chapter_xhtml.len();
    let _ = pkg.back_matter_xhtml.len();
    proof {
        package_entries_are_well_formed(*pkg);
    }
    let entries = archive_entries(pkg);
    let mut zip = zip_new();
    let mut i: usize = 0;
    while i < entries.len()
        invariant
            pe == package_entries(*pkg),
            i <= entries@.len() == pe.len(),
            forall|k: int| 0 <= k < entries@.len() ==> #[trigger] entries@[k]@ == pe[k],
            forall|a: int, b: int| 0 <= a < b < pe.len() ==> #[trigger] pe[a].name != #[trigger] pe[b].name,
            pkg.front_matter_xhtml@.len() <= usize::MAX,
            pkg.chapter_xhtml@.len() <= usize::MAX,
            pkg.back_matter_xhtml@.len() <= usize::MAX,
            zip_log(zip) == entry_ops(pe.take(i as int)),
            zip_usable(zip),
            package_fits(*pkg) ==> current_entry_fits(zip_log(zip)),
        decreases entries@.len() - i,
    {
        let entry = &entries[i];
        proof {
            lemma_entry_name_short(*pkg, i as int);
            assert(entries@[i as int]@ == pe[i as int]);
            assert(entry.name@ == pe[i as int].name);
            lemma_entry_ops(pe.take(i as int));
            assert(pe.take(i + 1).drop_last() =~= pe.take(i as int));
            assert(pe.take(i + 1).last() == pe[i as int]);
            if started(zip_log(zip), entry.name@) {
                let k = choose|k: int| 0 <= k < pe.take(i as int).len() && #[trigger] pe.take(i as int)[k].name
                    == entry.name@;
                assert(pe[k] == pe.take(i as int)[k]);
            }
        }
        match zip_start_file(&mut zip, entry.name.as_str(), entry.compression) {
            Ok(()) => {},
            Err(e) => {
                return Err(EpubError::Zip(e));
            },
        }
        proof {
            let l = zip_log(zip);
            assert(current_entry(l) == Some((entry.compression, 0int)));
            assert(entry.data@ == pe[i as int].data);
            if package_fits(*pkg) {
                assert(entry_fits(pe[i as int]));
            }
        }
        match zip_write_all(&mut zip, entry.data) {
            Ok(()) => {},
            Err(e) => {
                return Err(EpubError::Io(e));
            },
        }
        proof {
            let t = pe.take(i + 1);
            assert(t.drop_last() =~= pe.take(i as int));
            assert(t.last() == entries@[i as int]@);
            lemma_entry_ops(t);
            if package_fits(*pkg) {
                assert(entry_fits(pe[i as int]));
            }
        }
        i = i + 1;
    }
    assert(pe.take(entries@.len() as int) =~= pe);
    match zip_finish(zip) {
        Ok(bytes) => Ok(bytes),
        Err(e) => Err(EpubError::Zip(e)),
    }
}

} // verus!
