//! EPUB 3 rendering.
//!
//! Consumes a [`Book`] and produces the contents of an EPUB 3 file:
//! plain XHTML pages plus a few XML metadata documents, no
//! reader-specific extensions.
use vstd::prelude::*;

use zip::result::ZipError;

use crate::epub::archive::{CoverFiles, EpubPackage};
use crate::epub::escape::escape_text;
use crate::epub::pages::{
    copyright_page_text, cover_page_text, document_text, title_page_text,
};
use crate::epub::xhtml::xhtml_blocks;
use crate::ir::{blocks_view, Book, Chapter, MatterPage};

pub mod archive;
pub mod escape;
pub mod nav;
pub mod opf;
pub mod pages;
pub mod paths;
pub mod xhtml;

verus! {

broadcast use vstd::string::group_string_axioms;

#[verifier::external_type_specification]
#[verifier::external_body]
pub struct ExZipError(ZipError);

#[verifier::external_type_specification]
#[verifier::external_body]
pub struct ExIoError(std::io::Error);

/// Why writing an EPUB failed.
#[derive(Debug)]
pub enum EpubError {
    Io(std::io::Error),
    Zip(ZipError),
}

/// The XHTML page of a chapter.
pub open spec fn chapter_xhtml_text(ch: Chapter, lang: Seq<char>) -> Seq<char> {
    let body = "<section class=\"chapter\">\n"@ + "<h1 class=\"chapter-title\">"@ + escape_text(ch.title@)
        + "</h1>\n"@ + xhtml_blocks(blocks_view(ch.blocks@), true) + "</section>\n"@;
    document_text(ch.title@, Some("chapter"@), body, lang)
}

/// The XHTML page of a front- or back-matter page; `epub_type` is
/// `frontmatter` or `backmatter` and doubles as the document title of an
/// untitled page.
pub open spec fn matter_xhtml_text(page: MatterPage, epub_type: Seq<char>, lang: Seq<char>) -> Seq<char> {
    let body = "<section class=\"matter-page\">\n"@ + match page.title {
        Some(t) => "<h1 class=\"matter-title\">"@ + escape_text(t@) + "</h1>\n"@,
        None => seq![],
    } + xhtml_blocks(blocks_view(page.blocks@), false) + "</section>\n"@;
    let head_title = match page.title {
        Some(t) => t@,
        None => epub_type,
    };
    document_text(head_title, Some(epub_type), body, lang)
}

pub fn chapter_xhtml(ch: &Chapter, lang: &str) -> (page: String)
    ensures
        page@ == chapter_xhtml_text(*ch, lang@),
{
    let mut body = String::from_str("<section class=\"chapter\">\n");
    body.append("<h1 class=\"chapter-title\">");
    let t = escape::text(ch.title.as_str());
    body.append(t.as_str());
    body.append("</h1>\n");
    let blocks = xhtml::render_blocks(ch.blocks.as_slice(), true);
    body.append(blocks.as_str());
    body.append("</section>\n");
    pages::document(ch.title.as_str(), Some("chapter"), body.as_str(), lang)
}

pub fn matter_xhtml(page: &MatterPage, epub_type: &str, lang: &str) -> (xhtml: String)
    ensures
        xhtml@ == matter_xhtml_text(*page, epub_type@, lang@),
{
    let mut body = String::from_str("<section class=\"matter-page\">\n");
    match &page.title {
        Some(title) => {
            body.append("<h1 class=\"matter-title\">");
            let t = escape::text(title.as_str());
            body.append(t.as_str());
            body.append("</h1>\n");
        },
        None => {},
    }
    let blocks = xhtml::render_blocks(page.blocks.as_slice(), false);
    body.append(blocks.as_str());
    body.append("</section>\n");
    let head_title = match &page.title {
        Some(t) => t.as_str(),
        None => epub_type,
    };
    pages::document(head_title, Some(epub_type), body.as_str(), lang)
}

fn matter_pages(pages: &Vec<MatterPage>, epub_type: &str, lang: &str) -> (out: Vec<String>)
    ensures
        out@.len() == pages@.len(),
        forall|i: int|
            0 <= i < pages@.len() ==> #[trigger] out@[i]@ == matter_xhtml_text(
                pages@[i],
                epub_type@,
                lang@,
            ),
{
    let mut out: Vec<String> = Vec::new();
    let mut i: usize = 0;
    while i < pages.len()
        invariant
            i <= pages@.len(),
            out@.len() == i,
            forall|j: int|
                0 <= j < i ==> #[trigger] out@[j]@ == matter_xhtml_text(pages@[j], epub_type@, lang@),
        decreases pages@.len() - i,
    {
        out.push(matter_xhtml(&pages[i], epub_type, lang));
        i = i + 1;
    }
    out
}

fn chapter_pages(chapters: &Vec<Chapter>, lang: &str) -> (out: Vec<String>)
    ensures
        out@.len() == chapters@.len(),
        forall|i: int|
            0 <= i < chapters@.len() ==> #[trigger] out@[i]@ == chapter_xhtml_text(chapters@[i], lang@),
{
    let mut out: Vec<String> = Vec::new();
    let mut i: usize = 0;
    while i < chapters.len()
        invariant
            i <= chapters@.len(),
            out@.len() == i,
            forall|j: int| 0 <= j < i ==> #[trigger] out@[j]@ == chapter_xhtml_text(chapters@[j], lang@),
        decreases chapters@.len() - i,
    {
        out.push(chapter_xhtml(&chapters[i], lang));
        i = i + 1;
    }
    out
}

/// What every field but the package document holds in the package
/// assembled from `book` with `stylesheet`.
pub open spec fn assembled_from(pkg: EpubPackage, book: Book, stylesheet: Seq<char>) -> bool {
    let lang = book.meta.language@;
    &&& pkg.nav@ == nav::nav_text(book)
    &&& pkg.stylesheet@ == stylesheet
    &&& pkg.title_xhtml@ == title_page_text(book.meta)
    &&& pkg.copyright_xhtml@ == copyright_page_text(book.meta)
    &&& match book.cover {
        Some(c) => pkg.cover matches Some(files) && files.xhtml@ == cover_page_text(book.meta)
            && files.image_bytes@ == c.bytes@,
        None => pkg.cover is None,
    }
    &&& pkg.front_matter_xhtml@.len() == book.front_matter@.len()
    &&& forall|i: int|
        0 <= i < book.front_matter@.len() ==> #[trigger] pkg.front_matter_xhtml@[i]@
            == matter_xhtml_text(book.front_matter@[i], "frontmatter"@, lang)
    &&& pkg.chapter_xhtml@.len() == book.chapters@.len()
    &&& forall|i: int|
        0 <= i < book.chapters@.len() ==> #[trigger] pkg.chapter_xhtml@[i]@ == chapter_xhtml_text(
            book.chapters@[i],
            lang,
        )
    &&& pkg.back_matter_xhtml@.len() == book.back_matter@.len()
    &&& forall|i: int|
        0 <= i < book.back_matter@.len() ==> #[trigger] pkg.back_matter_xhtml@[i]@
            == matter_xhtml_text(book.back_matter@[i], "backmatter"@, lang)
}

/// Assembles every file of the EPUB of `book`, with its package document
/// stamped `modified`.
pub fn assemble_at<'a>(book: &'a Book, stylesheet: &'a str, modified: &opf::UtcTimestamp) -> (pkg:
    EpubPackage<'a>)
    ensures
        assembled_from(pkg, *book, stylesheet@),
        pkg.opf@ == opf::opf_text(*book, opf::dcterms_stamp(*modified)),
{
    let opf = opf::build_at(book, modified);
    assemble_with(book, stylesheet, opf)
}

/// Assembles every file of the EPUB of `book`; the package document is
/// stamped with the current time.
pub fn assemble<'a>(book: &'a Book, stylesheet: &'a str) -> (pkg: EpubPackage<'a>)
    ensures
        assembled_from(pkg, *book, stylesheet@),
        opf::opf_stamped_now(pkg.opf@, *book),
{
    let opf = opf::build(book);
    assemble_with(book, stylesheet, opf)
}

fn assemble_with<'a>(book: &'a Book, stylesheet: &'a str, opf: String) -> (pkg: EpubPackage<'a>)
    ensures
        assembled_from(pkg, *book, stylesheet@),
        pkg.opf == opf,
{
    let nav = nav::build(book);
    let title_xhtml = pages::title_page(&book.meta);
    let copyright_xhtml = pages::copyright_page(&book.meta);
    let cover = match &book.cover {
        Some(c) => Some(
            CoverFiles { xhtml: pages::cover_page(&book.meta), image_bytes: c.bytes.as_slice() },
        ),
        None => None,
    };
    let lang = book.meta.language.as_str();
    let front_matter_xhtml = matter_pages(&book.front_matter, "frontmatter", lang);
    let chapter_xhtml = chapter_pages(&book.chapters, lang);
    let back_matter_xhtml = matter_pages(&book.back_matter, "backmatter", lang);
    EpubPackage {
        opf,
        nav,
        stylesheet,
        title_xhtml,
        copyright_xhtml,
        cover,
        front_matter_xhtml,
        chapter_xhtml,
        back_matter_xhtml,
    }
}

/// The EPUB file of `book`, with `stylesheet` as its style sheet and its
/// package document stamped with the current time: the ZIP archive of the
/// entries of the assembled package, in order. It fails only when an
/// entry of that archive would be over the size the ZIP writer takes (see
/// [`archive::package_fits`]).
pub fn render<'a>(book: &'a Book, stylesheet: &'a str) -> (r: Result<Vec<u8>, EpubError>)
    ensures
        r matches Ok(bytes) ==> exists|pkg: EpubPackage|
            {
                &&& assembled_from(pkg, *book, stylesheet@)
                &&& opf::opf_stamped_now(pkg.opf@, *book)
                &&& bytes@ == archive::zip_archive(archive::entry_ops(#[trigger] archive::package_entries(pkg)))
            },
        r is Err ==> exists|pkg: EpubPackage|
            {
                &&& assembled_from(pkg, *book, stylesheet@)
                &&& opf::opf_stamped_now(pkg.opf@, *book)
                &&& !#[trigger] archive::package_fits(pkg)
            },
{
    let pkg = assemble(book, stylesheet);
    archive::pack(&pkg)
}

} // verus!
