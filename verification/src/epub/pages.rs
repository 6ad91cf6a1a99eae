//! Generated pages (cover, title, copyright) and the XHTML document
//! boilerplate every page shares.
//!
//! The cover, title and copyright pages come from `book.toml`, so the
//! author never writes them by hand. They precede any user-written
//! front matter.
use vstd::prelude::*;

use crate::epub::escape::{self, escape_attribute, escape_text};
use crate::ir::BookMeta;
use crate::text::{decimal, push_decimal};

verus! {

broadcast use vstd::string::group_string_axioms;

/// The ` epub:type="..."` attribute of the body, if any.
pub open spec fn type_attribute(epub_type: Option<Seq<char>>) -> Seq<char> {
    match epub_type {
        Some(t) => " epub:type=\""@ + escape_attribute(t) + "\""@,
        None => seq![],
    }
}

/// A complete EPUB 3 XHTML document around `body`.
pub open spec fn document_text(
    title: Seq<char>,
    epub_type: Option<Seq<char>>,
    body: Seq<char>,
    lang: Seq<char>,
) -> Seq<char> {
    let lang_e = escape_attribute(lang);
    "<?xml version=\"1.0\" encoding=\"UTF-8\"?>\n<!DOCTYPE html>\n<html xmlns=\"http://www.w3.org/1999/xhtml\" xmlns:epub=\"http://www.idpf.org/2007/ops\" lang=\""@
        + lang_e + "\" xml:lang=\""@ + lang_e
        + "\">\n<head>\n<meta charset=\"utf-8\"/>\n<title>"@ + escape_text(title)
        + "</title>\n<link rel=\"stylesheet\" type=\"text/css\" href=\"theme.css\"/>\n</head>\n<body"@
        + type_attribute(epub_type) + ">\n"@ + body + "</body>\n</html>\n"@
}

pub open spec fn opt_str_view(o: Option<&str>) -> Option<Seq<char>> {
    match o {
        Some(s) => Some(s@),
        None => None,
    }
}

/// Wrap a body fragment in the full EPUB 3 XHTML document boilerplate.
pub fn document(title: &str, epub_type: Option<&str>, body: &str, lang: &str) -> (doc: String)
    ensures
        doc@ == document_text(title@, opt_str_view(epub_type), body@, lang@),
{
    let title_e = escape::text(title);
    let lang_e = escape::attribute(lang);
    let mut doc = String::from_str(
        "<?xml version=\"1.0\" encoding=\"UTF-8\"?>\n<!DOCTYPE html>\n<html xmlns=\"http://www.w3.org/1999/xhtml\" xmlns:epub=\"http://www.idpf.org/2007/ops\" lang=\"",
    );
    doc.append(lang_e.as_str());
    doc.append("\" xml:lang=\"");
    doc.append(lang_e.as_str());
    doc.append("\">\n<head>\n<meta charset=\"utf-8\"/>\n<title>");
    doc.append(title_e.as_str());
    doc.append(
        "</title>\n<link rel=\"stylesheet\" type=\"text/css\" href=\"theme.css\"/>\n</head>\n<body",
    );
    match epub_type {
        Some(t) => {
            let t_e = escape::attribute(t);
            doc.append(" epub:type=\"");
            doc.append(t_e.as_str());
            doc.append("\"");
        },
        None => {},
    }
    doc.append(">\n");
    doc.append(body);
    doc.append("</body>\n</html>\n");
    assert(doc@ =~= document_text(title@, opt_str_view(epub_type), body@, lang@));
    doc
}

pub open spec fn cover_page_text(meta: BookMeta) -> Seq<char> {
    document_text(
        "Cover"@,
        Some("cover"@),
        "<div class=\"cover\"><img src=\"cover.jpg\" alt=\"Cover\"/></div>\n"@,
        meta.language@,
    )
}

pub fn cover_page(meta: &BookMeta) -> (page: String)
    ensures
        page@ == cover_page_text(*meta),
{
    let body = "<div class=\"cover\"><img src=\"cover.jpg\" alt=\"Cover\"/></div>\n";
    document("Cover", Some("cover"), body, meta.language.as_str())
}

pub open spec fn title_page_body(meta: BookMeta) -> Seq<char> {
    "<div class=\"title-page\">\n<h1 class=\"book-title\">"@ + escape_text(meta.title@)
        + "</h1>\n"@ + match meta.subtitle {
        Some(sub) => "<p class=\"book-subtitle\">"@ + escape_text(sub@) + "</p>\n"@,
        None => seq![],
    } + "<p class=\"book-author\">"@ + escape_text(meta.author@) + "</p>\n"@ + "</div>\n"@
}

pub open spec fn title_page_text(meta: BookMeta) -> Seq<char> {
    document_text(meta.title@, Some("titlepage"@), title_page_body(meta), meta.language@)
}

pub fn title_page(meta: &BookMeta) -> (page: String)
    ensures
        page@ == title_page_text(*meta),
{
    let mut body = String::from_str("<div class=\"title-page\">\n<h1 class=\"book-title\">");
    let t = escape::text(meta.title.as_str());
    body.append(t.as_str());
    body.append("</h1>\n");
    match &meta.subtitle {
        Some(subtitle) => {
            body.append("<p class=\"book-subtitle\">");
            let s = escape::text(subtitle.as_str());
            body.append(s.as_str());
            body.append("</p>\n");
        },
        None => {},
    }
    body.append("<p class=\"book-author\">");
    let a = escape::text(meta.author.as_str());
    body.append(a.as_str());
    body.append("</p>\n");
    body.append("</div>\n");
    assert(body@ =~= title_page_body(*meta));
    document(meta.title.as_str(), Some("titlepage"), body.as_str(), meta.language.as_str())
}

pub open spec fn copyright_page_body(meta: BookMeta) -> Seq<char> {
    let cp = meta.copyright;
    "<div class=\"copyright\">\n"@ + "<p>Copyright \u{00A9} "@ + decimal(cp.year as nat) + " "@
        + escape_text(cp.holder@) + "</p>\n"@ + "<p>All rights reserved.</p>\n"@
        + "<p>Published by "@ + escape_text(cp.publisher@) + "</p>\n"@ + match cp.isbn_epub {
        Some(isbn) => "<p>ISBN: "@ + escape_text(isbn@) + "</p>\n"@,
        None => seq![],
    } + "</div>\n"@
}

pub open spec fn copyright_page_text(meta: BookMeta) -> Seq<char> {
    document_text("Copyright"@, Some("copyright-page"@), copyright_page_body(meta), meta.language@)
}

pub fn copyright_page(meta: &BookMeta) -> (page: String)
    ensures
        page@ == copyright_page_text(*meta),
{
    let cp = &meta.copyright;
    let mut body = String::from_str("<div class=\"copyright\">\n");
    body.append("<p>Copyright \u{00A9} ");
    push_decimal(&mut body, cp.year as u64);
    body.append(" ");
    let h = escape::text(cp.holder.as_str());
    body.append(h.as_str());
    body.append("</p>\n");
    body.append("<p>All rights reserved.</p>\n");
    body.append("<p>Published by ");
    let p = escape::text(cp.publisher.as_str());
    body.append(p.as_str());
    body.append("</p>\n");
    match &cp.isbn_epub {
        Some(isbn) => {
            body.append("<p>ISBN: ");
            let i = escape::text(isbn.as_str());
            body.append(i.as_str());
            body.append("</p>\n");
        },
        None => {},
    }
    body.append("</div>\n");
    assert(body@ =~= copyright_page_body(*meta));
    document("Copyright", Some("copyright-page"), body.as_str(), meta.language.as_str())
}

} // verus!
