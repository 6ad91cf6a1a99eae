//! EPUB 3 navigation document (`nav.xhtml`).
//!
//! Lists user-content pages: front matter that has a title, every
//! chapter, and back matter that has a title. The generated cover, title
//! and copyright pages are not listed in the visible table of contents.
use vstd::prelude::*;

use crate::epub::escape::{self, escape_text};
use crate::epub::pages::{self, document_text};
use crate::epub::paths::{self, back_matter_file, chapter_file, front_matter_file};
use crate::ir::{Book, Chapter, MatterPage};

verus! {

broadcast use vstd::string::group_string_axioms;

/// One line of the table of contents.
pub open spec fn nav_entry(href: Seq<char>, title: Seq<char>) -> Seq<char> {
    "<li><a href=\""@ + href + "\">"@ + escape_text(title) + "</a></li>\n"@
}

/// Entries for the titled pages among `pages` (front matter when
/// `front`, else back matter).
pub open spec fn matter_entries(pages: Seq<MatterPage>, front: bool) -> Seq<char>
    decreases pages.len(),
{
    if pages.len() == 0 {
        seq![]
    } else {
        let i = (pages.len() - 1) as nat;
        matter_entries(pages.drop_last(), front) + match pages.last().title {
            Some(t) => nav_entry(
                if front {
                    front_matter_file(i)
                } else {
                    back_matter_file(i)
                },
                t@,
            ),
            None => seq![],
        }
    }
}

/// One entry per chapter, in order.
pub open spec fn chapter_entries(chapters: Seq<Chapter>) -> Seq<char>
    decreases chapters.len(),
{
    if chapters.len() == 0 {
        seq![]
    } else {
        let i = (chapters.len() - 1) as nat;
        chapter_entries(chapters.drop_last()) + nav_entry(chapter_file(i), chapters.last().title@)
    }
}

pub open spec fn nav_body(book: Book) -> Seq<char> {
    "<nav epub:type=\"toc\" id=\"toc\">\n<h1>Contents</h1>\n<ol>\n"@ + matter_entries(
        book.front_matter@,
        true,
    ) + chapter_entries(book.chapters@) + matter_entries(book.back_matter@, false)
        + "</ol>\n</nav>\n"@
}

/// The end of the table of contents.
pub open spec fn nav_close() -> Seq<char> {
    "</ol>\n</nav>\n"@
}

/// The table of contents of `a`, up to its closing tags, is that of a
/// book `b` with `a`'s front matter and no chapters or back matter,
/// followed by the entries of `a`'s chapters, then those of its titled
/// back matter: entries come in reading order, front matter, chapters,
/// back matter.
pub proof fn nav_lists_in_reading_order(a: Book, b: Book)
    requires
        b.front_matter@ == a.front_matter@,
        b.chapters@.len() == 0,
        b.back_matter@.len() == 0,
    ensures
        nav_body(a) == nav_body(b).take(nav_body(b).len() - nav_close().len()) + chapter_entries(a.chapters@)
            + matter_entries(a.back_matter@, false) + nav_close(),
{
    reveal_strlit("</ol>\n</nav>\n");
    assert(chapter_entries(b.chapters@) == Seq::<char>::empty());
    assert(matter_entries(b.back_matter@, false) == Seq::<char>::empty());
    let head = "<nav epub:type=\"toc\" id=\"toc\">\n<h1>Contents</h1>\n<ol>\n"@ + matter_entries(a.front_matter@, true);
    assert(nav_body(b) =~= head + nav_close());
    assert(nav_body(b).take(nav_body(b).len() - nav_close().len()) =~= head);
    assert(nav_body(a) =~= head + chapter_entries(a.chapters@) + matter_entries(a.back_matter@, false)
        + nav_close());
}

/// Adding back matter to a book only adds entries after all the others:
/// the table of contents of `a`, up to its closing tags, is that of a book
/// `b` with the same front matter and chapters and no back matter,
/// followed by the entries of `a`'s titled back-matter pages.
pub proof fn back_matter_entries_come_last(a: Book, b: Book)
    requires
        b.front_matter@ == a.front_matter@,
        b.chapters@ == a.chapters@,
        b.back_matter@.len() == 0,
    ensures
        nav_body(a) == nav_body(b).take(nav_body(b).len() - nav_close().len()) + matter_entries(
            a.back_matter@,
            false,
        ) + nav_close(),
{
    reveal_strlit("</ol>\n</nav>\n");
    assert(matter_entries(b.back_matter@, false) == Seq::<char>::empty());
    let head = "<nav epub:type=\"toc\" id=\"toc\">\n<h1>Contents</h1>\n<ol>\n"@ + matter_entries(a.front_matter@, true)
        + chapter_entries(a.chapters@);
    assert(nav_body(b) =~= head + nav_close());
    assert(nav_body(b).take(nav_body(b).len() - nav_close().len()) =~= head);
    assert(nav_body(a) =~= head + matter_entries(a.back_matter@, false) + nav_close());
}

/// The complete navigation document of `book`.
pub open spec fn nav_text(book: Book) -> Seq<char> {
    document_text("Contents"@, None, nav_body(book), book.meta.language@)
}

fn push_entry(out: &mut String, href: &String, title: &String)
    ensures
        final(out)@ == old(out)@ + nav_entry(href@, title@),
{
    let ghost start = out@;
    out.append("<li><a href=\"");
    out.append(href.as_str());
    out.append("\">");
    let t = escape::text(title.as_str());
    out.append(t.as_str());
    out.append("</a></li>\n");
    assert(out@ =~= start + nav_entry(href@, title@));
}

fn push_matter_entries(out: &mut String, pages: &Vec<MatterPage>, front: bool)
    ensures
        final(out)@ == old(out)@ + matter_entries(pages@, front),
{
    let ghost start = out@;
    let mut i: usize = 0;
    while i < pages.len()
        invariant
            i <= pages@.len(),
            out@ == start + matter_entries(pages@.take(i as int), front),
        decreases pages@.len() - i,
    {
        let ghost before = out@;
        match &pages[i] {
            MatterPage { title: Some(title), .. } => {
                let href = if front {
                    paths::front_matter(i)
                } else {
                    paths::back_matter(i)
                };
                push_entry(out, &href, title);
            },
            _ => {},
        }
        proof {
            let t = pages@.take(i + 1);
            assert(t.drop_last() =~= pages@.take(i as int));
            assert(t.last() == pages@[i as int]);
            assert(out@ =~= start + matter_entries(t, front));
        }
        i = i + 1;
    }
    assert(pages@.take(pages@.len() as int) =~= pages@);
}

fn push_chapter_entries(out: &mut String, chapters: &Vec<Chapter>)
    ensures
        final(out)@ == old(out)@ + chapter_entries(chapters@),
{
    let ghost start = out@;
    let mut i: usize = 0;
    while i < chapters.len()
        invariant
            i <= chapters@.len(),
            out@ == start + chapter_entries(chapters@.take(i as int)),
        decreases chapters@.len() - i,
    {
        let href = paths::chapter(i);
        push_entry(out, &href, &chapters[i].title);
        proof {
            let t = chapters@.take(i + 1);
            assert(t.drop_last() =~= chapters@.take(i as int));
            assert(t.last() == chapters@[i as int]);
            assert(out@ =~= start + chapter_entries(t));
        }
        i = i + 1;
    }
    assert(chapters@.take(chapters@.len() as int) =~= chapters@);
}

/// Build the navigation document (`nav.xhtml`) of `book`.
pub fn build(book: &Book) -> (nav: String)
    ensures
        nav@ == nav_text(*book),
{
    let mut body = String::from_str("<nav epub:type=\"toc\" id=\"toc\">\n<h1>Contents</h1>\n<ol>\n");
    push_matter_entries(&mut body, &book.front_matter, true);
    push_chapter_entries(&mut body, &book.chapters);
    push_matter_entries(&mut body, &book.back_matter, false);
    body.append("</ol>\n</nav>\n");
    assert(body@ =~= nav_body(*book));
    pages::document("Contents", None, body.as_str(), book.meta.language.as_str())
}

} // verus!
