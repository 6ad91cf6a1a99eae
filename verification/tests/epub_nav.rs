use papyrust::config::TrimSize;
use papyrust::epub::nav::build;
use papyrust::ir::{Book, BookMeta, Chapter, Copyright, MatterPage};

fn book_with(chapters: Vec<&str>, front: Vec<Option<&str>>, back: Vec<Option<&str>>) -> Book {
    Book {
        meta: BookMeta {
            title: "T".into(),
            subtitle: None,
            author: "A".into(),
            language: "en-US".into(),
            copyright: Copyright {
                year: 2026,
                holder: "A".into(),
                isbn_epub: None,
                isbn_print: None,
                publisher: "P".into(),
            },
            trim: TrimSize::SixByNine,
        },
        cover: None,
        front_matter: front
            .into_iter()
            .map(|t| MatterPage { title: t.map(String::from), blocks: vec![] })
            .collect(),
        chapters: chapters
            .into_iter()
            .map(|t| Chapter { title: t.into(), blocks: vec![] })
            .collect(),
        back_matter: back
            .into_iter()
            .map(|t| MatterPage { title: t.map(String::from), blocks: vec![] })
            .collect(),
    }
}

#[test]
fn lists_all_chapters_in_order() {
    let book = book_with(vec!["One", "Two", "Three"], vec![], vec![]);
    let nav = build(&book);
    assert!(nav.contains(r#"<a href="chapter-001.xhtml">One</a>"#));
    assert!(nav.contains(r#"<a href="chapter-002.xhtml">Two</a>"#));
    assert!(nav.contains(r#"<a href="chapter-003.xhtml">Three</a>"#));
    let one_pos = nav.find("chapter-001").unwrap();
    let two_pos = nav.find("chapter-002").unwrap();
    assert!(one_pos < two_pos);
}

#[test]
fn front_matter_with_title_is_included() {
    let book = book_with(vec!["One"], vec![Some("Dedication")], vec![]);
    let nav = build(&book);
    assert!(nav.contains(r#"<a href="front-001.xhtml">Dedication</a>"#));
}

#[test]
fn front_matter_without_title_is_skipped() {
    let book = book_with(vec!["One"], vec![None], vec![]);
    let nav = build(&book);
    assert!(!nav.contains("front-001"));
}

#[test]
fn back_matter_with_title_is_included() {
    let book = book_with(vec!["One"], vec![], vec![Some("About")]);
    let nav = build(&book);
    assert!(nav.contains(r#"<a href="back-001.xhtml">About</a>"#));
}

#[test]
fn cover_title_copyright_never_appear() {
    let book = book_with(vec!["One"], vec![], vec![]);
    let nav = build(&book);
    assert!(!nav.contains("cover.xhtml"));
    assert!(!nav.contains("title.xhtml"));
    assert!(!nav.contains("copyright.xhtml"));
}

#[test]
fn nav_is_well_formed_xhtml() {
    let book = book_with(vec!["One"], vec![], vec![]);
    let nav = build(&book);
    assert!(nav.contains("<?xml"));
    assert!(nav.contains(r#"<nav epub:type="toc""#));
    assert!(nav.contains("</nav>"));
}

#[test]
fn chapter_titles_are_escaped() {
    let book = book_with(vec!["a & b"], vec![], vec![]);
    let nav = build(&book);
    assert!(nav.contains("a &amp; b"));
}

#[test]
fn untitled_page_keeps_numbering_of_later_pages() {
    let book = book_with(vec!["One"], vec![None, Some("Epigraph")], vec![]);
    let nav = build(&book);
    assert!(nav.contains(r#"<a href="front-002.xhtml">Epigraph</a>"#));
    let front = nav.find("front-002").unwrap();
    let chapter = nav.find("chapter-001").unwrap();
    assert!(front < chapter);
}
