use std::io::{Cursor, Read};

use papyrust::config::TrimSize;
use papyrust::epub::archive::archive_entries;
use papyrust::epub::opf::UtcTimestamp;
use papyrust::epub::{assemble, assemble_at, chapter_xhtml, matter_xhtml, render};
use papyrust::ir::{Block, Book, BookMeta, Chapter, Copyright, Cover, Inline, MatterPage};

fn book() -> Book {
    Book {
        meta: BookMeta {
            title: "T".into(),
            subtitle: None,
            author: "A".into(),
            language: "en".into(),
            copyright: Copyright {
                year: 2026,
                holder: "A".into(),
                isbn_epub: Some("123".into()),
                isbn_print: None,
                publisher: "P".into(),
            },
            trim: TrimSize::SixByNine,
        },
        cover: Some(Cover { bytes: vec![1, 2, 3], mime: "image/jpeg" }),
        front_matter: vec![MatterPage { title: None, blocks: vec![] }],
        chapters: vec![Chapter {
            title: "One & Only".into(),
            blocks: vec![Block::Paragraph(vec![Inline::Text("Hi".into())])],
        }],
        back_matter: vec![],
    }
}

#[test]
fn chapter_page_has_title_and_first_paragraph_class() {
    let b = book();
    let html = chapter_xhtml(&b.chapters[0], "en");
    assert!(html.contains(r#"<h1 class="chapter-title">One &amp; Only</h1>"#));
    assert!(html.contains(r#"<p class="first-paragraph">Hi</p>"#));
    assert!(html.contains("<title>One &amp; Only</title>"));
    assert!(html.contains(r#"epub:type="chapter""#));
}

#[test]
fn untitled_matter_page_uses_its_type_as_title() {
    let b = book();
    let html = matter_xhtml(&b.front_matter[0], "frontmatter", "en");
    assert!(html.contains("<title>frontmatter</title>"));
    assert!(!html.contains("matter-title"));
}

#[test]
fn assembled_package_holds_every_page() {
    let b = book();
    let pkg = assemble(&b, "css");
    assert_eq!(pkg.stylesheet, "css");
    assert_eq!(pkg.chapter_xhtml.len(), 1);
    assert_eq!(pkg.front_matter_xhtml.len(), 1);
    assert!(pkg.back_matter_xhtml.is_empty());
    assert_eq!(pkg.cover.as_ref().unwrap().image_bytes, &[1, 2, 3]);
    assert!(pkg.opf.contains("urn:isbn:123"));
}

#[test]
fn fixed_stamp_gives_identical_packages() {
    let b = book();
    let t = UtcTimestamp { year: 2026, month: 1, day: 2, hour: 3, minute: 4, second: 5 };
    let p1 = assemble_at(&b, "css", &t);
    let p2 = assemble_at(&b, "css", &t);
    assert_eq!(p1.opf, p2.opf);
    assert!(p1.opf.contains("2026-01-02T03:04:05Z"));
    let names: Vec<String> = archive_entries(&p1).iter().map(|e| e.name.clone()).collect();
    assert_eq!(names[0], "mimetype");
    assert_eq!(names.len(), 11);
}

#[test]
fn rendered_epub_is_a_zip_with_the_book_inside() {
    let b = book();
    let bytes = render(&b, "css").unwrap();
    let mut archive = zip::ZipArchive::new(Cursor::new(bytes)).unwrap();
    let mut s = String::new();
    archive.by_name("OEBPS/chapter-001.xhtml").unwrap().read_to_string(&mut s).unwrap();
    assert!(s.contains("One &amp; Only"));
    let mut img = Vec::new();
    archive.by_name("OEBPS/cover.jpg").unwrap().read_to_end(&mut img).unwrap();
    assert_eq!(img, vec![1, 2, 3]);
    assert!(archive.by_name("OEBPS/front-001.xhtml").is_ok());
}
