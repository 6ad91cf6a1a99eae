use papyrust::config::TrimSize;
use papyrust::epub::pages::{copyright_page, cover_page, document, title_page};
use papyrust::ir::{BookMeta, Copyright};

fn meta() -> BookMeta {
    BookMeta {
        title: "The Long Road".into(),
        subtitle: Some("A Novel".into()),
        author: "Jane Doe".into(),
        language: "en-US".into(),
        copyright: Copyright {
            year: 2026,
            holder: "Jane Doe".into(),
            isbn_epub: Some("978-0-000-00000-0".into()),
            isbn_print: None,
            publisher: "Self-Published".into(),
        },
        trim: TrimSize::SixByNine,
    }
}

#[test]
fn document_well_formed_shell() {
    let doc = document("Hi", Some("chapter"), "<p>body</p>\n", "en-US");
    assert!(doc.starts_with("<?xml"));
    assert!(doc.contains("<!DOCTYPE html>"));
    assert!(doc.contains(r#"lang="en-US""#));
    assert!(doc.contains(r#"epub:type="chapter""#));
    assert!(doc.contains("<title>Hi</title>"));
    assert!(doc.contains("<p>body</p>"));
}

#[test]
fn document_escapes_title_and_lang() {
    let doc = document("a & b", None, "", r#""en""#);
    assert!(doc.contains("a &amp; b"));
    assert!(doc.contains(r#"lang="&quot;en&quot;""#));
}

#[test]
fn cover_page_references_cover_jpg() {
    let html = cover_page(&meta());
    assert!(html.contains(r#"img src="cover.jpg""#));
    assert!(html.contains(r#"epub:type="cover""#));
}

#[test]
fn title_page_contains_title_subtitle_author() {
    let html = title_page(&meta());
    assert!(html.contains("The Long Road"));
    assert!(html.contains("A Novel"));
    assert!(html.contains("Jane Doe"));
    assert!(html.contains(r#"epub:type="titlepage""#));
}

#[test]
fn title_page_omits_subtitle_when_none() {
    let mut m = meta();
    m.subtitle = None;
    let html = title_page(&m);
    assert!(!html.contains("book-subtitle"));
}

#[test]
fn copyright_page_includes_year_holder_publisher_isbn() {
    let html = copyright_page(&meta());
    assert!(html.contains("2026"));
    assert!(html.contains("Jane Doe"));
    assert!(html.contains("Self-Published"));
    assert!(html.contains("978-0-000-00000-0"));
    assert!(html.contains("\u{00A9}"));
    assert!(html.contains(r#"epub:type="copyright-page""#));
}

#[test]
fn copyright_page_omits_isbn_when_none() {
    let mut m = meta();
    m.copyright.isbn_epub = None;
    let html = copyright_page(&m);
    assert!(!html.contains("ISBN:"));
}

#[test]
fn title_page_escapes_special_chars() {
    let mut m = meta();
    m.title = "A & B".into();
    let html = title_page(&m);
    assert!(html.contains("A &amp; B"));
}

#[test]
fn document_without_epub_type_has_no_type_attribute() {
    let doc = document("Hi", None, "", "en");
    assert!(!doc.contains("epub:type=\""));
    assert!(doc.ends_with("</html>\n"));
}
