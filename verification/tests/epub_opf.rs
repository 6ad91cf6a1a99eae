use papyrust::config::TrimSize;
use papyrust::epub::opf::{build, build_at, UtcTimestamp};
use papyrust::ir::{Book, BookMeta, Chapter, Copyright, Cover, MatterPage};

fn book(with_cover: bool, isbn: Option<&str>) -> Book {
    let cover = if with_cover {
        Some(Cover { bytes: vec![0xff, 0xd8, 0xff], mime: "image/jpeg" })
    } else {
        None
    };
    Book {
        meta: BookMeta {
            title: "Test & Co".into(),
            subtitle: None,
            author: "A".into(),
            language: "en-US".into(),
            copyright: Copyright {
                year: 2026,
                holder: "A".into(),
                isbn_epub: isbn.map(String::from),
                isbn_print: None,
                publisher: "P".into(),
            },
            trim: TrimSize::SixByNine,
        },
        cover,
        front_matter: vec![MatterPage { title: Some("F".into()), blocks: vec![] }],
        chapters: vec![
            Chapter { title: "One".into(), blocks: vec![] },
            Chapter { title: "Two".into(), blocks: vec![] },
        ],
        back_matter: vec![MatterPage { title: Some("B".into()), blocks: vec![] }],
    }
}

fn extract_id(s: &str) -> String {
    let start = s.find("urn:uuid:").unwrap();
    let end = s[start..].find('<').unwrap() + start;
    s[start..end].to_string()
}

#[test]
fn includes_required_metadata() {
    let opf = build(&book(true, None));
    assert!(opf.contains("<dc:identifier"));
    assert!(opf.contains("<dc:title>Test &amp; Co</dc:title>"));
    assert!(opf.contains("<dc:language>en-US</dc:language>"));
    assert!(opf.contains("<dc:date>2026</dc:date>"));
    assert!(opf.contains(r#"property="dcterms:modified""#));
}

#[test]
fn uses_isbn_when_provided() {
    let opf = build(&book(false, Some("978-0-000-00000-0")));
    assert!(opf.contains("urn:isbn:978-0-000-00000-0"));
}

#[test]
fn falls_back_to_uuid_when_no_isbn() {
    let opf = build(&book(false, None));
    assert!(opf.contains("urn:uuid:"));
}

#[test]
fn uuid_is_deterministic_for_same_metadata() {
    let a = build(&book(false, None));
    let b = build(&book(false, None));
    assert_eq!(extract_id(&a), extract_id(&b));
}

#[test]
fn manifest_lists_all_pieces() {
    let opf = build(&book(true, None));
    assert!(opf.contains(r#"id="cover-image""#));
    assert!(opf.contains(r#"id="theme-css""#));
    assert!(opf.contains(r#"id="nav""#));
    assert!(opf.contains(r#"id="cover""#));
    assert!(opf.contains(r#"id="title""#));
    assert!(opf.contains(r#"id="copyright""#));
    assert!(opf.contains(r#"id="front-001""#));
    assert!(opf.contains(r#"id="chapter-001""#));
    assert!(opf.contains(r#"id="chapter-002""#));
    assert!(opf.contains(r#"id="back-001""#));
}

#[test]
fn cover_omitted_when_no_cover() {
    let opf = build(&book(false, None));
    assert!(!opf.contains("cover-image"));
    assert!(!opf.contains(r#"id="cover""#));
    assert!(!opf.contains(r#"name="cover""#));
}

#[test]
fn spine_reading_order_is_cover_title_copyright_nav_front_chapters_back() {
    let opf = build(&book(true, None));
    let spine = &opf[opf.find("<spine>").unwrap()..opf.find("</spine>").unwrap()];
    let positions: Vec<usize> =
        ["cover", "title", "copyright", "nav", "front-001", "chapter-001", "back-001"]
            .iter()
            .map(|id| spine.find(&format!(r#"idref="{id}""#)).unwrap())
            .collect();
    assert!(positions.windows(2).all(|w| w[0] < w[1]));
}

#[test]
fn dcterms_modified_format_matches_spec() {
    let opf = build(&book(false, None));
    let start = opf.find(r#"dcterms:modified">"#).unwrap() + 18;
    let end = start + opf[start..].find('<').unwrap();
    let stamp = &opf[start..end];
    assert_eq!(stamp.len(), 20, "expected YYYY-MM-DDThh:mm:ssZ, got {stamp}");
    assert!(stamp.ends_with('Z'));
    assert!(!stamp.contains('.'));
}

#[test]
fn stamp_is_written_with_zero_padding() {
    let t = UtcTimestamp { year: 2026, month: 3, day: 7, hour: 4, minute: 5, second: 9 };
    let opf = build_at(&book(false, None), &t);
    assert!(opf.contains(r#"<meta property="dcterms:modified">2026-03-07T04:05:09Z</meta>"#));
}

#[test]
fn uuid_is_the_v5_url_uuid_of_title_author_year() {
    let opf = build(&book(false, None));
    let expected = uuid::Uuid::new_v5(&uuid::Uuid::NAMESPACE_URL, "Test & Co|A|2026".as_bytes());
    assert_eq!(extract_id(&opf), format!("urn:uuid:{expected}"));
}

#[test]
fn uuid_changes_with_the_title() {
    let mut other = book(false, None);
    other.meta.title = "Another".into();
    let a = build(&book(false, None));
    let b = build(&other);
    assert_ne!(extract_id(&a), extract_id(&b));
}

#[test]
fn uuid_ignores_fields_outside_title_author_year() {
    let mut other = book(true, None);
    other.meta.subtitle = Some("Sub".into());
    other.meta.copyright.publisher = "Q".into();
    other.chapters.pop();
    assert_eq!(extract_id(&build(&book(false, None))), extract_id(&build(&other)));
}
