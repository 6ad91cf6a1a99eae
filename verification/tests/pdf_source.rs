use papyrust::config::TrimSize;
use papyrust::ir::{Block, Book, BookMeta, Chapter, Copyright, Inline};
use papyrust::pdf::source::{build, escape_str};
use papyrust::pdf::diagnostics_text;

fn meta() -> BookMeta {
    BookMeta {
        title: "Title".into(),
        subtitle: None,
        author: "Author".into(),
        language: "en-US".into(),
        copyright: Copyright {
            year: 2026,
            holder: "Author".into(),
            isbn_epub: None,
            isbn_print: None,
            publisher: "Self-Published".into(),
        },
        trim: TrimSize::SixByNine,
    }
}

fn small_book() -> Book {
    Book {
        meta: meta(),
        cover: None,
        front_matter: vec![],
        chapters: vec![Chapter {
            title: "One".into(),
            blocks: vec![Block::Paragraph(vec![Inline::Text("Hello.".into())])],
        }],
        back_matter: vec![],
    }
}

#[test]
fn escape_str_handles_backslash_and_quote() {
    assert_eq!(escape_str(r#"a \ b "quoted""#), r#"a \\ b \"quoted\""#);
}

#[test]
fn escape_str_leaves_typst_markup_chars_alone() {
    assert_eq!(escape_str("a # b * c _ d"), "a # b * c _ d");
}

#[test]
fn preamble_uses_trim_dimensions() {
    let s = build(&small_book());
    assert!(s.contains("width: 6in"));
    assert!(s.contains("height: 9in"));
}

#[test]
fn preamble_sets_font_and_strips_region_from_language() {
    let s = build(&small_book());
    assert!(s.contains(r#"font: "EB Garamond""#));
    assert!(s.contains(r#"lang: "en""#));
    assert!(!s.contains(r#"lang: "en-US""#));
}

#[test]
fn build_includes_required_sections() {
    let src = build(&small_book());
    assert!(src.contains("#set document"));
    assert!(src.contains("#set page"));
    assert!(src.contains("#set text"));
    assert!(src.contains("#align(center + horizon)"));
    assert!(src.contains("Copyright"));
    assert!(src.contains("#outline"));
    assert!(src.contains("= One"));
}

#[test]
fn user_text_is_safely_quoted() {
    let mut book = small_book();
    book.chapters[0].blocks = vec![
        Block::Paragraph(vec![Inline::Text("First paragraph.".into())]),
        Block::Paragraph(vec![Inline::Text(r#"He said "hi" \ and # also"#.into())]),
    ];
    let src = build(&book);
    assert!(src.contains(r#"#text("He said \"hi\" \\ and # also")"#));
}

#[test]
fn emphasis_and_strong_use_typst_functions() {
    let mut book = small_book();
    book.chapters[0].blocks = vec![Block::Paragraph(vec![
        Inline::Emphasis(vec![Inline::Text("em".into())]),
        Inline::Strong(vec![Inline::Text("st".into())]),
    ])];
    let src = build(&book);
    assert!(src.contains(r#"#emph[#text("em")]"#));
    assert!(src.contains(r#"#strong[#text("st")]"#));
}

#[test]
fn scene_break_emits_helper() {
    let mut book = small_book();
    book.chapters[0].blocks = vec![Block::SceneBreak];
    let src = build(&book);
    assert!(src.contains("#scene-break"));
}

#[test]
fn subtitle_omitted_when_none() {
    let src = build(&small_book());
    assert!(!src.contains("style: \"italic\""));
}

#[test]
fn subtitle_included_when_some() {
    let mut book = small_book();
    book.meta.subtitle = Some("A Subtitle".into());
    let src = build(&book);
    assert!(src.contains(r#"style: "italic""#));
    assert!(src.contains("A Subtitle"));
}

#[test]
fn first_chapter_paragraph_gets_raised_cap() {
    let mut book = small_book();
    book.chapters[0].blocks = vec![
        Block::Paragraph(vec![Inline::Text("It was a dark night.".into())]),
        Block::Paragraph(vec![Inline::Text("Second paragraph.".into())]),
    ];
    let src = build(&book);
    assert!(src.contains(r#"#raise-cap("I")"#));
    assert!(src.contains(r#"#text("t was a dark night.")"#));
    assert!(src.contains(r#"#text("Second paragraph.")"#));
}

#[test]
fn raised_cap_skipped_when_first_char_not_alphabetic() {
    let mut book = small_book();
    book.chapters[0].blocks =
        vec![Block::Paragraph(vec![Inline::Text("1999 was a strange year.".into())])];
    let src = build(&book);
    assert!(!src.contains("#raise-cap"));
    assert!(src.contains(r#"#text("1999 was a strange year.")"#));
}

#[test]
fn raised_cap_skipped_when_first_inline_is_emphasis() {
    let mut book = small_book();
    book.chapters[0].blocks = vec![Block::Paragraph(vec![
        Inline::Emphasis(vec![Inline::Text("Italic".into())]),
        Inline::Text(" start.".into()),
    ])];
    let src = build(&book);
    assert!(!src.contains("#raise-cap"));
}

#[test]
fn isbn_print_prefers_over_isbn_epub() {
    let mut book = small_book();
    book.meta.copyright.isbn_print = Some("PRINT".into());
    book.meta.copyright.isbn_epub = Some("EPUB".into());
    let src = build(&book);
    assert!(src.contains("ISBN: PRINT"));
    assert!(!src.contains("ISBN: EPUB"));
}

#[test]
fn raised_cap_applies_to_non_ascii_letters() {
    let mut book = small_book();
    book.chapters[0].blocks = vec![Block::Paragraph(vec![Inline::Text("Été.".into())])];
    let src = build(&book);
    assert!(src.contains(r#"#raise-cap("É")"#));
    assert!(src.contains(r#"#text("té.")"#));
}

#[test]
fn five_by_eight_trim_sets_page_size() {
    let mut book = small_book();
    book.meta.trim = TrimSize::FiveByEight;
    let src = build(&book);
    assert!(src.contains("width: 5in"));
    assert!(src.contains("height: 8in"));
}

#[test]
fn diagnostics_are_joined_one_per_line() {
    assert_eq!(diagnostics_text(&vec!["a".to_string(), "b".to_string(), "c".to_string()]), "a\nb\nc");
    assert_eq!(diagnostics_text(&vec!["only".to_string()]), "only");
    assert_eq!(diagnostics_text(&vec![]), "");
}

fn literal_value(body: &str) -> Option<String> {
    let mut out = String::new();
    let mut chars = body.chars();
    while let Some(c) = chars.next() {
        match c {
            '\\' => match chars.next() {
                Some(e) if e == '\\' || e == '"' => out.push(e),
                _ => return None,
            },
            '"' => return None,
            c => out.push(c),
        }
    }
    Some(out)
}

#[test]
fn escaped_text_reads_back_as_one_literal() {
    for s in ["", "\\", "\"", "a\\\"b", "end with \\", "#set page(width: 1in)", "“curly” ‘quotes’"] {
        assert_eq!(literal_value(&escape_str(s)).as_deref(), Some(s));
    }
}

#[test]
fn markup_in_a_title_stays_inside_a_literal() {
    let mut book = small_book();
    book.chapters[0].title = "#lorem(3)".into();
    book.back_matter = vec![papyrust::ir::MatterPage { title: Some("*About*".into()), blocks: vec![] }];
    let src = build(&book);
    assert!(!src.contains("= #lorem(3)"));
    assert!(src.contains(r##"= #text("#lorem(3)")"##));
    assert!(src.contains(r#"== #text("*About*")"#));
}

#[test]
fn plain_titles_are_written_as_they_stand() {
    let mut book = small_book();
    book.chapters[0].title = "Chapter 12 The End".into();
    let src = build(&book);
    assert!(src.contains("\n= Chapter 12 The End\n"));
}
