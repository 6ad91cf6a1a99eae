use papyrust::ir::{Block, HeadingLevel, Inline};
use papyrust::markdown::{MdEvent, MdTag};
use papyrust::parse::{parse_chapter, parse_chapter_events, parse_matter_page, parse_matter_page_events, ParseError};

#[test]
fn parses_chapter_with_title_and_paragraphs() {
    let md = "# The Beginning\n\nIt was a dark night.\n\nThen morning came.\n";
    let ch = parse_chapter(md).unwrap();
    assert_eq!(ch.title, "The Beginning");
    assert_eq!(ch.blocks.len(), 2);
    assert!(matches!(ch.blocks[0], Block::Paragraph(_)));
}

#[test]
fn chapter_without_h1_errors() {
    let md = "Just some prose with no heading.\n";
    assert!(matches!(parse_chapter(md), Err(ParseError::MissingChapterTitle)));
}

#[test]
fn title_collapses_inline_emphasis() {
    let md = "# Chapter 1: *The Beginning*\n";
    let ch = parse_chapter(md).unwrap();
    assert_eq!(ch.title, "Chapter 1: The Beginning");
}

#[test]
fn horizontal_rule_becomes_scene_break() {
    let md = "# X\n\nFirst.\n\n---\n\nSecond.\n";
    let ch = parse_chapter(md).unwrap();
    let kinds: Vec<&'static str> = ch
        .blocks
        .iter()
        .map(|b| match b {
            Block::Paragraph(_) => "p",
            Block::SceneBreak => "br",
            _ => "?",
        })
        .collect();
    assert_eq!(kinds, vec!["p", "br", "p"]);
}

#[test]
fn supports_h2_h3() {
    let md = "# X\n\n## Subhead\n\n### Smaller\n";
    let ch = parse_chapter(md).unwrap();
    assert_eq!(ch.blocks.len(), 2);
    assert!(matches!(ch.blocks[0], Block::Heading { level: HeadingLevel::H2, .. }));
    assert!(matches!(ch.blocks[1], Block::Heading { level: HeadingLevel::H3, .. }));
}

#[test]
fn supports_blockquote() {
    let md = "# X\n\n> Quoted line.\n> Continued.\n";
    let ch = parse_chapter(md).unwrap();
    assert_eq!(ch.blocks.len(), 1);
    let Block::BlockQuote(inner) = &ch.blocks[0] else {
        panic!("expected blockquote");
    };
    assert_eq!(inner.len(), 1);
    assert!(matches!(inner[0], Block::Paragraph(_)));
}

#[test]
fn supports_unordered_list() {
    let md = "# X\n\n- one\n- two\n- three\n";
    let ch = parse_chapter(md).unwrap();
    let Block::UnorderedList(items) = &ch.blocks[0] else {
        panic!("expected unordered list");
    };
    assert_eq!(items.len(), 3);
}

#[test]
fn supports_ordered_list() {
    let md = "# X\n\n1. one\n2. two\n";
    let ch = parse_chapter(md).unwrap();
    assert!(matches!(ch.blocks[0], Block::OrderedList(_)));
}

#[test]
fn emphasis_and_strong_in_paragraph() {
    let md = "# X\n\nThis is *italic* and **bold**.\n";
    let ch = parse_chapter(md).unwrap();
    let Block::Paragraph(inlines) = &ch.blocks[0] else {
        panic!();
    };
    let kinds: Vec<&'static str> = inlines
        .iter()
        .map(|i| match i {
            Inline::Text(_) => "t",
            Inline::Emphasis(_) => "em",
            Inline::Strong(_) => "st",
            Inline::SoftBreak => "sb",
            Inline::HardBreak => "hb",
        })
        .collect();
    assert!(kinds.contains(&"em"));
    assert!(kinds.contains(&"st"));
}

#[test]
fn matter_page_h1_optional() {
    let with = parse_matter_page("# Dedication\n\nFor you.\n");
    assert_eq!(with.title.as_deref(), Some("Dedication"));
    let without = parse_matter_page("For you.\n");
    assert!(without.title.is_none());
    assert_eq!(without.blocks.len(), 1);
}

#[test]
fn empty_input_parses_as_empty_matter_page() {
    let p = parse_matter_page("");
    assert!(p.title.is_none());
    assert!(p.blocks.is_empty());
}

#[test]
fn stray_h1_after_title_downgraded_to_h2() {
    let md = "# First\n\n# Second\n";
    let ch = parse_chapter(md).unwrap();
    assert_eq!(ch.title, "First");
    let Block::Heading { level, .. } = &ch.blocks[0] else {
        panic!("expected heading block");
    };
    assert_eq!(*level, HeadingLevel::H2);
}

#[test]
fn unsupported_constructs_do_not_panic() {
    let md = "# X\n\n```\nlet x = 1;\n```\n\n![alt](img.png)\n\n[link](u)\n";
    let ch = parse_chapter(md).unwrap();
    assert!(ch.blocks.iter().all(|b| !matches!(b, Block::SceneBreak)));
}

#[test]
fn events_with_a_title_give_a_chapter() {
    let events = vec![
        MdEvent::Start(MdTag::Heading(1)),
        MdEvent::Text("Title ".into()),
        MdEvent::Start(MdTag::Strong),
        MdEvent::Text("bold".into()),
        MdEvent::End(MdTag::Strong),
        MdEvent::End(MdTag::Heading(1)),
        MdEvent::Start(MdTag::Paragraph),
        MdEvent::Text("a".into()),
        MdEvent::SoftBreak,
        MdEvent::Code("b".into()),
        MdEvent::End(MdTag::Paragraph),
        MdEvent::Rule,
    ];
    let ch = parse_chapter_events(&events).unwrap();
    assert_eq!(ch.title, "Title bold");
    assert_eq!(ch.blocks.len(), 2);
    let Block::Paragraph(inlines) = &ch.blocks[0] else {
        panic!("expected paragraph");
    };
    assert_eq!(inlines.len(), 3);
    assert!(matches!(&inlines[2], Inline::Text(t) if t == "b"));
    assert!(matches!(ch.blocks[1], Block::SceneBreak));
}

#[test]
fn events_without_a_title_give_the_error() {
    let events = vec![
        MdEvent::Start(MdTag::Paragraph),
        MdEvent::Text("prose".into()),
        MdEvent::End(MdTag::Paragraph),
    ];
    assert!(matches!(parse_chapter_events(&events), Err(ParseError::MissingChapterTitle)));
    let page = parse_matter_page_events(&events);
    assert!(page.title.is_none());
    assert_eq!(page.blocks.len(), 1);
}

#[test]
fn deep_headings_become_h4() {
    let ch = parse_chapter("# X\n\n#### Four\n\n###### Six\n").unwrap();
    assert!(matches!(ch.blocks[0], Block::Heading { level: HeadingLevel::H4, .. }));
    assert!(matches!(ch.blocks[1], Block::Heading { level: HeadingLevel::H4, .. }));
}

#[test]
fn missing_title_message() {
    assert_eq!(ParseError::MissingChapterTitle.message(), "chapter is missing a `# Heading` title");
}

#[test]
fn chapter_and_matter_page_read_the_same_file_alike() {
    let md = "# Title\n\nBody *text*.\n\n- a\n";
    let ch = parse_chapter(md).unwrap();
    let page = parse_matter_page(md);
    assert_eq!(page.title.as_deref(), Some(ch.title.as_str()));
    assert_eq!(format!("{:?}", page.blocks), format!("{:?}", ch.blocks));
}
