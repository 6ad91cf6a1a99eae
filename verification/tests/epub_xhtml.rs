use papyrust::epub::xhtml::render_blocks;
use papyrust::ir::{Block, HeadingLevel, Inline, ListItem};

#[test]
fn plain_paragraph() {
    let html = render_blocks(&[Block::Paragraph(vec![Inline::Text("hello".into())])], false);
    assert_eq!(html, "<p>hello</p>\n");
}

#[test]
fn first_paragraph_in_chapter_gets_class() {
    let html = render_blocks(
        &[
            Block::Paragraph(vec![Inline::Text("one".into())]),
            Block::Paragraph(vec![Inline::Text("two".into())]),
        ],
        true,
    );
    assert!(html.contains(r#"<p class="first-paragraph">one</p>"#));
    assert!(html.contains("<p>two</p>"));
}

#[test]
fn matter_pages_get_no_drop_cap_class() {
    let html = render_blocks(&[Block::Paragraph(vec![Inline::Text("hi".into())])], false);
    assert!(!html.contains("first-paragraph"));
}

#[test]
fn emphasis_and_strong() {
    let html = render_blocks(
        &[Block::Paragraph(vec![
            Inline::Emphasis(vec![Inline::Text("i".into())]),
            Inline::Text(" and ".into()),
            Inline::Strong(vec![Inline::Text("b".into())]),
        ])],
        false,
    );
    assert_eq!(html, "<p><em>i</em> and <strong>b</strong></p>\n");
}

#[test]
fn xml_special_chars_escaped() {
    let html = render_blocks(&[Block::Paragraph(vec![Inline::Text("a < b & c".into())])], false);
    assert_eq!(html, "<p>a &lt; b &amp; c</p>\n");
}

#[test]
fn scene_break_renders_ornament_div() {
    let html = render_blocks(&[Block::SceneBreak], false);
    assert!(html.contains("scene-break"));
    assert!(html.contains("* * *"));
}

#[test]
fn headings_map_to_h2_h3_h4() {
    let html = render_blocks(
        &[
            Block::Heading { level: HeadingLevel::H2, content: vec![Inline::Text("Two".into())] },
            Block::Heading { level: HeadingLevel::H3, content: vec![Inline::Text("Three".into())] },
            Block::Heading { level: HeadingLevel::H4, content: vec![Inline::Text("Four".into())] },
        ],
        false,
    );
    assert!(html.contains("<h2>Two</h2>"));
    assert!(html.contains("<h3>Three</h3>"));
    assert!(html.contains("<h4>Four</h4>"));
}

#[test]
fn blockquote_wraps_inner_blocks() {
    let html = render_blocks(
        &[Block::BlockQuote(vec![Block::Paragraph(vec![Inline::Text("quoted".into())])])],
        false,
    );
    assert!(html.starts_with("<blockquote>"));
    assert!(html.contains("<p>quoted</p>"));
    assert!(html.contains("</blockquote>"));
}

#[test]
fn unordered_list() {
    let html = render_blocks(
        &[Block::UnorderedList(vec![
            ListItem { blocks: vec![Block::Paragraph(vec![Inline::Text("a".into())])] },
            ListItem { blocks: vec![Block::Paragraph(vec![Inline::Text("b".into())])] },
        ])],
        false,
    );
    assert!(html.contains("<ul>"));
    assert!(html.contains("<li><p>a</p>\n</li>"));
    assert!(html.contains("</ul>"));
}

#[test]
fn hard_break_becomes_br() {
    let html = render_blocks(
        &[Block::Paragraph(vec![
            Inline::Text("line".into()),
            Inline::HardBreak,
            Inline::Text("break".into()),
        ])],
        false,
    );
    assert!(html.contains("<br/>"));
}

#[test]
fn soft_break_becomes_space() {
    let html = render_blocks(
        &[Block::Paragraph(vec![
            Inline::Text("one".into()),
            Inline::SoftBreak,
            Inline::Text("two".into()),
        ])],
        false,
    );
    assert_eq!(html, "<p>one two</p>\n");
}

#[test]
fn paragraphs_inside_blockquote_never_get_drop_cap() {
    let html = render_blocks(
        &[Block::BlockQuote(vec![Block::Paragraph(vec![Inline::Text("q".into())])])],
        true,
    );
    assert!(!html.contains("first-paragraph"));
}

#[test]
fn ordered_list_uses_ol() {
    let html = render_blocks(
        &[Block::OrderedList(vec![ListItem {
            blocks: vec![Block::Paragraph(vec![Inline::Text("x".into())])],
        }])],
        false,
    );
    assert_eq!(html, "<ol>\n<li><p>x</p>\n</li>\n</ol>\n");
}

#[test]
fn only_the_first_paragraph_gets_the_class_after_a_heading() {
    let html = render_blocks(
        &[
            Block::Heading { level: HeadingLevel::H2, content: vec![Inline::Text("H".into())] },
            Block::Paragraph(vec![Inline::Text("one".into())]),
        ],
        true,
    );
    assert!(html.contains(r#"<p class="first-paragraph">one</p>"#));
}

#[test]
fn only_the_first_top_level_paragraph_is_marked() {
    let blocks = [
        Block::SceneBreak,
        Block::Paragraph(vec![Inline::Text("one".into())]),
        Block::Paragraph(vec![Inline::Text("two".into())]),
    ];
    let chapter = render_blocks(&blocks, true);
    let plain = render_blocks(&blocks, false);
    assert_eq!(chapter.matches("first-paragraph").count(), 1);
    assert_eq!(chapter, plain.replacen("<p>", "<p class=\"first-paragraph\">", 1));
}

#[test]
fn unmarked_renderings_never_hold_the_marker() {
    let blocks = [
        Block::BlockQuote(vec![Block::Paragraph(vec![Inline::Text("<p class=\"first-paragraph\">".into())])]),
        Block::Paragraph(vec![Inline::Text("x".into())]),
    ];
    assert!(!render_blocks(&blocks, false).contains("<p class=\"first-paragraph\">"));
}
