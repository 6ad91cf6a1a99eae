//! Render Book IR blocks and inlines to XHTML body content.
//!
//! The output is a body fragment; the caller wraps it in the document
//! boilerplate of the page kind (chapter, matter page, generated page).
use vstd::prelude::*;

use crate::epub::escape::{self, escape_text, escaped_text_has_no_angle_brackets};
use crate::ir::{
    block_view, blocks_view, inline_view, inlines_view, items_view, Block, BlockView, HeadingLevel,
    Inline, InlineView, ListItem,
};

verus! {

broadcast use vstd::string::group_string_axioms;

/// Centered ornament rendered for a scene break. Three asterisks are the
/// trade-press fiction convention and render in any font.
pub const SCENE_ORNAMENT: &'static str = "* * *";

pub open spec fn xhtml_inline(x: InlineView) -> Seq<char>
    decreases x,
{
    match x {
        InlineView::Text(t) => escape_text(t),
        InlineView::Emphasis(inner) => "<em>"@ + xhtml_inlines(inner) + "</em>"@,
        InlineView::Strong(inner) => "<strong>"@ + xhtml_inlines(inner) + "</strong>"@,
        InlineView::SoftBreak => " "@,
        InlineView::HardBreak => "<br/>"@,
    }
}

pub open spec fn xhtml_inlines(s: Seq<InlineView>) -> Seq<char>
    decreases s,
{
    if s.len() == 0 {
        seq![]
    } else {
        xhtml_inlines(s.drop_last()) + xhtml_inline(s.last())
    }
}

pub open spec fn heading_tag(level: HeadingLevel) -> Seq<char> {
    match level {
        HeadingLevel::H2 => "h2"@,
        HeadingLevel::H3 => "h3"@,
        HeadingLevel::H4 => "h4"@,
    }
}

/// The XHTML of one block; `first` marks the chapter's first paragraph.
pub open spec fn xhtml_block(b: BlockView, first: bool) -> Seq<char>
    decreases b,
{
    match b {
        BlockView::Paragraph(il) => (if first {
            "<p class=\"first-paragraph\">"@
        } else {
            "<p>"@
        }) + xhtml_inlines(il) + "</p>\n"@,
        BlockView::Heading { level, content } => "<"@ + heading_tag(level) + ">"@ + xhtml_inlines(
            content,
        ) + "</"@ + heading_tag(level) + ">\n"@,
        BlockView::SceneBreak => "<div class=\"scene-break\" role=\"separator\">"@ + "* * *"@
            + "</div>\n"@,
        BlockView::BlockQuote(inner) => "<blockquote>\n"@ + xhtml_nested(inner) + "</blockquote>\n"@,
        BlockView::UnorderedList(items) => "<ul>\n"@ + xhtml_items(items) + "</ul>\n"@,
        BlockView::OrderedList(items) => "<ol>\n"@ + xhtml_items(items) + "</ol>\n"@,
    }
}

/// Blocks nested in a quote or list item: none is marked first.
pub open spec fn xhtml_nested(s: Seq<BlockView>) -> Seq<char>
    decreases s,
{
    if s.len() == 0 {
        seq![]
    } else {
        xhtml_nested(s.drop_last()) + xhtml_block(s.last(), false)
    }
}

pub open spec fn xhtml_items(s: Seq<Seq<BlockView>>) -> Seq<char>
    decreases s,
{
    if s.len() == 0 {
        seq![]
    } else {
        xhtml_items(s.drop_last()) + "<li>"@ + xhtml_nested(s.last()) + "</li>\n"@
    }
}

/// Whether some block of `s` is a paragraph.
pub open spec fn has_paragraph(s: Seq<BlockView>) -> bool {
    exists|j: int| 0 <= j < s.len() && #[trigger] s[j] is Paragraph
}

/// The XHTML of a top-level run of blocks. In a chapter body the first
/// paragraph (wherever it stands) is marked for the drop cap.
pub open spec fn xhtml_blocks(s: Seq<BlockView>, chapter_body: bool) -> Seq<char>
    decreases s.len(),
{
    if s.len() == 0 {
        seq![]
    } else {
        xhtml_blocks(s.drop_last(), chapter_body) + xhtml_block(
            s.last(),
            chapter_body && s.last() is Paragraph && !has_paragraph(s.drop_last()),
        )
    }
}

proof fn lemma_take_push<T>(s: Seq<T>, i: int)
    requires
        0 <= i < s.len(),
    ensures
        s.take(i + 1) == s.take(i).push(s[i]),
        s.take(i + 1).drop_last() == s.take(i),
        s.take(i + 1).last() == s[i],
{
    assert(s.take(i + 1) =~= s.take(i).push(s[i]));
    assert(s.take(i + 1).drop_last() =~= s.take(i));
}

fn render_inlines(out: &mut String, inlines: &Vec<Inline>)
    ensures
        final(out)@ == old(out)@ + xhtml_inlines(inlines_view(inlines@)),
    decreases inlines,
{
    let ghost start = out@;
    let mut i: usize = 0;
    while i < inlines.len()
        invariant
            i <= inlines@.len(),
            out@ == start + xhtml_inlines(inlines_view(inlines@.take(i as int))),
        decreases inlines@.len() - i,
    {
        let ghost before = out@;
        match &inlines[i] {
            Inline::Text(s) => {
                let e = escape::text(s.as_str());
                out.append(e.as_str());
            },
            Inline::Emphasis(inner) => {
                out.append("<em>");
                render_inlines(out, inner);
                out.append("</em>");
            },
            Inline::Strong(inner) => {
                out.append("<strong>");
                render_inlines(out, inner);
                out.append("</strong>");
            },
            Inline::SoftBreak => out.append(" "),
            Inline::HardBreak => out.append("<br/>"),
        }
        proof {
            lemma_take_push(inlines@, i as int);
            let pre = inlines_view(inlines@.take(i as int));
            let x = inline_view(inlines@[i as int]);
            assert(inlines_view(inlines@.take(i + 1)) == pre.push(x));
            assert(pre.push(x).drop_last() =~= pre);
            assert(out@ =~= before + xhtml_inline(x));
        }
        i = i + 1;
    }
    assert(inlines@.take(inlines@.len() as int) =~= inlines@);
}

fn render_block(out: &mut String, block: &Block, first_paragraph: bool)
    ensures
        final(out)@ == old(out)@ + xhtml_block(block_view(*block), first_paragraph),
    decreases block,
{
    let ghost start = out@;
    match block {
        Block::Paragraph(inlines) => {
            if first_paragraph {
                out.append("<p class=\"first-paragraph\">");
            } else {
                out.append("<p>");
            }
            render_inlines(out, inlines);
            out.append("</p>\n");
        },
        Block::Heading { level, content } => {
            let tag = match level {
                HeadingLevel::H2 => "h2",
                HeadingLevel::H3 => "h3",
                HeadingLevel::H4 => "h4",
            };
            out.append("<");
            out.append(tag);
            out.append(">");
            render_inlines(out, content);
            out.append("</");
            out.append(tag);
            out.append(">\n");
        },
        Block::SceneBreak => {
            out.append("<div class=\"scene-break\" role=\"separator\">");
            out.append(SCENE_ORNAMENT);
            out.append("</div>\n");
        },
        Block::BlockQuote(inner) => {
            out.append("<blockquote>\n");
            render_nested(out, inner);
            out.append("</blockquote>\n");
        },
        Block::UnorderedList(items) => {
            out.append("<ul>\n");
            render_items(out, items);
            out.append("</ul>\n");
        },
        Block::OrderedList(items) => {
            out.append("<ol>\n");
            render_items(out, items);
            out.append("</ol>\n");
        },
    }
    assert(out@ =~= start + xhtml_block(block_view(*block), first_paragraph));
}

fn render_nested(out: &mut String, blocks: &Vec<Block>)
    ensures
        final(out)@ == old(out)@ + xhtml_nested(blocks_view(blocks@)),
    decreases blocks,
{
    let ghost start = out@;
    let mut i: usize = 0;
    while i < blocks.len()
        invariant
            i <= blocks@.len(),
            out@ == start + xhtml_nested(blocks_view(blocks@.take(i as int))),
        decreases blocks@.len() - i,
    {
        let ghost before = out@;
        render_block(out, &blocks[i], false);
        proof {
            lemma_take_push(blocks@, i as int);
            let pre = blocks_view(blocks@.take(i as int));
            let x = block_view(blocks@[i as int]);
            assert(blocks_view(blocks@.take(i + 1)) == pre.push(x));
            assert(pre.push(x).drop_last() =~= pre);
            assert(out@ =~= before + xhtml_block(x, false));
        }
        i = i + 1;
    }
    assert(blocks@.take(blocks@.len() as int) =~= blocks@);
}

fn render_items(out: &mut String, items: &Vec<ListItem>)
    ensures
        final(out)@ == old(out)@ + xhtml_items(items_view(items@)),
    decreases items,
{
    let ghost start = out@;
    let mut i: usize = 0;
    while i < items.len()
        invariant
            i <= items@.len(),
            out@ == start + xhtml_items(items_view(items@.take(i as int))),
        decreases items@.len() - i,
    {
        let ghost before = out@;
        render_list_item(out, &items[i]);
        proof {
            lemma_take_push(items@, i as int);
            let pre = items_view(items@.take(i as int));
            let x = blocks_view(items@[i as int].blocks@);
            assert(items_view(items@.take(i + 1)) == pre.push(x));
            assert(pre.push(x).drop_last() =~= pre);
            assert(out@ =~= before + "<li>"@ + xhtml_nested(x) + "</li>\n"@);
        }
        i = i + 1;
    }
    assert(items@.take(items@.len() as int) =~= items@);
}

fn render_list_item(out: &mut String, item: &ListItem)
    ensures
        final(out)@ == old(out)@ + "<li>"@ + xhtml_nested(blocks_view(item.blocks@)) + "</li>\n"@,
    decreases item,
{
    out.append("<li>");
    render_nested(out, &item.blocks);
    out.append("</li>\n");
}

/// Render a sequence of blocks to XHTML.
///
/// When `chapter_body` is true, the first paragraph at this top level
/// gets `class="first-paragraph"` so the stylesheet can give it a drop
/// cap.
pub fn render_blocks(blocks: &[Block], chapter_body: bool) -> (html: String)
    ensures
        html@ == xhtml_blocks(blocks_view(blocks@), chapter_body),
{
    let mut out = String::new();
    let mut first_paragraph_seen = false;
    let mut i: usize = 0;
    while i < blocks.len()
        invariant
            i <= blocks@.len(),
            out@ == xhtml_blocks(blocks_view(blocks@.take(i as int)), chapter_body),
            first_paragraph_seen == has_paragraph(blocks_view(blocks@.take(i as int))),
        decreases blocks@.len() - i,
    {
        let block = &blocks[i];
        let is_paragraph = match block {
            Block::Paragraph(_) => true,
            _ => false,
        };
        let is_first = chapter_body && !first_paragraph_seen && is_paragraph;
        render_block(&mut out, block, is_first);
        if is_paragraph {
            first_paragraph_seen = true;
        }
        proof {
            lemma_take_push(blocks@, i as int);
            let pre = blocks_view(blocks@.take(i as int));
            let x = block_view(blocks@[i as int]);
            assert(blocks_view(blocks@.take(i + 1)) == pre.push(x));
            assert(pre.push(x).drop_last() =~= pre);
            assert(pre.push(x).last() == x);
            lemma_blocks_view_len_take(blocks@, i as int);
            if is_paragraph {
                assert(x is Paragraph);
                assert(pre.push(x)[i as int] is Paragraph);
            } else {
                assert(forall|j: int| 0 <= j < pre.len() ==> pre.push(x)[j] == pre[j]);
            }
        }
        i = i + 1;
    }
    assert(blocks@.take(blocks@.len() as int) =~= blocks@);
    out
}

proof fn lemma_blocks_view_len_take(s: Seq<Block>, i: int)
    requires
        0 <= i < s.len(),
    ensures
        blocks_view(s.take(i)).len() == i,
{
    crate::ir::lemma_blocks_view_len(s.take(i));
}

// ---------------------------------------------------------------------
// The first-paragraph law

proof fn lemma_unmarked_blocks(s: Seq<BlockView>, chapter_body: bool)
    requires
        !(chapter_body && has_paragraph(s)),
    ensures
        xhtml_blocks(s, chapter_body) == xhtml_nested(s),
    decreases s.len(),
{
    if s.len() > 0 {
        let p = s.drop_last();
        if chapter_body && has_paragraph(p) {
            let j = choose|j: int| 0 <= j < p.len() && #[trigger] p[j] is Paragraph;
            assert(s[j] == p[j]);
        }
        lemma_unmarked_blocks(p, chapter_body);
        if chapter_body && s.last() is Paragraph {
            assert(s[s.len() - 1] is Paragraph);
        }
    }
}

proof fn lemma_marked_from(s: Seq<BlockView>, k: int, n: int)
    requires
        0 <= k < n <= s.len(),
        s[k] is Paragraph,
        !has_paragraph(s.take(k)),
    ensures
        xhtml_blocks(s.take(n), true) == xhtml_nested(s.take(k)) + "<p class=\"first-paragraph\">"@
            + xhtml_nested(s.subrange(k, n)).skip(3),
        xhtml_nested(s.subrange(k, n)).len() >= 3,
    decreases n - k,
{
    reveal_strlit("<p>");
    reveal_strlit("<p class=\"first-paragraph\">");
    let t = s.take(n);
    assert(t.drop_last() =~= s.take(n - 1));
    assert(s.subrange(k, n).drop_last() =~= s.subrange(k, n - 1));
    assert(s.subrange(k, n).last() == s[n - 1]);
    assert(t.last() == s[n - 1]);
    if n == k + 1 {
        lemma_unmarked_blocks(s.take(k), true);
        assert(s.subrange(k, n).drop_last() =~= Seq::<BlockView>::empty());
        if let BlockView::Paragraph(il) = s[k] {
            let body = xhtml_inlines(il) + "</p>\n"@;
            assert(xhtml_block(s[k], true) =~= "<p class=\"first-paragraph\">"@ + body);
            assert(xhtml_block(s[k], false) =~= "<p>"@ + body);
            assert(xhtml_nested(Seq::<BlockView>::empty()) == Seq::<char>::empty());
            assert(xhtml_nested(s.subrange(k, n)) == xhtml_nested(s.subrange(k, n).drop_last())
                + xhtml_block(s.subrange(k, n).last(), false));
            assert(xhtml_nested(s.subrange(k, n)) =~= "<p>"@ + body);
            assert(("<p>"@ + body).skip(3) =~= body);
        }
        assert(xhtml_blocks(t, true) == xhtml_blocks(s.take(k), true) + xhtml_block(s[k], true));
    } else {
        lemma_marked_from(s, k, n - 1);
        assert(has_paragraph(s.take(n - 1))) by {
            assert(s.take(n - 1)[k] == s[k]);
        }
        let a = xhtml_nested(s.subrange(k, n - 1));
        let b = xhtml_block(s[n - 1], false);
        assert((a + b).skip(3) =~= a.skip(3) + b);
    }
}

/// In a chapter body only the first top-level paragraph is marked for
/// the drop cap: the rendering is the unmarked one up to that paragraph,
/// then its `<p>` opened as `<p class="first-paragraph">`, then the rest
/// unmarked. Without a paragraph, or outside a chapter body, nothing is
/// marked at all (a run rendered with `chapter_body` false is the same as
/// the nested rendering, where no block is ever marked).
pub proof fn only_first_paragraph_is_marked(s: Seq<BlockView>, chapter_body: bool)
    ensures
        xhtml_blocks(s, false) == xhtml_nested(s),
        !(chapter_body && has_paragraph(s)) ==> xhtml_blocks(s, chapter_body) == xhtml_nested(s),
        forall|k: int|
            0 <= k < s.len() && #[trigger] s[k] is Paragraph && !has_paragraph(s.take(k)) ==> xhtml_blocks(
                s,
                true,
            ) == xhtml_nested(s.take(k)) + "<p class=\"first-paragraph\">"@ + xhtml_nested(s.skip(k)).skip(3),
{
    lemma_unmarked_blocks(s, false);
    if !(chapter_body && has_paragraph(s)) {
        lemma_unmarked_blocks(s, chapter_body);
    }
    assert forall|k: int|
        0 <= k < s.len() && #[trigger] s[k] is Paragraph && !has_paragraph(s.take(k)) implies xhtml_blocks(
            s,
            true,
        ) == xhtml_nested(s.take(k)) + "<p class=\"first-paragraph\">"@ + xhtml_nested(s.skip(k)).skip(3) by {
        lemma_marked_from(s, k, s.len() as int);
        assert(s.take(s.len() as int) =~= s);
        assert(s.subrange(k, s.len() as int) =~= s.skip(k));
    }
}

// ---------------------------------------------------------------------
// No marker outside the first paragraph

/// Whether every `<` in `t` opens a tag that is not `<p` followed by
/// anything but `>`: a `<` is never last, and `<p` is always `<p>`.
pub open spec fn only_bare_p_tags(t: Seq<char>) -> bool {
    forall|i: int|
        0 <= i < t.len() && #[trigger] t[i] == '<' ==> i + 1 < t.len() && (t[i + 1] != 'p' || (i + 2
            < t.len() && t[i + 2] == '>'))
}

/// The opening tag of a chapter's first paragraph.
pub open spec fn first_paragraph_marker() -> Seq<char> {
    "<p class=\"first-paragraph\">"@
}

proof fn lemma_bare_concat(a: Seq<char>, b: Seq<char>)
    requires
        only_bare_p_tags(a),
        only_bare_p_tags(b),
    ensures
        only_bare_p_tags(a + b),
{
    let t = a + b;
    assert forall|i: int| 0 <= i < t.len() && #[trigger] t[i] == '<' implies i + 1 < t.len() && (t[i + 1]
        != 'p' || (i + 2 < t.len() && t[i + 2] == '>')) by {
        if i < a.len() {
            assert(a[i] == '<');
            assert(t[i + 1] == a[i + 1]);
            if a[i + 1] == 'p' {
                assert(t[i + 2] == a[i + 2]);
            }
        } else {
            assert(b[i - a.len()] == '<');
            assert(t[i + 1] == b[i - a.len() + 1]);
            if b[i - a.len() + 1] == 'p' {
                assert(t[i + 2] == b[i - a.len() + 2]);
            }
        }
    }
}

proof fn lemma_bare_literals()
    ensures
        only_bare_p_tags("<p>"@),
        only_bare_p_tags("</p>\n"@),
        only_bare_p_tags("<em>"@),
        only_bare_p_tags("</em>"@),
        only_bare_p_tags("<strong>"@),
        only_bare_p_tags("</strong>"@),
        only_bare_p_tags(" "@),
        only_bare_p_tags("<br/>"@),
        only_bare_p_tags(">"@),
        only_bare_p_tags(">\n"@),
        only_bare_p_tags("<div class=\"scene-break\" role=\"separator\">"@),
        only_bare_p_tags("* * *"@),
        only_bare_p_tags("</div>\n"@),
        only_bare_p_tags("<blockquote>\n"@),
        only_bare_p_tags("</blockquote>\n"@),
        only_bare_p_tags("<ul>\n"@),
        only_bare_p_tags("</ul>\n"@),
        only_bare_p_tags("<ol>\n"@),
        only_bare_p_tags("</ol>\n"@),
        only_bare_p_tags("<li>"@),
        only_bare_p_tags("</li>\n"@),
        forall|l: HeadingLevel| only_bare_p_tags(#[trigger] ("<"@ + heading_tag(l))),
        forall|l: HeadingLevel| only_bare_p_tags(#[trigger] ("</"@ + heading_tag(l))),
{
    reveal_strlit("<p>");
    reveal_strlit("</p>\n");
    reveal_strlit("<em>");
    reveal_strlit("</em>");
    reveal_strlit("<strong>");
    reveal_strlit("</strong>");
    reveal_strlit(" ");
    reveal_strlit("<br/>");
    reveal_strlit(">");
    reveal_strlit(">\n");
    reveal_strlit("<div class=\"scene-break\" role=\"separator\">");
    reveal_strlit("* * *");
    reveal_strlit("</div>\n");
    reveal_strlit("<blockquote>\n");
    reveal_strlit("</blockquote>\n");
    reveal_strlit("<ul>\n");
    reveal_strlit("</ul>\n");
    reveal_strlit("<ol>\n");
    reveal_strlit("</ol>\n");
    reveal_strlit("<li>");
    reveal_strlit("</li>\n");
    reveal_strlit("<");
    reveal_strlit("</");
    reveal_strlit("h2");
    reveal_strlit("h3");
    reveal_strlit("h4");
}

proof fn lemma_bare_inline(x: InlineView)
    ensures
        only_bare_p_tags(xhtml_inline(x)),
    decreases x,
{
    lemma_bare_literals();
    match x {
        InlineView::Text(t) => {
            escaped_text_has_no_angle_brackets(t);
        },
        InlineView::Emphasis(inner) => {
            lemma_bare_inlines(inner);
            lemma_bare_concat("<em>"@, xhtml_inlines(inner));
            lemma_bare_concat("<em>"@ + xhtml_inlines(inner), "</em>"@);
        },
        InlineView::Strong(inner) => {
            lemma_bare_inlines(inner);
            lemma_bare_concat("<strong>"@, xhtml_inlines(inner));
            lemma_bare_concat("<strong>"@ + xhtml_inlines(inner), "</strong>"@);
        },
        _ => {},
    }
}

proof fn lemma_bare_inlines(s: Seq<InlineView>)
    ensures
        only_bare_p_tags(xhtml_inlines(s)),
    decreases s,
{
    if s.len() > 0 {
        lemma_bare_inlines(s.drop_last());
        lemma_bare_inline(s.last());
        lemma_bare_concat(xhtml_inlines(s.drop_last()), xhtml_inline(s.last()));
    } else {
        assert(xhtml_inlines(s) =~= Seq::<char>::empty());
    }
}

proof fn lemma_bare_block(b: BlockView)
    ensures
        only_bare_p_tags(xhtml_block(b, false)),
    decreases b,
{
    lemma_bare_literals();
    match b {
        BlockView::Paragraph(il) => {
            lemma_bare_inlines(il);
            lemma_bare_concat("<p>"@, xhtml_inlines(il));
            lemma_bare_concat("<p>"@ + xhtml_inlines(il), "</p>\n"@);
        },
        BlockView::Heading { level, content } => {
            let tag = heading_tag(level);
            lemma_bare_inlines(content);
            assert(only_bare_p_tags("<"@ + tag));
            assert(only_bare_p_tags("</"@ + tag));
            lemma_bare_concat("<"@ + tag, ">"@);
            lemma_bare_concat("<"@ + tag + ">"@, xhtml_inlines(content));
            lemma_bare_concat("<"@ + tag + ">"@ + xhtml_inlines(content), "</"@ + tag);
            assert("<"@ + tag + ">"@ + xhtml_inlines(content) + ("</"@ + tag) =~= "<"@ + tag + ">"@
                + xhtml_inlines(content) + "</"@ + tag);
            lemma_bare_concat("<"@ + tag + ">"@ + xhtml_inlines(content) + "</"@ + tag, ">\n"@);
        },
        BlockView::SceneBreak => {
            lemma_bare_concat("<div class=\"scene-break\" role=\"separator\">"@, "* * *"@);
            lemma_bare_concat("<div class=\"scene-break\" role=\"separator\">"@ + "* * *"@, "</div>\n"@);
        },
        BlockView::BlockQuote(inner) => {
            lemma_bare_nested(inner);
            lemma_bare_concat("<blockquote>\n"@, xhtml_nested(inner));
            lemma_bare_concat("<blockquote>\n"@ + xhtml_nested(inner), "</blockquote>\n"@);
        },
        BlockView::UnorderedList(items) => {
            lemma_bare_items(items);
            lemma_bare_concat("<ul>\n"@, xhtml_items(items));
            lemma_bare_concat("<ul>\n"@ + xhtml_items(items), "</ul>\n"@);
        },
        BlockView::OrderedList(items) => {
            lemma_bare_items(items);
            lemma_bare_concat("<ol>\n"@, xhtml_items(items));
            lemma_bare_concat("<ol>\n"@ + xhtml_items(items), "</ol>\n"@);
        },
    }
}

proof fn lemma_bare_nested(s: Seq<BlockView>)
    ensures
        only_bare_p_tags(xhtml_nested(s)),
    decreases s,
{
    if s.len() > 0 {
        lemma_bare_nested(s.drop_last());
        lemma_bare_block(s.last());
        lemma_bare_concat(xhtml_nested(s.drop_last()), xhtml_block(s.last(), false));
    } else {
        assert(xhtml_nested(s) =~= Seq::<char>::empty());
    }
}

proof fn lemma_bare_items(s: Seq<Seq<BlockView>>)
    ensures
        only_bare_p_tags(xhtml_items(s)),
    decreases s,
{
    lemma_bare_literals();
    if s.len() > 0 {
        lemma_bare_items(s.drop_last());
        lemma_bare_nested(s.last());
        lemma_bare_concat(xhtml_items(s.drop_last()), "<li>"@);
        lemma_bare_concat(xhtml_items(s.drop_last()) + "<li>"@, xhtml_nested(s.last()));
        lemma_bare_concat(xhtml_items(s.drop_last()) + "<li>"@ + xhtml_nested(s.last()), "</li>\n"@);
    } else {
        assert(xhtml_items(s) =~= Seq::<char>::empty());
    }
}

/// A rendering in which no paragraph is marked never holds the
/// first-paragraph marker: every run of blocks outside a chapter body,
/// every quote and list, and a chapter body without paragraphs.
pub proof fn unmarked_rendering_has_no_marker(s: Seq<BlockView>)
    ensures
        forall|i: int|
            0 <= i <= xhtml_blocks(s, false).len() - first_paragraph_marker().len() ==> #[trigger] xhtml_blocks(
                s,
                false,
            ).subrange(i, i + first_paragraph_marker().len()) != first_paragraph_marker(),
{
    reveal_strlit("<p class=\"first-paragraph\">");
    only_first_paragraph_is_marked(s, false);
    lemma_bare_nested(s);
    let t = xhtml_blocks(s, false);
    let m = first_paragraph_marker();
    assert forall|i: int| 0 <= i <= t.len() - m.len() implies #[trigger] t.subrange(i, i + m.len()) != m by {
        if t.subrange(i, i + m.len()) == m {
            assert(t[i] == m[0]);
            assert(t[i + 1] == m[1]);
            assert(t[i + 2] == m[2]);
        }
    }
}

} // verus!
