//! Convert a Book IR into a self-contained Typst source string.
//!
//! All user-provided text flows through [`escape_str`] and is emitted as
//! `"..."` strings, never raw markup, so Typst markup characters in prose
//! (`#`, `*`, `_`, `[`, ...) can never trigger unintended formatting. The
//! one exception is a heading made only of ASCII letters, digits and
//! spaces, which is written as it stands (`= One`); such text is plain in
//! Typst markup. Any other heading goes into a `#text("...")` literal.
use vstd::prelude::*;

use crate::config::TrimSize;
use crate::ir::{
    block_view, blocks_view, inline_view, inlines_view, items_view, Block, BlockView, Book,
    BookMeta, Chapter, HeadingLevel, Inline, InlineView, ListItem, MatterPage,
};
use crate::text::{
    ascii_alphanumeric, decimal, is_alphabetic, is_ascii_alphanumeric, push_char, push_decimal,
    unicode_alphabetic,
};

verus! {

broadcast use vstd::string::group_string_axioms;

// ---------------------------------------------------------------------
// Escaping

/// The escape of one character inside a Typst `"..."` literal.
pub open spec fn typst_escape_char(c: char) -> Seq<char> {
    if c == '\\' {
        "\\\\"@
    } else if c == '"' {
        "\\\""@
    } else {
        seq![c]
    }
}

/// `s` escaped for use inside a Typst `"..."` literal: only backslash and
/// double quote need escaping there.
pub open spec fn typst_escape(s: Seq<char>) -> Seq<char>
    decreases s.len(),
{
    if s.len() == 0 {
        seq![]
    } else {
        typst_escape(s.drop_last()) + typst_escape_char(s.last())
    }
}

/// Whether `t` can stand between the quotes of a Typst string literal
/// using no escape but `\\` and `\"`: every backslash starts one of those
/// two escape sequences, and no other `"` occurs, so the quote after `t`
/// is the one that closes the literal.
pub open spec fn is_literal_body(t: Seq<char>) -> bool
    decreases t.len(),
{
    if t.len() == 0 {
        true
    } else if t[0] == '\\' {
        t.len() >= 2 && (t[1] == '\\' || t[1] == '"') && is_literal_body(t.subrange(2, t.len() as int))
    } else if t[0] == '"' {
        false
    } else {
        is_literal_body(t.drop_first())
    }
}

/// The text that a literal body stands for: each escape sequence
/// replaced by the character it escapes.
pub open spec fn literal_value(t: Seq<char>) -> Seq<char>
    decreases t.len(),
{
    if t.len() == 0 {
        seq![]
    } else if t[0] == '\\' && t.len() >= 2 {
        seq![t[1]] + literal_value(t.subrange(2, t.len() as int))
    } else {
        seq![t[0]] + literal_value(t.drop_first())
    }
}

proof fn lemma_literal_body_concat(a: Seq<char>, b: Seq<char>)
    requires
        is_literal_body(a),
        is_literal_body(b),
    ensures
        is_literal_body(a + b),
        literal_value(a + b) == literal_value(a) + literal_value(b),
    decreases a.len(),
{
    if a.len() == 0 {
        assert(a + b =~= b);
    } else if a[0] == '\\' {
        let rest = a.subrange(2, a.len() as int);
        lemma_literal_body_concat(rest, b);
        assert((a + b).subrange(2, (a + b).len() as int) =~= rest + b);
        assert(seq![a[1]] + literal_value(rest) + literal_value(b) =~= seq![a[1]] + (literal_value(rest)
            + literal_value(b)));
    } else {
        lemma_literal_body_concat(a.drop_first(), b);
        assert((a + b).drop_first() =~= a.drop_first() + b);
        assert(seq![a[0]] + literal_value(a.drop_first()) + literal_value(b) =~= seq![a[0]] + (
        literal_value(a.drop_first()) + literal_value(b)));
    }
}

/// Escaped text is a literal body that stands for the text itself: put
/// between quotes it is one Typst string whose value is the text, so no
/// character of user text can end the string or reach Typst as markup.
pub proof fn typst_escape_is_faithful_literal(s: Seq<char>)
    ensures
        is_literal_body(typst_escape(s)),
        literal_value(typst_escape(s)) == s,
    decreases s.len(),
{
    reveal_strlit("\\\\");
    reveal_strlit("\\\"");
    if s.len() > 0 {
        let c = s.last();
        typst_escape_is_faithful_literal(s.drop_last());
        let e = typst_escape_char(c);
        assert(is_literal_body(Seq::<char>::empty()));
        if c == '\\' || c == '"' {
            assert(e.subrange(2, 2) =~= Seq::<char>::empty());
            assert(literal_value(e) =~= seq![c] + literal_value(Seq::<char>::empty()));
        } else {
            assert(e.drop_first() =~= Seq::<char>::empty());
            assert(literal_value(e) =~= seq![c] + literal_value(Seq::<char>::empty()));
        }
        assert(is_literal_body(e));
        assert(literal_value(e) =~= seq![c]);
        lemma_literal_body_concat(typst_escape(s.drop_last()), e);
        assert(s.drop_last() + seq![c] =~= s);
    }
}

/// Text without backslashes or double quotes (Typst markup characters
/// such as `#`, `*`, `_` or `[` included) is left as it is.
pub proof fn typst_escape_keeps_plain_text(s: Seq<char>)
    requires
        forall|i: int| 0 <= i < s.len() ==> #[trigger] s[i] != '\\' && s[i] != '"',
    ensures
        typst_escape(s) == s,
    decreases s.len(),
{
    if s.len() > 0 {
        typst_escape_keeps_plain_text(s.drop_last());
        assert(s.drop_last().push(s.last()) =~= s);
    }
}

/// Appends `s`, escaped for a Typst string literal, to `out`.
fn push_escaped(out: &mut String, s: &str)
    ensures
        final(out)@ == old(out)@ + typst_escape(s@),
{
    let ghost start = out@;
    for c in it: s.chars()
        invariant
            it.seq() == s@,
            out@ == start + typst_escape(s@.take(it.index() as int)),
    {
        let ghost before = out@;
        if c == '\\' {
            out.append("\\\\");
        } else if c == '"' {
            out.append("\\\"");
        } else {
            push_char(out, c);
            assert(out@ =~= before + seq![c]);
        }
        assert(s@.take(it.index() + 1).drop_last() =~= s@.take(it.index() as int));
        assert(out@ =~= start + typst_escape(s@.take(it.index() + 1)));
    }
    assert(s@.take(s@.len() as int) =~= s@);
}

/// Escape a string for use inside a Typst `"..."` literal.
pub fn escape_str(s: &str) -> (out: String)
    ensures
        out@ == typst_escape(s@),
{
    let mut out = String::new();
    push_escaped(&mut out, s);
    out
}

// ---------------------------------------------------------------------
// Blocks and inlines

pub open spec fn typst_inline(x: InlineView) -> Seq<char>
    decreases x,
{
    match x {
        InlineView::Text(t) => "#text(\""@ + typst_escape(t) + "\")"@,
        InlineView::Emphasis(inner) => "#emph["@ + typst_inlines(inner) + "]"@,
        InlineView::Strong(inner) => "#strong["@ + typst_inlines(inner) + "]"@,
        InlineView::SoftBreak => " "@,
        InlineView::HardBreak => " \\\n"@,
    }
}

pub open spec fn typst_inlines(s: Seq<InlineView>) -> Seq<char>
    decreases s,
{
    if s.len() == 0 {
        seq![]
    } else {
        typst_inlines(s.drop_last()) + typst_inline(s.last())
    }
}

pub open spec fn heading_prefix(level: HeadingLevel) -> Seq<char> {
    match level {
        HeadingLevel::H2 => "=="@,
        HeadingLevel::H3 => "==="@,
        HeadingLevel::H4 => "===="@,
    }
}

pub open spec fn typst_block(b: BlockView) -> Seq<char>
    decreases b,
{
    match b {
        BlockView::Paragraph(il) => typst_inlines(il) + "\n"@,
        BlockView::Heading { level, content } => heading_prefix(level) + " "@ + typst_inlines(content)
            + "\n"@,
        BlockView::SceneBreak => "#scene-break\n"@,
        BlockView::BlockQuote(inner) => "#quote(block: true)[\n"@ + typst_quoted(inner) + "]\n"@,
        BlockView::UnorderedList(items) => typst_items(items, "-"@),
        BlockView::OrderedList(items) => typst_items(items, "+"@),
    }
}

/// Blocks inside a quote, one after the other.
pub open spec fn typst_quoted(s: Seq<BlockView>) -> Seq<char>
    decreases s,
{
    if s.len() == 0 {
        seq![]
    } else {
        typst_quoted(s.drop_last()) + typst_block(s.last())
    }
}

/// The blocks of a list item: a paragraph gives its inlines alone.
pub open spec fn typst_item_blocks(s: Seq<BlockView>) -> Seq<char>
    decreases s,
{
    if s.len() == 0 {
        seq![]
    } else {
        typst_item_blocks(s.drop_last()) + match s.last() {
            BlockView::Paragraph(il) => typst_inlines(il),
            other => typst_block(other),
        }
    }
}

pub open spec fn typst_items(s: Seq<Seq<BlockView>>, marker: Seq<char>) -> Seq<char>
    decreases s,
{
    if s.len() == 0 {
        seq![]
    } else {
        typst_items(s.drop_last(), marker) + marker + " "@ + typst_item_blocks(s.last()) + "\n"@
    }
}

proof fn lemma_item_marker_at(s: Seq<Seq<BlockView>>, m: Seq<char>, k: int)
    requires
        m.len() == 1,
        0 <= k < s.len(),
    ensures
        typst_items(s.take(k), m).len() < typst_items(s, m).len(),
        typst_items(s, m)[typst_items(s.take(k), m).len() as int] == m[0],
    decreases s.len(),
{
    let p = s.drop_last();
    let tp = typst_items(p, m);
    let ts = typst_items(s, m);
    assert(ts == tp + m + " "@ + typst_item_blocks(s.last()) + "\n"@);
    if k < p.len() {
        lemma_item_marker_at(p, m, k);
        assert(s.take(k) =~= p.take(k));
        let o = typst_items(p.take(k), m).len() as int;
        assert(ts[o] == tp[o]);
    } else {
        assert(s.take(k) =~= p);
        assert(ts[tp.len() as int] == m[0]);
    }
}

/// A numbered list and a bulleted list never look alike: in the Typst of
/// an ordered list every item opens with the numbered-list marker `+`,
/// and in that of an unordered list with `-`.
pub proof fn list_items_carry_their_marker(items: Seq<Seq<BlockView>>)
    ensures
        forall|k: int|
            0 <= k < items.len() ==> #[trigger] typst_block(BlockView::OrderedList(items))[typst_items(
                items.take(k),
                "+"@,
            ).len() as int] == '+',
        forall|k: int|
            0 <= k < items.len() ==> #[trigger] typst_block(BlockView::UnorderedList(items))[typst_items(
                items.take(k),
                "-"@,
            ).len() as int] == '-',
        items.len() > 0 ==> typst_block(BlockView::OrderedList(items)) != typst_block(
            BlockView::UnorderedList(items),
        ),
{
    reveal_strlit("+");
    reveal_strlit("-");
    assert forall|k: int| 0 <= k < items.len() implies #[trigger] typst_block(
        BlockView::OrderedList(items),
    )[typst_items(items.take(k), "+"@).len() as int] == '+' by {
        lemma_item_marker_at(items, "+"@, k);
    }
    assert forall|k: int| 0 <= k < items.len() implies #[trigger] typst_block(
        BlockView::UnorderedList(items),
    )[typst_items(items.take(k), "-"@).len() as int] == '-' by {
        lemma_item_marker_at(items, "-"@, k);
    }
    if items.len() > 0 {
        lemma_item_marker_at(items, "+"@, 0);
        lemma_item_marker_at(items, "-"@, 0);
        assert(items.take(0) =~= Seq::<Seq<BlockView>>::empty());
        assert(typst_items(items.take(0), "+"@).len() == 0);
        assert(typst_items(items.take(0), "-"@).len() == 0);
        assert(typst_block(BlockView::OrderedList(items))[0] == '+');
        assert(typst_block(BlockView::UnorderedList(items))[0] == '-');
    }
}

/// Blocks of a page body, each preceded by a blank line.
pub open spec fn typst_blocks(s: Seq<BlockView>) -> Seq<char>
    decreases s.len(),
{
    if s.len() == 0 {
        seq![]
    } else {
        typst_blocks(s.drop_last()) + "\n"@ + typst_block(s.last())
    }
}

proof fn lemma_take_push<T>(s: Seq<T>, i: int)
    requires
        0 <= i < s.len(),
    ensures
        s.take(i + 1).drop_last() == s.take(i),
        s.take(i + 1).last() == s[i],
{
    assert(s.take(i + 1).drop_last() =~= s.take(i));
}

proof fn lemma_inlines_push(s: Seq<Inline>, i: int)
    requires
        0 <= i < s.len(),
    ensures
        inlines_view(s.take(i + 1)) == inlines_view(s.take(i)).push(inline_view(s[i])),
        inlines_view(s.take(i)).push(inline_view(s[i])).drop_last() == inlines_view(s.take(i)),
{
    lemma_take_push(s, i);
    assert(inlines_view(s.take(i)).push(inline_view(s[i])).drop_last() =~= inlines_view(s.take(i)));
}

proof fn lemma_blocks_push(s: Seq<Block>, i: int)
    requires
        0 <= i < s.len(),
    ensures
        blocks_view(s.take(i + 1)) == blocks_view(s.take(i)).push(block_view(s[i])),
        blocks_view(s.take(i)).push(block_view(s[i])).drop_last() == blocks_view(s.take(i)),
{
    lemma_take_push(s, i);
    assert(blocks_view(s.take(i)).push(block_view(s[i])).drop_last() =~= blocks_view(s.take(i)));
}

proof fn lemma_items_push(s: Seq<ListItem>, i: int)
    requires
        0 <= i < s.len(),
    ensures
        items_view(s.take(i + 1)) == items_view(s.take(i)).push(blocks_view(s[i].blocks@)),
        items_view(s.take(i)).push(blocks_view(s[i].blocks@)).drop_last() == items_view(s.take(i)),
{
    lemma_take_push(s, i);
    assert(items_view(s.take(i)).push(blocks_view(s[i].blocks@)).drop_last() =~= items_view(
        s.take(i),
    ));
}

fn write_inline(s: &mut String, inline: &Inline)
    ensures
        final(s)@ == old(s)@ + typst_inline(inline_view(*inline)),
    decreases inline,
{
    let ghost start = s@;
    match inline {
        Inline::Text(t) => {
            s.append("#text(\"");
            push_escaped(s, t.as_str());
            s.append("\")");
        },
        Inline::Emphasis(inner) => {
            s.append("#emph[");
            write_inlines(s, inner);
            s.append("]");
        },
        Inline::Strong(inner) => {
            s.append("#strong[");
            write_inlines(s, inner);
            s.append("]");
        },
        Inline::SoftBreak => s.append(" "),
        Inline::HardBreak => s.append(" \\\n"),
    }
    assert(s@ =~= start + typst_inline(inline_view(*inline)));
}

fn write_inlines(s: &mut String, inlines: &Vec<Inline>)
    ensures
        final(s)@ == old(s)@ + typst_inlines(inlines_view(inlines@)),
    decreases inlines,
{
    write_inlines_from(s, inlines, 0);
    assert(inlines@.subrange(0, inlines@.len() as int) =~= inlines@);
}

/// Appends the inlines `inlines[from..]`.
fn write_inlines_from(s: &mut String, inlines: &Vec<Inline>, from: usize)
    requires
        from <= inlines@.len(),
    ensures
        final(s)@ == old(s)@ + typst_inlines(inlines_view(inlines@.subrange(from as int, inlines@.len() as int))),
    decreases inlines, 0int,
{
    let ghost start = s@;
    let ghost v = inlines@.subrange(from as int, inlines@.len() as int);
    let mut i: usize = from;
    while i < inlines.len()
        invariant
            from <= i <= inlines@.len(),
            v == inlines@.subrange(from as int, inlines@.len() as int),
            s@ == start + typst_inlines(inlines_view(v.take(i - from))),
        decreases inlines@.len() - i,
    {
        let ghost before = s@;
        write_inline(s, &inlines[i]);
        proof {
            assert(v[i - from] == inlines@[i as int]);
            lemma_inlines_push(v, i - from);
        }
        i = i + 1;
    }
    assert(v.take(v.len() as int) =~= v);
}

fn write_block(s: &mut String, block: &Block)
    ensures
        final(s)@ == old(s)@ + typst_block(block_view(*block)),
    decreases block,
{
    let ghost start = s@;
    match block {
        Block::Paragraph(inlines) => {
            write_inlines(s, inlines);
            s.append("\n");
        },
        Block::Heading { level, content } => {
            let prefix = match level {
                HeadingLevel::H2 => "==",
                HeadingLevel::H3 => "===",
                HeadingLevel::H4 => "====",
            };
            s.append(prefix);
            s.append(" ");
            write_inlines(s, content);
            s.append("\n");
        },
        Block::SceneBreak => {
            s.append("#scene-break\n");
        },
        Block::BlockQuote(inner) => {
            s.append("#quote(block: true)[\n");
            write_quoted(s, inner);
            s.append("]\n");
        },
        Block::UnorderedList(items) => {
            write_list_items(s, items, "-");
        },
        Block::OrderedList(items) => {
            write_list_items(s, items, "+");
        },
    }
    assert(s@ =~= start + typst_block(block_view(*block)));
}

fn write_quoted(s: &mut String, blocks: &Vec<Block>)
    ensures
        final(s)@ == old(s)@ + typst_quoted(blocks_view(blocks@)),
    decreases blocks,
{
    let ghost start = s@;
    let mut i: usize = 0;
    while i < blocks.len()
        invariant
            i <= blocks@.len(),
            s@ == start + typst_quoted(blocks_view(blocks@.take(i as int))),
        decreases blocks@.len() - i,
    {
        write_block(s, &blocks[i]);
        proof {
            lemma_blocks_push(blocks@, i as int);
        }
        i = i + 1;
    }
    assert(blocks@.take(blocks@.len() as int) =~= blocks@);
}

fn write_list_items(s: &mut String, items: &Vec<ListItem>, marker: &str)
    ensures
        final(s)@ == old(s)@ + typst_items(items_view(items@), marker@),
    decreases items,
{
    let ghost start = s@;
    let mut i: usize = 0;
    while i < items.len()
        invariant
            i <= items@.len(),
            s@ == start + typst_items(items_view(items@.take(i as int)), marker@),
        decreases items@.len() - i,
    {
        let ghost before = s@;
        write_list_item(s, &items[i], marker);
        proof {
            lemma_items_push(items@, i as int);
            assert(s@ =~= start + typst_items(items_view(items@.take(i + 1)), marker@));
        }
        i = i + 1;
    }
    assert(items@.take(items@.len() as int) =~= items@);
}

fn write_list_item(s: &mut String, item: &ListItem, marker: &str)
    ensures
        final(s)@ == old(s)@ + marker@ + " "@ + typst_item_blocks(blocks_view(item.blocks@)) + "\n"@,
    decreases item,
{
    let ghost start = s@;
    s.append(marker);
    s.append(" ");
    let ghost mid = s@;
    let blocks = &item.blocks;
    let mut i: usize = 0;
    while i < blocks.len()
        invariant
            i <= blocks@.len(),
            blocks == &item.blocks,
            s@ == mid + typst_item_blocks(blocks_view(blocks@.take(i as int))),
        decreases blocks@.len() - i,
    {
        let ghost before = s@;
        match &blocks[i] {
            Block::Paragraph(inlines) => write_inlines(s, inlines),
            other => write_block(s, other),
        }
        proof {
            lemma_blocks_push(blocks@, i as int);
            assert(s@ =~= mid + typst_item_blocks(blocks_view(blocks@.take(i + 1))));
        }
        i = i + 1;
    }
    assert(blocks@.take(blocks@.len() as int) =~= blocks@);
    s.append("\n");
    assert(s@ =~= start + marker@ + " "@ + typst_item_blocks(blocks_view(item.blocks@)) + "\n"@);
}

fn write_blocks(s: &mut String, blocks: &Vec<Block>)
    ensures
        final(s)@ == old(s)@ + typst_blocks(blocks_view(blocks@)),
{
    let ghost start = s@;
    let mut i: usize = 0;
    while i < blocks.len()
        invariant
            i <= blocks@.len(),
            s@ == start + typst_blocks(blocks_view(blocks@.take(i as int))),
        decreases blocks@.len() - i,
    {
        s.append("\n");
        write_block(s, &blocks[i]);
        proof {
            lemma_blocks_push(blocks@, i as int);
            assert(s@ =~= start + typst_blocks(blocks_view(blocks@.take(i + 1))));
        }
        i = i + 1;
    }
    assert(blocks@.take(blocks@.len() as int) =~= blocks@);
}

// ---------------------------------------------------------------------
// Chapters and matter pages

/// Whether `c` is alphabetic as `char::is_alphabetic` decides it: ASCII
/// letters are, ASCII digits are not, and any other character is as the
/// Unicode `Alphabetic` property says.
pub open spec fn alphabetic_char(c: char) -> bool {
    ||| ('a' <= c && c <= 'z') || ('A' <= c && c <= 'Z')
    ||| !('0' <= c && c <= '9') && unicode_alphabetic(c)
}

/// Whether a chapter's opening paragraph gets a raised cap: its first
/// inline is text whose first character is alphabetic.
pub open spec fn cap_applies(il: Seq<InlineView>) -> bool {
    &&& il.len() > 0
    &&& il[0] matches InlineView::Text(t)
    &&& t.len() > 0
    &&& alphabetic_char(t[0])
}

/// The opening paragraph with its first letter set as a raised cap and
/// the rest of that text run following it.
pub open spec fn capped_paragraph(il: Seq<InlineView>) -> Seq<char> {
    let t = il[0]->Text_0;
    "#raise-cap(\""@ + typst_escape(seq![t[0]]) + "\")"@ + (if t.len() > 1 {
        "#text(\""@ + typst_escape(t.drop_first()) + "\")"@
    } else {
        seq![]
    }) + typst_inlines(il.drop_first()) + "\n"@
}

/// The first block of a chapter body.
pub open spec fn opening_block(b: BlockView) -> Seq<char> {
    match b {
        BlockView::Paragraph(il) => if cap_applies(il) {
            capped_paragraph(il)
        } else {
            typst_block(b)
        },
        _ => typst_block(b),
    }
}

// ---------------------------------------------------------------------
// Headings

/// Whether a heading can be written as it stands: it is not empty and
/// holds only ASCII letters, digits and spaces, which Typst markup reads
/// as plain text.
pub open spec fn is_plain_heading(t: Seq<char>) -> bool {
    &&& t.len() > 0
    &&& forall|i: int| 0 <= i < t.len() ==> is_ascii_alphanumeric(#[trigger] t[i]) || t[i] == ' '
}

/// The text of a heading line: a plain heading as it stands, any other
/// one as a `#text("...")` string literal, so that no markup in a title
/// reaches Typst.
pub open spec fn heading_text(t: Seq<char>) -> Seq<char> {
    if is_plain_heading(t) {
        t
    } else {
        "#text(\""@ + typst_escape(t) + "\")"@
    }
}

fn plain_heading(t: &str) -> (b: bool)
    ensures
        b == is_plain_heading(t@),
{
    let mut any = false;
    let mut plain = true;
    for c in it: t.chars()
        invariant
            it.seq() == t@,
            any == (it.index() > 0),
            plain == forall|i: int|
                0 <= i < it.index() ==> is_ascii_alphanumeric(#[trigger] t@[i]) || t@[i] == ' ',
    {
        any = true;
        if !(ascii_alphanumeric(c) || c == ' ') {
            plain = false;
        }
    }
    any && plain
}

/// Appends the text of a heading line for `title`.
fn push_heading_text(out: &mut String, title: &str)
    ensures
        final(out)@ == old(out)@ + heading_text(title@),
{
    if plain_heading(title) {
        out.append(title);
    } else {
        let ghost start = out@;
        out.append("#text(\"");
        push_escaped(out, title);
        out.append("\")");
        assert(out@ =~= start + heading_text(title@));
    }
}

/// A heading line never lets markup through: a title is either written
/// as a `#text("...")` literal that stands for exactly the title, or it is
/// made of ASCII letters, digits and spaces only.
pub proof fn heading_text_is_safe(t: Seq<char>)
    ensures
        is_plain_heading(t) ==> heading_text(t) == t,
        !is_plain_heading(t) ==> heading_text(t) == "#text(\""@ + typst_escape(t) + "\")"@
            && is_literal_body(typst_escape(t)) && literal_value(typst_escape(t)) == t,
{
    typst_escape_is_faithful_literal(t);
}

/// A chapter's blocks, each after a blank line, the first one opening
/// the chapter.
pub open spec fn chapter_body(s: Seq<BlockView>) -> Seq<char>
    decreases s.len(),
{
    if s.len() == 0 {
        seq![]
    } else if s.len() == 1 {
        "\n"@ + opening_block(s[0])
    } else {
        chapter_body(s.drop_last()) + "\n"@ + typst_block(s.last())
    }
}

pub open spec fn typst_chapter(ch: Chapter) -> Seq<char> {
    "\n"@ + "= "@ + heading_text(ch.title@) + "\n"@ + chapter_body(blocks_view(ch.blocks@))
}

pub open spec fn typst_chapters(chs: Seq<Chapter>) -> Seq<char>
    decreases chs.len(),
{
    if chs.len() == 0 {
        seq![]
    } else {
        typst_chapters(chs.drop_last()) + typst_chapter(chs.last())
    }
}

pub open spec fn typst_matter_page(page: MatterPage) -> Seq<char> {
    "\n#pagebreak(weak: true)\n"@ + match page.title {
        Some(t) => "== "@ + heading_text(t@) + "\n"@,
        None => seq![],
    } + typst_blocks(blocks_view(page.blocks@))
}

pub open spec fn typst_matter_pages(pages: Seq<MatterPage>) -> Seq<char>
    decreases pages.len(),
{
    if pages.len() == 0 {
        seq![]
    } else {
        typst_matter_pages(pages.drop_last()) + typst_matter_page(pages.last())
    }
}

proof fn lemma_inlines_view_tail(s: Seq<Inline>)
    requires
        s.len() > 0,
    ensures
        inlines_view(s.subrange(1, s.len() as int)) == inlines_view(s).drop_first(),
        inlines_view(s)[0] == inline_view(s[0]),
{
    crate::ir::lemma_inlines_view_len(s);
    crate::ir::lemma_inlines_view_len(s.subrange(1, s.len() as int));
    assert(inlines_view(s.subrange(1, s.len() as int)) =~= inlines_view(s).drop_first());
}

/// If `inlines` starts with text whose first character is alphabetic,
/// appends the paragraph with that character in `#raise-cap(...)` and
/// returns true; otherwise appends nothing and returns false.
fn write_paragraph_with_cap(s: &mut String, inlines: &Vec<Inline>) -> (capped: bool)
    ensures
        capped == cap_applies(inlines_view(inlines@)),
        capped ==> final(s)@ == old(s)@ + capped_paragraph(inlines_view(inlines@)),
        !capped ==> final(s)@ == old(s)@,
{
    let ghost start = s@;
    proof {
        crate::ir::lemma_inlines_view_len(inlines@);
    }
    if inlines.len() == 0 {
        return false;
    }
    let text = match &inlines[0] {
        Inline::Text(t) => t,
        _ => {
            return false;
        },
    };
    let chars = crate::text::chars_of(text.as_str());
    if chars.len() == 0 {
        return false;
    }
    let first_char = chars[0];
    if !is_alphabetic(first_char) {
        return false;
    }
    s.append("#raise-cap(\"");
    let mut one = String::new();
    push_char(&mut one, first_char);
    assert(one@ =~= seq![first_char]);
    push_escaped(s, one.as_str());
    s.append("\")");
    if chars.len() > 1 {
        let rest = crate::text::string_of(&chars, 1, chars.len());
        assert(rest@ =~= text@.drop_first());
        s.append("#text(\"");
        push_escaped(s, rest.as_str());
        s.append("\")");
    }
    write_inlines_from(s, inlines, 1);
    s.append("\n");
    proof {
        lemma_inlines_view_tail(inlines@);
        assert(s@ =~= start + capped_paragraph(inlines_view(inlines@)));
    }
    true
}

/// Appends a chapter's blocks, applying a raised cap to the first
/// character of the first paragraph when that paragraph is the first
/// block and begins with a letter.
fn write_chapter_body(s: &mut String, blocks: &Vec<Block>)
    ensures
        final(s)@ == old(s)@ + chapter_body(blocks_view(blocks@)),
{
    let ghost start = s@;
    let mut applied_cap = false;
    let mut i: usize = 0;
    while i < blocks.len()
        invariant
            i <= blocks@.len(),
            applied_cap == (i > 0),
            s@ == start + chapter_body(blocks_view(blocks@.take(i as int))),
        decreases blocks@.len() - i,
    {
        let ghost before = s@;
        s.append("\n");
        let mut done = false;
        if !applied_cap {
            applied_cap = true;
            match &blocks[i] {
                Block::Paragraph(inlines) => {
                    done = write_paragraph_with_cap(s, inlines);
                },
                _ => {},
            }
        }
        if !done {
            write_block(s, &blocks[i]);
        }
        proof {
            lemma_blocks_push(blocks@, i as int);
            crate::ir::lemma_blocks_view_len(blocks@.take(i + 1));
            if i == 0 {
                assert(blocks_view(blocks@.take(1))[0] == block_view(blocks@[0]));
                assert(s@ =~= start + chapter_body(blocks_view(blocks@.take(i + 1))));
            } else {
                assert(s@ =~= start + chapter_body(blocks_view(blocks@.take(i + 1))));
            }
        }
        i = i + 1;
    }
    assert(blocks@.take(blocks@.len() as int) =~= blocks@);
}

fn write_chapters(s: &mut String, chapters: &Vec<Chapter>)
    ensures
        final(s)@ == old(s)@ + typst_chapters(chapters@),
{
    let ghost start = s@;
    let mut i: usize = 0;
    while i < chapters.len()
        invariant
            i <= chapters@.len(),
            s@ == start + typst_chapters(chapters@.take(i as int)),
        decreases chapters@.len() - i,
    {
        let ch = &chapters[i];
        s.append("\n");
        s.append("= ");
        push_heading_text(s, ch.title.as_str());
        s.append("\n");
        write_chapter_body(s, &ch.blocks);
        proof {
            lemma_take_push(chapters@, i as int);
            assert(s@ =~= start + typst_chapters(chapters@.take(i + 1)));
        }
        i = i + 1;
    }
    assert(chapters@.take(chapters@.len() as int) =~= chapters@);
}

fn write_matter_pages(s: &mut String, pages: &Vec<MatterPage>)
    ensures
        final(s)@ == old(s)@ + typst_matter_pages(pages@),
{
    let ghost start = s@;
    let mut i: usize = 0;
    while i < pages.len()
        invariant
            i <= pages@.len(),
            s@ == start + typst_matter_pages(pages@.take(i as int)),
        decreases pages@.len() - i,
    {
        let page = &pages[i];
        s.append("\n#pagebreak(weak: true)\n");
        match &page.title {
            Some(title) => {
                s.append("== ");
                push_heading_text(s, title.as_str());
                s.append("\n");
            },
            None => {},
        }
        write_blocks(s, &page.blocks);
        proof {
            lemma_take_push(pages@, i as int);
            assert(s@ =~= start + typst_matter_pages(pages@.take(i + 1)));
        }
        i = i + 1;
    }
    assert(pages@.take(pages@.len() as int) =~= pages@);
}

// ---------------------------------------------------------------------
// Preamble, generated pages and page layout

/// Page geometry after the size.
pub const PAGE_MARGINS: &'static str = "  margin: (top: 0.75in, bottom: 0.75in, inside: 0.875in, outside: 0.75in),\n  numbering: none,\n)\n";

/// Paragraph settings, the scene-break and raised-cap helpers, and the
/// heading show rules. A level-1 heading starts a new recto (odd page)
/// with centered small caps; the raised cap sets a chapter's first letter
/// larger within its first line.
pub const PREAMBLE_RULES: &'static str = "#set par(leading: 0.65em, justify: true, first-line-indent: (amount: 1.5em, all: false))\n#let scene-break = {\n  v(0.7em)\n  align(center, text(tracking: 0.5em, \"* * *\"))\n  v(0.7em)\n}\n#let raise-cap(letter) = text(size: 2.2em, weight: \"regular\", tracking: 0.05em, letter)\n#show heading.where(level: 1): it => {\n  pagebreak(weak: true, to: \"odd\")\n  v(1.5in)\n  align(center, text(size: 1.6em, tracking: 0.1em, weight: \"regular\", smallcaps(it.body)))\n  v(2em)\n}\n#show heading.where(level: 2): it => align(center, text(size: 1.2em, smallcaps(it.body)))\n";

/// Body page setup up to the verso running head: arabic numbers, and no
/// running head on a chapter's opening page.
pub const BODY_LAYOUT_HEAD: &'static str = "\n#set page(\n  numbering: \"1\",\n  header: context {\n    let page-num = counter(page).get().first()\n    let chapter-here = query(heading.where(level: 1)).filter(c => c.location().page() == page-num)\n    if chapter-here.len() > 0 { return [] }\n    let chapters-before = query(heading.where(level: 1).before(here()))\n    if chapters-before.len() == 0 { return [] }\n    let chapter-title = chapters-before.last().body\n    if calc.even(page-num) {\n";

/// Body page setup after the verso running head: chapter title recto,
/// centered page number suppressed on chapter-opening pages, numbering
/// restarted at 1.
pub const BODY_LAYOUT_TAIL: &'static str = "    } else {\n      align(right, text(size: 0.85em, tracking: 0.1em, smallcaps(chapter-title)))\n    }\n  },\n  footer: context {\n    let page-num = counter(page).get().first()\n    let chapter-here = query(heading.where(level: 1)).filter(c => c.location().page() == page-num)\n    if chapter-here.len() > 0 { return [] }\n    align(center, text(size: 0.85em, numbering(\"1\", page-num)))\n  },\n)\n#counter(page).update(1)\n";

/// The table of contents page.
pub const TOC_PAGE: &'static str = "\n#align(center)[\n  #v(1.5in)\n  #text(size: 1.6em, tracking: 0.1em, smallcaps(\"Contents\"))\n]\n#v(1em)\n#outline(title: none, depth: 1)\n#pagebreak()\n";

/// Front matter is numbered in roman numerals from i.
pub const FRONT_MATTER_NUMBERING: &'static str = "\n#set page(numbering: \"i\")\n#counter(page).update(1)\n";

/// Page width in inches, as a number is printed (`5`, `5.5`, `6`).
pub open spec fn trim_width_text(t: TrimSize) -> Seq<char> {
    match t {
        TrimSize::FiveByEight => "5"@,
        TrimSize::FiveFiveByEightFive => "5.5"@,
        TrimSize::SixByNine => "6"@,
    }
}

/// Page height in inches, as a number is printed (`8`, `8.5`, `9`).
pub open spec fn trim_height_text(t: TrimSize) -> Seq<char> {
    match t {
        TrimSize::FiveByEight => "8"@,
        TrimSize::FiveFiveByEightFive => "8.5"@,
        TrimSize::SixByNine => "9"@,
    }
}

fn trim_dimensions_text(t: TrimSize) -> (wh: (&'static str, &'static str))
    ensures
        wh.0@ == trim_width_text(t),
        wh.1@ == trim_height_text(t),
{
    match t {
        TrimSize::FiveByEight => ("5", "8"),
        TrimSize::FiveFiveByEightFive => ("5.5", "8.5"),
        TrimSize::SixByNine => ("6", "9"),
    }
}

/// The ISO 639 part of a BCP 47 language tag: everything before the first
/// `-` or `_` (`en-US` gives `en`).
pub open spec fn language_code(tag: Seq<char>) -> Seq<char>
    decreases tag.len(),
{
    if tag.len() == 0 || tag[0] == '-' || tag[0] == '_' {
        seq![]
    } else {
        seq![tag[0]] + language_code(tag.drop_first())
    }
}

fn language_code_of(tag: &str) -> (code: String)
    ensures
        code@ == language_code(tag@),
{
    let chars = crate::text::chars_of(tag);
    let mut end: usize = 0;
    assert(chars@.skip(0) =~= chars@);
    assert(chars@.take(0) + language_code(chars@) =~= language_code(chars@));
    while end < chars.len() && chars[end] != '-' && chars[end] != '_'
        invariant
            end <= chars@.len(),
            language_code(chars@) == chars@.take(end as int) + language_code(chars@.skip(end as int)),
        decreases chars@.len() - end,
    {
        assert(chars@.skip(end as int).drop_first() =~= chars@.skip(end + 1));
        assert(chars@.take(end + 1) =~= chars@.take(end as int) + seq![chars@[end as int]]);
        end = end + 1;
    }
    assert(language_code(chars@.skip(end as int)) =~= Seq::<char>::empty());
    assert(chars@.subrange(0, end as int) =~= chars@.take(end as int));
    crate::text::string_of(&chars, 0, end)
}

pub open spec fn preamble_text(book: Book) -> Seq<char> {
    let meta = book.meta;
    "#set document(title: \""@ + typst_escape(meta.title@) + "\", author: \""@ + typst_escape(
        meta.author@,
    ) + "\")\n"@ + "#set page(\n"@ + "  width: "@ + trim_width_text(meta.trim) + "in, height: "@
        + trim_height_text(meta.trim) + "in,\n"@ + PAGE_MARGINS@
        + "#set text(font: \"EB Garamond\", size: 11pt, lang: \""@ + typst_escape(
        language_code(meta.language@),
    ) + "\", hyphenate: true)\n"@ + PREAMBLE_RULES@
}

fn write_preamble(s: &mut String, book: &Book)
    ensures
        final(s)@ == old(s)@ + preamble_text(*book),
{
    let ghost start = s@;
    let (w, h) = trim_dimensions_text(book.meta.trim);
    s.append("#set document(title: \"");
    push_escaped(s, book.meta.title.as_str());
    s.append("\", author: \"");
    push_escaped(s, book.meta.author.as_str());
    s.append("\")\n");
    s.append("#set page(\n");
    s.append("  width: ");
    s.append(w);
    s.append("in, height: ");
    s.append(h);
    s.append("in,\n");
    s.append(PAGE_MARGINS);
    let lang_iso = language_code_of(book.meta.language.as_str());
    s.append("#set text(font: \"EB Garamond\", size: 11pt, lang: \"");
    push_escaped(s, lang_iso.as_str());
    s.append("\", hyphenate: true)\n");
    s.append(PREAMBLE_RULES);
    assert(s@ =~= start + preamble_text(*book));
}

pub open spec fn title_page_text(meta: BookMeta) -> Seq<char> {
    "\n#align(center + horizon)[\n"@ + "  #text(size: 2.5em, \""@ + typst_escape(meta.title@)
        + "\")\n"@ + match meta.subtitle {
        Some(sub) => "  #v(0.5em)\n"@ + "  #text(size: 1.3em, style: \"italic\", \""@ + typst_escape(
            sub@,
        ) + "\")\n"@,
        None => seq![],
    } + "  #v(3em)\n"@ + "  #text(size: 1.2em, tracking: 0.08em, smallcaps(\""@ + typst_escape(
        meta.author@,
    ) + "\"))\n"@ + "]\n"@ + "#pagebreak()\n"@
}

fn write_title_page(s: &mut String, meta: &BookMeta)
    ensures
        final(s)@ == old(s)@ + title_page_text(*meta),
{
    let ghost start = s@;
    s.append("\n#align(center + horizon)[\n");
    s.append("  #text(size: 2.5em, \"");
    push_escaped(s, meta.title.as_str());
    s.append("\")\n");
    match &meta.subtitle {
        Some(sub) => {
            s.append("  #v(0.5em)\n");
            s.append("  #text(size: 1.3em, style: \"italic\", \"");
            push_escaped(s, sub.as_str());
            s.append("\")\n");
        },
        None => {},
    }
    s.append("  #v(3em)\n");
    s.append("  #text(size: 1.2em, tracking: 0.08em, smallcaps(\"");
    push_escaped(s, meta.author.as_str());
    s.append("\"))\n");
    s.append("]\n");
    s.append("#pagebreak()\n");
    assert(s@ =~= start + title_page_text(*meta));
}

/// The ISBN printed on the copyright page: the print ISBN, else the
/// e-book ISBN.
pub open spec fn print_isbn(meta: BookMeta) -> Option<String> {
    match meta.copyright.isbn_print {
        Some(isbn) => Some(isbn),
        None => meta.copyright.isbn_epub,
    }
}

pub open spec fn copyright_page_text(meta: BookMeta) -> Seq<char> {
    let cp = meta.copyright;
    "\n#align(center + bottom)[\n"@ + "  #set text(size: 0.85em)\n"@ + "  #text(\"Copyright \u{00A9} "@
        + decimal(cp.year as nat) + " "@ + typst_escape(cp.holder@) + "\") \\\n"@
        + "  All rights reserved. \\\n"@ + "  #text(\"Published by "@ + typst_escape(cp.publisher@)
        + "\")\n"@ + match print_isbn(meta) {
        Some(isbn) => "  \\\n"@ + "  #text(\"ISBN: "@ + typst_escape(isbn@) + "\")\n"@,
        None => seq![],
    } + "  #v(1in)\n"@ + "]\n"@ + "#pagebreak()\n"@
}

fn write_copyright_page(s: &mut String, meta: &BookMeta)
    ensures
        final(s)@ == old(s)@ + copyright_page_text(*meta),
{
    let ghost start = s@;
    let cp = &meta.copyright;
    s.append("\n#align(center + bottom)[\n");
    s.append("  #set text(size: 0.85em)\n");
    s.append("  #text(\"Copyright \u{00A9} ");
    push_decimal(s, cp.year as u64);
    s.append(" ");
    push_escaped(s, cp.holder.as_str());
    s.append("\") \\\n");
    s.append("  All rights reserved. \\\n");
    s.append("  #text(\"Published by ");
    push_escaped(s, cp.publisher.as_str());
    s.append("\")\n");
    let isbn = match &cp.isbn_print {
        Some(isbn) => Some(isbn),
        None => match &cp.isbn_epub {
            Some(isbn) => Some(isbn),
            None => None,
        },
    };
    match isbn {
        Some(isbn) => {
            s.append("  \\\n");
            s.append("  #text(\"ISBN: ");
            push_escaped(s, isbn.as_str());
            s.append("\")\n");
        },
        None => {},
    }
    s.append("  #v(1in)\n");
    s.append("]\n");
    s.append("#pagebreak()\n");
    assert(s@ =~= start + copyright_page_text(*meta));
}

pub open spec fn body_layout_text(meta: BookMeta) -> Seq<char> {
    BODY_LAYOUT_HEAD@ + "      align(left, text(size: 0.85em, tracking: 0.1em, smallcaps(\""@
        + typst_escape(meta.title@) + "\")))\n"@ + BODY_LAYOUT_TAIL@
}

fn write_body_layout(s: &mut String, meta: &BookMeta)
    ensures
        final(s)@ == old(s)@ + body_layout_text(*meta),
{
    let ghost start = s@;
    s.append(BODY_LAYOUT_HEAD);
    s.append("      align(left, text(size: 0.85em, tracking: 0.1em, smallcaps(\"");
    push_escaped(s, meta.title.as_str());
    s.append("\")))\n");
    s.append(BODY_LAYOUT_TAIL);
    assert(s@ =~= start + body_layout_text(*meta));
}

/// The complete Typst source of `book`: preamble, title page, copyright
/// page and table of contents; front matter (numbered in roman numerals)
/// when there is any; then the body layout, the chapters and the back
/// matter.
pub open spec fn typst_source(book: Book) -> Seq<char> {
    preamble_text(book) + title_page_text(book.meta) + copyright_page_text(book.meta) + TOC_PAGE@
        + (if book.front_matter@.len() > 0 {
        FRONT_MATTER_NUMBERING@ + typst_matter_pages(book.front_matter@)
    } else {
        seq![]
    }) + body_layout_text(book.meta) + typst_chapters(book.chapters@) + typst_matter_pages(
        book.back_matter@,
    )
}

/// The Typst source of `book`.
pub fn build(book: &Book) -> (source: String)
    ensures
        source@ == typst_source(*book),
{
    let mut s = String::new();
    write_preamble(&mut s, book);
    write_title_page(&mut s, &book.meta);
    write_copyright_page(&mut s, &book.meta);
    s.append(TOC_PAGE);
    if book.front_matter.len() > 0 {
        s.append(FRONT_MATTER_NUMBERING);
        write_matter_pages(&mut s, &book.front_matter);
    }
    write_body_layout(&mut s, &book.meta);
    write_chapters(&mut s, &book.chapters);
    write_matter_pages(&mut s, &book.back_matter);
    assert(s@ =~= typst_source(*book));
    s
}

} // verus!
