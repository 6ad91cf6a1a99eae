//! Markdown → Book IR conversion.
//!
//! The Markdown text is tokenized into a stream of events (see
//! [`crate::markdown`]); everything after that is this module's own logic.
//! [`parse_chapter`] requires the file's first block to be an `# H1` and
//! uses it as the chapter title; [`parse_matter_page`] treats the H1 as
//! optional.
//!
//! Unsupported Markdown constructs (code blocks, HTML, images, links,
//! tables, footnotes) are dropped.
use vstd::prelude::*;

use crate::ir::{
    block_view, blocks_view, inline_view, inlines_view, items_view, Block, BlockView, Chapter,
    ChapterView, HeadingLevel, Inline, InlineView, ListItem, MatterPage, MatterPageView, opt_view,
};
use crate::markdown::{markdown_event_stream, markdown_events, MdEvent, MdTag};
use crate::text::{trim, trimmed};

verus! {

broadcast use vstd::string::group_string_axioms;

#[derive(Debug, Clone, Copy, PartialEq, Eq, Structural)]
pub enum ParseError {
    MissingChapterTitle,
}

impl ParseError {
    /// The human-readable description of the error.
    pub fn message(&self) -> (s: &'static str)
        ensures
            s@ == "chapter is missing a `# Heading` title"@,
    {
        "chapter is missing a `# Heading` title"
    }
}

/// Which closing tag ends the element being parsed.
#[derive(Debug, Clone, Copy, PartialEq, Eq, Structural)]
pub enum Terminator {
    /// Nothing closes the run: it lasts to the end of the stream.
    EndOfInput,
    Paragraph,
    Heading,
    BlockQuote,
    Item,
    Emphasis,
    Strong,
}

/// Whether the closing tag `end` ends an element awaited with `t`.
pub open spec fn terminates(t: Terminator, end: MdTag) -> bool {
    match t {
        Terminator::EndOfInput => false,
        Terminator::Paragraph => end == MdTag::Paragraph,
        Terminator::Heading => end is Heading,
        Terminator::BlockQuote => end == MdTag::BlockQuote,
        Terminator::Item => end == MdTag::Item,
        Terminator::Emphasis => end == MdTag::Emphasis,
        Terminator::Strong => end == MdTag::Strong,
    }
}

impl Terminator {
    fn matches(self, end: MdTag) -> (b: bool)
        ensures
            b == terminates(self, end),
    {
        match self {
            Terminator::EndOfInput => false,
            Terminator::Paragraph => end == MdTag::Paragraph,
            Terminator::Heading => match end {
                MdTag::Heading(_) => true,
                _ => false,
            },
            Terminator::BlockQuote => end == MdTag::BlockQuote,
            Terminator::Item => end == MdTag::Item,
            Terminator::Emphasis => end == MdTag::Emphasis,
            Terminator::Strong => end == MdTag::Strong,
        }
    }
}

/// H1 past the title is treated as H2; H5/H6 collapse to H4.
pub open spec fn heading_level_of(level: u8) -> HeadingLevel {
    if level == 3 {
        HeadingLevel::H3
    } else if level >= 4 {
        HeadingLevel::H4
    } else {
        HeadingLevel::H2
    }
}

fn map_heading_level(level: u8) -> (h: HeadingLevel)
    ensures
        h == heading_level_of(level),
{
    if level == 3 {
        HeadingLevel::H3
    } else if level >= 4 {
        HeadingLevel::H4
    } else {
        HeadingLevel::H2
    }
}

/// Whether `ev[pos]` is the closing tag awaited with `term`.
pub open spec fn ends_at(ev: Seq<MdEvent>, pos: int, term: Terminator) -> bool {
    ev[pos] matches MdEvent::End(t) && terminates(term, t)
}

pub open spec fn opt_cons<T>(x: Option<T>, rest: Seq<T>) -> Seq<T> {
    match x {
        Some(v) => seq![v] + rest,
        None => rest,
    }
}

/// The inlines from position `pos` up to the closing tag awaited with
/// `term` (or the end of the stream), and the position just after.
pub open spec fn inlines_from(ev: Seq<MdEvent>, pos: int, term: Terminator) -> (Seq<InlineView>, int)
    decreases ev.len() - pos, 0int,
{
    if pos < 0 || pos >= ev.len() {
        (seq![], pos)
    } else if ends_at(ev, pos, term) {
        (seq![], pos + 1)
    } else {
        let (item, next) = match ev[pos] {
            MdEvent::Text(s) => (Some(InlineView::Text(s@)), pos + 1),
            MdEvent::Code(s) => (Some(InlineView::Text(s@)), pos + 1),
            MdEvent::SoftBreak => (Some(InlineView::SoftBreak), pos + 1),
            MdEvent::HardBreak => (Some(InlineView::HardBreak), pos + 1),
            MdEvent::Start(MdTag::Emphasis) => {
                let (inner, p) = inlines_from(ev, pos + 1, Terminator::Emphasis);
                (Some(InlineView::Emphasis(inner)), p)
            },
            MdEvent::Start(MdTag::Strong) => {
                let (inner, p) = inlines_from(ev, pos + 1, Terminator::Strong);
                (Some(InlineView::Strong(inner)), p)
            },
            _ => (None, pos + 1),
        };
        if next <= pos || next > ev.len() {
            (seq![], ev.len() as int)
        } else {
            let (rest, end) = inlines_from(ev, next, term);
            (opt_cons(item, rest), end)
        }
    }
}

/// The block that starts at `pos` (if the element there is one the IR
/// keeps), and the position just after it.
pub open spec fn block_at(ev: Seq<MdEvent>, pos: int) -> (Option<BlockView>, int)
    decreases ev.len() - pos, 0int,
{
    if pos < 0 || pos >= ev.len() {
        (None, pos)
    } else {
        match ev[pos] {
            MdEvent::Start(MdTag::Paragraph) => {
                let (il, p) = inlines_from(ev, pos + 1, Terminator::Paragraph);
                (Some(BlockView::Paragraph(il)), p)
            },
            MdEvent::Start(MdTag::Heading(l)) => {
                let (il, p) = inlines_from(ev, pos + 1, Terminator::Heading);
                (Some(BlockView::Heading { level: heading_level_of(l), content: il }), p)
            },
            MdEvent::Start(MdTag::BlockQuote) => {
                let (bs, p) = blocks_from(ev, pos + 1, Terminator::BlockQuote);
                (Some(BlockView::BlockQuote(bs)), p)
            },
            MdEvent::Start(MdTag::List(ordered)) => {
                let (items, p) = items_from(ev, pos + 1);
                if ordered {
                    (Some(BlockView::OrderedList(items)), p)
                } else {
                    (Some(BlockView::UnorderedList(items)), p)
                }
            },
            MdEvent::Rule => (Some(BlockView::SceneBreak), pos + 1),
            _ => (None, pos + 1),
        }
    }
}

/// The blocks from `pos` up to the closing tag awaited with `term` (or
/// the end of the stream), and the position just after.
pub open spec fn blocks_from(ev: Seq<MdEvent>, pos: int, term: Terminator) -> (Seq<BlockView>, int)
    decreases ev.len() - pos, 1int,
{
    if pos < 0 || pos >= ev.len() {
        (seq![], pos)
    } else if ends_at(ev, pos, term) {
        (seq![], pos + 1)
    } else {
        let (b, next) = block_at(ev, pos);
        if next <= pos || next > ev.len() {
            (seq![], ev.len() as int)
        } else {
            let (rest, end) = blocks_from(ev, next, term);
            (opt_cons(b, rest), end)
        }
    }
}

/// The items of a list whose opening tag precedes `pos`, up to the
/// list's closing tag, and the position just after.
pub open spec fn items_from(ev: Seq<MdEvent>, pos: int) -> (Seq<Seq<BlockView>>, int)
    decreases ev.len() - pos, 0int,
{
    if pos < 0 || pos >= ev.len() {
        (seq![], pos)
    } else {
        match ev[pos] {
            MdEvent::End(MdTag::List(_)) => (seq![], pos + 1),
            MdEvent::Start(MdTag::Item) => {
                let (bs, p) = blocks_from(ev, pos + 1, Terminator::Item);
                if p <= pos || p > ev.len() {
                    (seq![], ev.len() as int)
                } else {
                    let (rest, end) = items_from(ev, p);
                    (seq![bs] + rest, end)
                }
            },
            _ => items_from(ev, pos + 1),
        }
    }
}

/// The text of an inline, emphasis removed; nested runs are trimmed.
pub open spec fn plain_piece(x: InlineView) -> Seq<char>
    decreases x,
{
    match x {
        InlineView::Text(t) => t,
        InlineView::Emphasis(inner) => trim(plain_concat(inner)),
        InlineView::Strong(inner) => trim(plain_concat(inner)),
        InlineView::SoftBreak => " "@,
        InlineView::HardBreak => " "@,
    }
}

pub open spec fn plain_concat(s: Seq<InlineView>) -> Seq<char>
    decreases s,
{
    if s.len() == 0 {
        seq![]
    } else {
        plain_concat(s.drop_last()) + plain_piece(s.last())
    }
}

/// The plain text of a run of inlines: emphasis dropped, breaks as
/// spaces, white space trimmed at both ends.
pub open spec fn plain_text(s: Seq<InlineView>) -> Seq<char> {
    trim(plain_concat(s))
}

/// If the stream opens with an H1, its plain text and the position after
/// it; else no title and position 0.
pub open spec fn leading_title(ev: Seq<MdEvent>) -> (Option<Seq<char>>, int) {
    if ev.len() > 0 && ev[0] == MdEvent::Start(MdTag::Heading(1)) {
        let (il, p) = inlines_from(ev, 1, Terminator::Heading);
        (Some(plain_text(il)), p)
    } else {
        (None, 0)
    }
}

/// The chapter that an event stream describes, or none when it does not
/// open with an H1 title.
pub open spec fn chapter_of_events(ev: Seq<MdEvent>) -> Option<ChapterView> {
    let (title, p) = leading_title(ev);
    match title {
        Some(t) => Some(ChapterView { title: t, blocks: blocks_from(ev, p, Terminator::EndOfInput).0 }),
        None => None,
    }
}

/// The front- or back-matter page that an event stream describes.
pub open spec fn matter_page_of_events(ev: Seq<MdEvent>) -> MatterPageView {
    let (title, p) = leading_title(ev);
    MatterPageView { title, blocks: blocks_from(ev, p, Terminator::EndOfInput).0 }
}

/// A file read as a chapter and as a front- or back-matter page gives the
/// same title and blocks: a chapter is exactly a page that has a title.
pub proof fn chapter_is_titled_matter_page(ev: Seq<MdEvent>)
    ensures
        chapter_of_events(ev) is Some <==> matter_page_of_events(ev).title is Some,
        chapter_of_events(ev) matches Some(ch) ==> Some(ch.title) == matter_page_of_events(ev).title
            && ch.blocks == matter_page_of_events(ev).blocks,
{
}

/// An emphasized run stays emphasis: wherever a stream holds
/// `Start(Emphasis)`, a text, `End(Emphasis)`, the inlines read from there
/// begin with `Emphasis([Text(t)])`, followed by what comes after.
pub proof fn emphasis_stays_emphasis(ev: Seq<MdEvent>, pos: int, term: Terminator, t: String)
    requires
        0 <= pos,
        pos + 3 <= ev.len(),
        ev[pos] == MdEvent::Start(MdTag::Emphasis),
        ev[pos + 1] == MdEvent::Text(t),
        ev[pos + 2] == MdEvent::End(MdTag::Emphasis),
    ensures
        inlines_from(ev, pos, term) == (
            seq![InlineView::Emphasis(seq![InlineView::Text(t@)])] + inlines_from(ev, pos + 3, term).0,
            inlines_from(ev, pos + 3, term).1,
        ),
{
    assert(ends_at(ev, pos + 2, Terminator::Emphasis));
    assert(inlines_from(ev, pos + 2, Terminator::Emphasis) == (Seq::<InlineView>::empty(), pos + 3));
    assert(!ends_at(ev, pos + 1, Terminator::Emphasis));
    assert(inlines_from(ev, pos + 1, Terminator::Emphasis) == (
        seq![InlineView::Text(t@)],
        pos + 3,
    ));
    assert(!ends_at(ev, pos, term));
}

/// A strong run stays strong: wherever a stream holds `Start(Strong)`, a
/// text, `End(Strong)`, the inlines read from there begin with
/// `Strong([Text(t)])`, followed by what comes after.
pub proof fn strong_stays_strong(ev: Seq<MdEvent>, pos: int, term: Terminator, t: String)
    requires
        0 <= pos,
        pos + 3 <= ev.len(),
        ev[pos] == MdEvent::Start(MdTag::Strong),
        ev[pos + 1] == MdEvent::Text(t),
        ev[pos + 2] == MdEvent::End(MdTag::Strong),
    ensures
        inlines_from(ev, pos, term) == (
            seq![InlineView::Strong(seq![InlineView::Text(t@)])] + inlines_from(ev, pos + 3, term).0,
            inlines_from(ev, pos + 3, term).1,
        ),
{
    assert(ends_at(ev, pos + 2, Terminator::Strong));
    assert(inlines_from(ev, pos + 2, Terminator::Strong) == (Seq::<InlineView>::empty(), pos + 3));
    assert(!ends_at(ev, pos + 1, Terminator::Strong));
    assert(inlines_from(ev, pos + 1, Terminator::Strong) == (seq![InlineView::Text(t@)], pos + 3));
    assert(!ends_at(ev, pos, term));
}

/// The chapter `# x` with the paragraph `*a* **b**` has the title `x`
/// (trimmed) and one paragraph whose first inline is `a` emphasized and
/// whose second is `b` strong.
pub proof fn emphasis_and_strong_in_a_chapter(ev: Seq<MdEvent>, x: String, a: String, b: String)
    requires
        ev == seq![
            MdEvent::Start(MdTag::Heading(1)),
            MdEvent::Text(x),
            MdEvent::End(MdTag::Heading(1)),
            MdEvent::Start(MdTag::Paragraph),
            MdEvent::Start(MdTag::Emphasis),
            MdEvent::Text(a),
            MdEvent::End(MdTag::Emphasis),
            MdEvent::Start(MdTag::Strong),
            MdEvent::Text(b),
            MdEvent::End(MdTag::Strong),
            MdEvent::End(MdTag::Paragraph),
        ],
    ensures
        chapter_of_events(ev) == Some(
            ChapterView {
                title: trim(x@),
                blocks: seq![
                    BlockView::Paragraph(
                        seq![
                            InlineView::Emphasis(seq![InlineView::Text(a@)]),
                            InlineView::Strong(seq![InlineView::Text(b@)]),
                        ],
                    ),
                ],
            },
        ),
{
    // the title
    assert(inlines_from(ev, 2, Terminator::Heading) == (Seq::<InlineView>::empty(), 3int));
    assert(inlines_from(ev, 1, Terminator::Heading) == (seq![InlineView::Text(x@)], 3int));
    let il = seq![InlineView::Text(x@)];
    assert(il.drop_last() =~= Seq::<InlineView>::empty());
    assert(plain_concat(Seq::<InlineView>::empty()) == Seq::<char>::empty());
    assert(il.last() == InlineView::Text(x@));
    assert(plain_concat(il) == plain_concat(il.drop_last()) + plain_piece(il.last()));
    assert(plain_concat(il) =~= x@);
    assert(leading_title(ev) == (Some(trim(x@)), 3int));
    // the paragraph
    assert(inlines_from(ev, 10, Terminator::Paragraph) == (Seq::<InlineView>::empty(), 11int));
    strong_stays_strong(ev, 7, Terminator::Paragraph, b);
    emphasis_stays_emphasis(ev, 4, Terminator::Paragraph, a);
    let inls = seq![
        InlineView::Emphasis(seq![InlineView::Text(a@)]),
        InlineView::Strong(seq![InlineView::Text(b@)]),
    ];
    assert(inlines_from(ev, 7, Terminator::Paragraph).0 =~= seq![InlineView::Strong(seq![InlineView::Text(b@)])]);
    assert(inlines_from(ev, 4, Terminator::Paragraph).0 =~= inls);
    assert(block_at(ev, 3) == (Some(BlockView::Paragraph(inls)), 11int));
    assert(blocks_from(ev, 11, Terminator::EndOfInput) == (Seq::<BlockView>::empty(), 11int));
    assert(blocks_from(ev, 3, Terminator::EndOfInput).0 =~= seq![BlockView::Paragraph(inls)]);
}

// ---------------------------------------------------------------------
// Helper lemmas

proof fn lemma_inlines_view_push(s: Seq<Inline>, x: Inline)
    ensures
        inlines_view(s.push(x)) == inlines_view(s).push(inline_view(x)),
{
    assert(s.push(x).drop_last() =~= s);
}

proof fn lemma_blocks_view_push(s: Seq<Block>, x: Block)
    ensures
        blocks_view(s.push(x)) == blocks_view(s).push(block_view(x)),
{
    assert(s.push(x).drop_last() =~= s);
}

proof fn lemma_items_view_push(s: Seq<ListItem>, x: ListItem)
    ensures
        items_view(s.push(x)) == items_view(s).push(blocks_view(x.blocks@)),
{
    assert(s.push(x).drop_last() =~= s);
}

proof fn lemma_plain_concat_push(s: Seq<InlineView>, x: InlineView)
    ensures
        plain_concat(s.push(x)) == plain_concat(s) + plain_piece(x),
{
    assert(s.push(x).drop_last() =~= s);
}

// ---------------------------------------------------------------------
// Executable parser

fn parse_inlines_until(ev: &Vec<MdEvent>, pos: usize, term: Terminator) -> (r: (Vec<Inline>, usize))
    requires
        pos <= ev@.len(),
    ensures
        (inlines_view(r.0@), r.1 as int) == inlines_from(ev@, pos as int, term),
        pos <= r.1 <= ev@.len(),
        pos < ev@.len() ==> pos < r.1,
    decreases ev@.len() - pos, 0int,
{
    let mut out: Vec<Inline> = Vec::new();
    let mut i = pos;
    let mut done = false;
    while !done && i < ev.len()
        invariant
            pos <= i <= ev@.len(),
            done ==> pos < i,
            done ==> inlines_from(ev@, pos as int, term) == (inlines_view(out@), i as int),
            !done ==> inlines_from(ev@, pos as int, term) == (
                inlines_view(out@) + inlines_from(ev@, i as int, term).0,
                inlines_from(ev@, i as int, term).1,
            ),
            !done && i == pos ==> out@.len() == 0,
        decreases ev@.len() - i, if done { 0int } else { 1int },
    {
        let ghost before = out@;
        let is_end = match &ev[i] {
            MdEvent::End(t) => term.matches(*t),
            _ => false,
        };
        if is_end {
            assert(inlines_view(out@) + seq![] =~= inlines_view(out@));
            i = i + 1;
            done = true;
        } else {
            let (item, next): (Option<Inline>, usize) = match &ev[i] {
                MdEvent::Text(s) => (Some(Inline::Text(s.clone())), i + 1),
                MdEvent::Code(s) => (Some(Inline::Text(s.clone())), i + 1),
                MdEvent::SoftBreak => (Some(Inline::SoftBreak), i + 1),
                MdEvent::HardBreak => (Some(Inline::HardBreak), i + 1),
                MdEvent::Start(MdTag::Emphasis) => {
                    let (inner, p) = parse_inlines_until(ev, i + 1, Terminator::Emphasis);
                    (Some(Inline::Emphasis(inner)), p)
                },
                MdEvent::Start(MdTag::Strong) => {
                    let (inner, p) = parse_inlines_until(ev, i + 1, Terminator::Strong);
                    (Some(Inline::Strong(inner)), p)
                },
                _ => (None, i + 1),
            };
            proof {
                let sp = inlines_from(ev@, i as int, term);
                let spn = inlines_from(ev@, next as int, term);
                if item is Some {
                    assert(sp.0 == seq![inline_view(item->0)] + spn.0);
                } else {
                    assert(sp.0 == spn.0);
                }
            }
            match item {
                Some(x) => {
                    proof {
                        lemma_inlines_view_push(out@, x);
                        let spn = inlines_from(ev@, next as int, term);
                        assert(inlines_view(before) + (seq![inline_view(x)] + spn.0) =~= inlines_view(
                            before,
                        ).push(inline_view(x)) + spn.0);
                    }
                    out.push(x);
                },
                None => {},
            }
            i = next;
        }
    }
    if !done {
        assert(inlines_view(out@) + seq![] =~= inlines_view(out@));
    }
    (out, i)
}

fn parse_blocks_until(ev: &Vec<MdEvent>, pos: usize, term: Terminator) -> (r: (Vec<Block>, usize))
    requires
        pos <= ev@.len(),
    ensures
        (blocks_view(r.0@), r.1 as int) == blocks_from(ev@, pos as int, term),
        pos <= r.1 <= ev@.len(),
        pos < ev@.len() ==> pos < r.1,
    decreases ev@.len() - pos, 1int,
{
    let mut out: Vec<Block> = Vec::new();
    let mut i = pos;
    let mut done = false;
    while !done && i < ev.len()
        invariant
            pos <= i <= ev@.len(),
            done ==> pos < i,
            done ==> blocks_from(ev@, pos as int, term) == (blocks_view(out@), i as int),
            !done ==> blocks_from(ev@, pos as int, term) == (
                blocks_view(out@) + blocks_from(ev@, i as int, term).0,
                blocks_from(ev@, i as int, term).1,
            ),
        decreases ev@.len() - i, if done { 0int } else { 1int },
    {
        let ghost before = out@;
        let is_end = match &ev[i] {
            MdEvent::End(t) => term.matches(*t),
            _ => false,
        };
        if is_end {
            assert(blocks_view(out@) + seq![] =~= blocks_view(out@));
            i = i + 1;
            done = true;
        } else {
            let (item, next) = parse_block(ev, i);
            proof {
                let sp = blocks_from(ev@, i as int, term);
                let spn = blocks_from(ev@, next as int, term);
                if item is Some {
                    assert(sp.0 == seq![block_view(item->0)] + spn.0);
                } else {
                    assert(sp.0 == spn.0);
                }
            }
            match item {
                Some(x) => {
                    proof {
                        lemma_blocks_view_push(out@, x);
                        let spn = blocks_from(ev@, next as int, term);
                        assert(blocks_view(before) + (seq![block_view(x)] + spn.0) =~= blocks_view(
                            before,
                        ).push(block_view(x)) + spn.0);
                    }
                    out.push(x);
                },
                None => {},
            }
            i = next;
        }
    }
    if !done {
        assert(blocks_view(out@) + seq![] =~= blocks_view(out@));
    }
    (out, i)
}

fn parse_block(ev: &Vec<MdEvent>, pos: usize) -> (r: (Option<Block>, usize))
    requires
        pos < ev@.len(),
    ensures
        (match r.0 {
            Some(b) => Some(block_view(b)),
            None => None,
        }, r.1 as int) == block_at(ev@, pos as int),
        pos < r.1 <= ev@.len(),
    decreases ev@.len() - pos, 0int,
{
    let len = ev.len();
    assert(pos < len);
    let next = pos + 1;
    match &ev[pos] {
        MdEvent::Start(MdTag::Paragraph) => {
            let (inlines, p) = parse_inlines_until(ev, next, Terminator::Paragraph);
            (Some(Block::Paragraph(inlines)), p)
        },
        MdEvent::Start(MdTag::Heading(level)) => {
            let mapped = map_heading_level(*level);
            let (content, p) = parse_inlines_until(ev, next, Terminator::Heading);
            (Some(Block::Heading { level: mapped, content }), p)
        },
        MdEvent::Start(MdTag::BlockQuote) => {
            let (inner, p) = parse_blocks_until(ev, next, Terminator::BlockQuote);
            (Some(Block::BlockQuote(inner)), p)
        },
        MdEvent::Start(MdTag::List(ordered)) => {
            let (items, p) = parse_list_items(ev, next);
            if *ordered {
                (Some(Block::OrderedList(items)), p)
            } else {
                (Some(Block::UnorderedList(items)), p)
            }
        },
        MdEvent::Rule => (Some(Block::SceneBreak), next),
        _ => (None, next),
    }
}

fn parse_list_items(ev: &Vec<MdEvent>, pos: usize) -> (r: (Vec<ListItem>, usize))
    requires
        pos <= ev@.len(),
    ensures
        (items_view(r.0@), r.1 as int) == items_from(ev@, pos as int),
        pos <= r.1 <= ev@.len(),
        pos < ev@.len() ==> pos < r.1,
    decreases ev@.len() - pos, 0int,
{
    let mut items: Vec<ListItem> = Vec::new();
    let mut i = pos;
    let mut done = false;
    while !done && i < ev.len()
        invariant
            pos <= i <= ev@.len(),
            done ==> pos < i,
            done ==> items_from(ev@, pos as int) == (items_view(items@), i as int),
            !done ==> items_from(ev@, pos as int) == (
                items_view(items@) + items_from(ev@, i as int).0,
                items_from(ev@, i as int).1,
            ),
        decreases ev@.len() - i, if done { 0int } else { 1int },
    {
        let ghost before = items@;
        match &ev[i] {
            MdEvent::Start(MdTag::Item) => {
                let (blocks, p) = parse_blocks_until(ev, i + 1, Terminator::Item);
                let item = ListItem { blocks };
                proof {
                    lemma_items_view_push(items@, item);
                    let spn = items_from(ev@, p as int);
                    assert(items_view(before) + (seq![blocks_view(item.blocks@)] + spn.0)
                        =~= items_view(before).push(blocks_view(item.blocks@)) + spn.0);
                }
                items.push(item);
                i = p;
            },
            MdEvent::End(MdTag::List(_)) => {
                assert(items_view(items@) + seq![] =~= items_view(items@));
                i = i + 1;
                done = true;
            },
            _ => {
                i = i + 1;
            },
        }
    }
    if !done {
        assert(items_view(items@) + seq![] =~= items_view(items@));
    }
    (items, i)
}

fn inlines_to_plain_text(inlines: &Vec<Inline>) -> (s: String)
    ensures
        s@ == plain_text(inlines_view(inlines@)),
    decreases inlines,
{
    let mut out = String::new();
    let mut i: usize = 0;
    while i < inlines.len()
        invariant
            i <= inlines@.len(),
            out@ == plain_concat(inlines_view(inlines@.take(i as int))),
        decreases inlines@.len() - i,
    {
        let ghost before = out@;
        match &inlines[i] {
            Inline::Text(t) => out.append(t.as_str()),
            Inline::Emphasis(inner) => {
                let piece = inlines_to_plain_text(inner);
                out.append(piece.as_str());
            },
            Inline::Strong(inner) => {
                let piece = inlines_to_plain_text(inner);
                out.append(piece.as_str());
            },
            Inline::SoftBreak => out.append(" "),
            Inline::HardBreak => out.append(" "),
        }
        proof {
            assert(inlines@.take(i + 1) =~= inlines@.take(i as int).push(inlines@[i as int]));
            lemma_inlines_view_push(inlines@.take(i as int), inlines@[i as int]);
            lemma_plain_concat_push(inlines_view(inlines@.take(i as int)), inline_view(inlines@[i as int]));
        }
        i = i + 1;
    }
    assert(inlines@.take(inlines@.len() as int) =~= inlines@);
    trimmed(out.as_str())
}

fn take_first_h1_title(ev: &Vec<MdEvent>) -> (r: (Option<String>, usize))
    ensures
        (opt_view(r.0), r.1 as int) == leading_title(ev@),
        r.1 <= ev@.len(),
{
    let is_h1 = ev.len() > 0 && match &ev[0] {
        MdEvent::Start(MdTag::Heading(level)) => *level == 1,
        _ => false,
    };
    if !is_h1 {
        return (None, 0);
    }
    let (inlines, p) = parse_inlines_until(ev, 1, Terminator::Heading);
    (Some(inlines_to_plain_text(&inlines)), p)
}

/// Builds a chapter from a Markdown event stream: the opening H1 is the
/// title and every later block is kept; a stream that does not open
/// with an H1 has no title and is refused.
pub fn parse_chapter_events(events: &Vec<MdEvent>) -> (r: Result<Chapter, ParseError>)
    ensures
        match r {
            Ok(ch) => chapter_of_events(events@) == Some(ch@),
            Err(e) => e == ParseError::MissingChapterTitle && chapter_of_events(events@) is None,
        },
{
    let (title, p) = take_first_h1_title(events);
    match title {
        Some(title) => {
            let (blocks, _end) = parse_blocks_until(events, p, Terminator::EndOfInput);
            Ok(Chapter { title, blocks })
        },
        None => Err(ParseError::MissingChapterTitle),
    }
}

/// Builds a front- or back-matter page from a Markdown event stream; the
/// opening H1, when there is one, is the title.
pub fn parse_matter_page_events(events: &Vec<MdEvent>) -> (page: MatterPage)
    ensures
        page@ == matter_page_of_events(events@),
{
    let (title, p) = take_first_h1_title(events);
    let (blocks, _end) = parse_blocks_until(events, p, Terminator::EndOfInput);
    MatterPage { title, blocks }
}

/// Parses a chapter file. Fails when the file does not open with an
/// `# H1` title.
pub fn parse_chapter(source: &str) -> (r: Result<Chapter, ParseError>)
    ensures
        match r {
            Ok(ch) => chapter_of_events(markdown_events(source@)) == Some(ch@),
            Err(e) => e == ParseError::MissingChapterTitle && chapter_of_events(
                markdown_events(source@),
            ) is None,
        },
{
    let events = markdown_event_stream(source);
    parse_chapter_events(&events)
}

/// Parses a front- or back-matter file; its `# H1` title is optional.
pub fn parse_matter_page(source: &str) -> (page: MatterPage)
    ensures
        page@ == matter_page_of_events(markdown_events(source@)),
{
    let events = markdown_event_stream(source);
    parse_matter_page_events(&events)
}

} // verus!
