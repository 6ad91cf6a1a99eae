//! In-memory Book intermediate representation.
//!
//! The IR is the contract between parsing and rendering. Renderers
//! (EPUB, PDF) consume a [`Book`] and produce output; they do not consult
//! the on-disk project layout or the raw Markdown.
//!
//! Each recursive type has a view: the same tree with sequences in place
//! of vectors and character sequences in place of strings. Contracts of
//! the parser and the renderers are stated over these views.
use vstd::prelude::*;

use crate::config::{BookConfig, TrimSize};

verus! {

broadcast use vstd::string::group_string_axioms;

#[derive(Debug)]
pub struct Book {
    pub meta: BookMeta,
    pub cover: Option<Cover>,
    pub front_matter: Vec<MatterPage>,
    pub chapters: Vec<Chapter>,
    pub back_matter: Vec<MatterPage>,
}

/// Cover image loaded into memory at project assembly time. Renderers
/// embed `bytes` directly; they do not touch the filesystem for it.
#[derive(Debug, Clone)]
pub struct Cover {
    pub bytes: Vec<u8>,
    pub mime: &'static str,
}

#[derive(Debug, Clone)]
pub struct BookMeta {
    pub title: String,
    pub subtitle: Option<String>,
    pub author: String,
    pub language: String,
    pub copyright: Copyright,
    pub trim: TrimSize,
}

#[derive(Debug, Clone)]
pub struct Copyright {
    pub year: u16,
    pub holder: String,
    pub isbn_epub: Option<String>,
    pub isbn_print: Option<String>,
    pub publisher: String,
}

#[derive(Debug)]
pub struct Chapter {
    /// Title taken from the first `# H1` of the chapter file.
    pub title: String,
    pub blocks: Vec<Block>,
}

/// Front-matter or back-matter page.
#[derive(Debug)]
pub struct MatterPage {
    /// Optional title from the first `# H1`; a one-line dedication has none.
    pub title: Option<String>,
    pub blocks: Vec<Block>,
}

#[derive(Debug)]
pub enum Block {
    Paragraph(Vec<Inline>),
    Heading { level: HeadingLevel, content: Vec<Inline> },
    /// A horizontal rule in Markdown; renders as a centered ornament.
    SceneBreak,
    BlockQuote(Vec<Block>),
    UnorderedList(Vec<ListItem>),
    OrderedList(Vec<ListItem>),
}

/// Subdivisions within a chapter or matter page. The page title itself
/// is the `# H1` and lives on [`Chapter::title`] / [`MatterPage::title`].
#[derive(Debug, Clone, Copy, PartialEq, Eq, Structural)]
pub enum HeadingLevel {
    H2,
    H3,
    H4,
}

#[derive(Debug)]
pub struct ListItem {
    pub blocks: Vec<Block>,
}

#[derive(Debug)]
pub enum Inline {
    Text(String),
    Emphasis(Vec<Inline>),
    Strong(Vec<Inline>),
    /// Newline inside a paragraph; renderers treat it as a space.
    SoftBreak,
    /// Two trailing spaces or a trailing backslash.
    HardBreak,
}

// ---------------------------------------------------------------------
// Views

pub enum InlineView {
    Text(Seq<char>),
    Emphasis(Seq<InlineView>),
    Strong(Seq<InlineView>),
    SoftBreak,
    HardBreak,
}

pub enum BlockView {
    Paragraph(Seq<InlineView>),
    Heading { level: HeadingLevel, content: Seq<InlineView> },
    SceneBreak,
    BlockQuote(Seq<BlockView>),
    /// Each item is the sequence of its blocks.
    UnorderedList(Seq<Seq<BlockView>>),
    OrderedList(Seq<Seq<BlockView>>),
}

pub struct ChapterView {
    pub title: Seq<char>,
    pub blocks: Seq<BlockView>,
}

pub struct MatterPageView {
    pub title: Option<Seq<char>>,
    pub blocks: Seq<BlockView>,
}

pub open spec fn inline_view(i: Inline) -> InlineView
    decreases i,
{
    match i {
        Inline::Text(s) => InlineView::Text(s@),
        Inline::Emphasis(v) => InlineView::Emphasis(inlines_view(v@)),
        Inline::Strong(v) => InlineView::Strong(inlines_view(v@)),
        Inline::SoftBreak => InlineView::SoftBreak,
        Inline::HardBreak => InlineView::HardBreak,
    }
}

pub open spec fn inlines_view(s: Seq<Inline>) -> Seq<InlineView>
    decreases s,
{
    if s.len() == 0 {
        seq![]
    } else {
        inlines_view(s.drop_last()).push(inline_view(s.last()))
    }
}

pub open spec fn block_view(b: Block) -> BlockView
    decreases b,
{
    match b {
        Block::Paragraph(v) => BlockView::Paragraph(inlines_view(v@)),
        Block::Heading { level, content } => BlockView::Heading {
            level,
            content: inlines_view(content@),
        },
        Block::SceneBreak => BlockView::SceneBreak,
        Block::BlockQuote(v) => BlockView::BlockQuote(blocks_view(v@)),
        Block::UnorderedList(items) => BlockView::UnorderedList(items_view(items@)),
        Block::OrderedList(items) => BlockView::OrderedList(items_view(items@)),
    }
}

pub open spec fn blocks_view(s: Seq<Block>) -> Seq<BlockView>
    decreases s,
{
    if s.len() == 0 {
        seq![]
    } else {
        blocks_view(s.drop_last()).push(block_view(s.last()))
    }
}

pub open spec fn items_view(s: Seq<ListItem>) -> Seq<Seq<BlockView>>
    decreases s,
{
    if s.len() == 0 {
        seq![]
    } else {
        items_view(s.drop_last()).push(blocks_view(s.last().blocks@))
    }
}

impl View for Inline {
    type V = InlineView;

    open spec fn view(&self) -> InlineView {
        inline_view(*self)
    }
}

impl View for Block {
    type V = BlockView;

    open spec fn view(&self) -> BlockView {
        block_view(*self)
    }
}

impl View for Chapter {
    type V = ChapterView;

    open spec fn view(&self) -> ChapterView {
        ChapterView { title: self.title@, blocks: blocks_view(self.blocks@) }
    }
}

pub open spec fn opt_view(o: Option<String>) -> Option<Seq<char>> {
    match o {
        Some(s) => Some(s@),
        None => None,
    }
}

impl View for MatterPage {
    type V = MatterPageView;

    open spec fn view(&self) -> MatterPageView {
        MatterPageView { title: opt_view(self.title), blocks: blocks_view(self.blocks@) }
    }
}

pub proof fn lemma_inlines_view_len(s: Seq<Inline>)
    ensures
        inlines_view(s).len() == s.len(),
        forall|i: int| 0 <= i < s.len() ==> #[trigger] inlines_view(s)[i] == inline_view(s[i]),
    decreases s.len(),
{
    if s.len() > 0 {
        lemma_inlines_view_len(s.drop_last());
    }
}

pub proof fn lemma_blocks_view_len(s: Seq<Block>)
    ensures
        blocks_view(s).len() == s.len(),
        forall|i: int| 0 <= i < s.len() ==> #[trigger] blocks_view(s)[i] == block_view(s[i]),
    decreases s.len(),
{
    if s.len() > 0 {
        lemma_blocks_view_len(s.drop_last());
    }
}

// ---------------------------------------------------------------------
// Assembling metadata from `book.toml`

fn clone_opt(o: &Option<String>) -> (r: Option<String>)
    ensures
        r == *o,
{
    match o {
        Some(s) => Some(s.clone()),
        None => None,
    }
}

/// The Book metadata that a parsed `book.toml` describes.
pub open spec fn meta_of_config(cfg: BookConfig) -> BookMeta {
    BookMeta {
        title: cfg.book.title,
        subtitle: cfg.book.subtitle,
        author: cfg.book.author,
        language: cfg.book.language,
        copyright: Copyright {
            year: cfg.copyright.year,
            holder: cfg.copyright.holder,
            isbn_epub: cfg.copyright.isbn_epub,
            isbn_print: cfg.copyright.isbn_print,
            publisher: cfg.copyright.publisher,
        },
        trim: cfg.print.trim,
    }
}

impl<'a> From<&'a BookConfig> for BookMeta {
    fn from(cfg: &'a BookConfig) -> (r: Self) {
        BookMeta {
            title: cfg.book.title.clone(),
            subtitle: clone_opt(&cfg.book.subtitle),
            author: cfg.book.author.clone(),
            language: cfg.book.language.clone(),
            copyright: Copyright {
                year: cfg.copyright.year,
                holder: cfg.copyright.holder.clone(),
                isbn_epub: clone_opt(&cfg.copyright.isbn_epub),
                isbn_print: clone_opt(&cfg.copyright.isbn_print),
                publisher: cfg.copyright.publisher.clone(),
            },
            trim: cfg.print.trim,
        }
    }
}

impl<'a> vstd::std_specs::convert::FromSpecImpl<&'a BookConfig> for BookMeta {
    open spec fn obeys_from_spec() -> bool {
        true
    }

    open spec fn from_spec(cfg: &'a BookConfig) -> BookMeta {
        meta_of_config(*cfg)
    }
}

} // verus!
