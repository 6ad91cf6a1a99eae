//! Typed shape of `book.toml`.
//!
//! The project root holds a `book.toml` with the book's metadata,
//! copyright and print settings. These are the plain values it decodes
//! to; decoding the TOML text itself happens at the program's edge.
use vstd::prelude::*;

verus! {

broadcast use vstd::string::group_string_axioms;

#[derive(Debug, Clone)]
pub struct BookConfig {
    pub book: BookMeta,
    pub copyright: CopyrightMeta,
    pub print: PrintMeta,
    pub ebook: EbookMeta,
}

#[derive(Debug, Clone)]
pub struct BookMeta {
    pub title: String,
    pub subtitle: Option<String>,
    pub author: String,
    pub language: String,
}

#[derive(Debug, Clone)]
pub struct CopyrightMeta {
    pub year: u16,
    pub holder: String,
    pub isbn_epub: Option<String>,
    pub isbn_print: Option<String>,
    pub publisher: String,
}

#[derive(Debug, Clone)]
pub struct PrintMeta {
    pub trim: TrimSize,
}

/// Reserved for future e-book options.
#[derive(Debug, Clone)]
pub struct EbookMeta {}

impl Default for EbookMeta {
    fn default() -> (r: Self)
        ensures
            r == (EbookMeta {}),
    {
        EbookMeta {}
    }
}

/// Supported print trim sizes.
#[derive(Debug, Clone, Copy, PartialEq, Eq, Structural)]
pub enum TrimSize {
    FiveByEight,
    FiveFiveByEightFive,
    SixByNine,
}

/// The trim size as written in `book.toml`: `"5x8"`, `"5.5x8.5"` or `"6x9"`.
pub open spec fn trim_slug(t: TrimSize) -> Seq<char> {
    match t {
        TrimSize::FiveByEight => "5x8"@,
        TrimSize::FiveFiveByEightFive => "5.5x8.5"@,
        TrimSize::SixByNine => "6x9"@,
    }
}

impl TrimSize {
    /// The `book.toml` spelling of this trim size, also used in output
    /// file names.
    pub fn slug(self) -> (s: &'static str)
        ensures
            s@ == trim_slug(self),
    {
        match self {
            TrimSize::FiveByEight => "5x8",
            TrimSize::FiveFiveByEightFive => "5.5x8.5",
            TrimSize::SixByNine => "6x9",
        }
    }
}

/// Language used when `book.toml` gives none.
pub fn default_language() -> (s: String)
    ensures
        s@ == "en-US"@,
{
    String::from_str("en-US")
}

/// Publisher used when `book.toml` gives none.
pub fn default_publisher() -> (s: String)
    ensures
        s@ == "Self-Published"@,
{
    String::from_str("Self-Published")
}

} // verus!
