//! Names of every file written into the EPUB archive.
//!
//! Kept in one place so that the modules that emit references (nav,
//! package document, archive) agree with the files themselves.
use vstd::prelude::*;

use crate::text::{decimal_pad3, push_decimal_pad3};

verus! {

broadcast use vstd::string::group_string_axioms;

pub const COVER_XHTML: &'static str = "cover.xhtml";

pub const TITLE_XHTML: &'static str = "title.xhtml";

pub const COPYRIGHT_XHTML: &'static str = "copyright.xhtml";

pub const NAV_XHTML: &'static str = "nav.xhtml";

pub const COVER_IMAGE: &'static str = "cover.jpg";

pub const STYLESHEET: &'static str = "theme.css";

/// `chapter-NNN.xhtml` for the chapter at index `idx` (numbered from 1).
pub open spec fn chapter_file(idx: nat) -> Seq<char> {
    "chapter-"@ + decimal_pad3(idx + 1) + ".xhtml"@
}

/// `front-NNN.xhtml` for the front-matter page at index `idx`.
pub open spec fn front_matter_file(idx: nat) -> Seq<char> {
    "front-"@ + decimal_pad3(idx + 1) + ".xhtml"@
}

/// `back-NNN.xhtml` for the back-matter page at index `idx`.
pub open spec fn back_matter_file(idx: nat) -> Seq<char> {
    "back-"@ + decimal_pad3(idx + 1) + ".xhtml"@
}

pub fn chapter(idx: usize) -> (s: String)
    requires
        idx < usize::MAX,
    ensures
        s@ == chapter_file(idx as nat),
{
    let mut s = String::from_str("chapter-");
    push_decimal_pad3(&mut s, (idx + 1) as u64);
    s.append(".xhtml");
    s
}

pub fn front_matter(idx: usize) -> (s: String)
    requires
        idx < usize::MAX,
    ensures
        s@ == front_matter_file(idx as nat),
{
    let mut s = String::from_str("front-");
    push_decimal_pad3(&mut s, (idx + 1) as u64);
    s.append(".xhtml");
    s
}

pub fn back_matter(idx: usize) -> (s: String)
    requires
        idx < usize::MAX,
    ensures
        s@ == back_matter_file(idx as nat),
{
    let mut s = String::from_str("back-");
    push_decimal_pad3(&mut s, (idx + 1) as u64);
    s.append(".xhtml");
    s
}

} // verus!
