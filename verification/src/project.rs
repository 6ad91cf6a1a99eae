//! Discovery of a book project's on-disk layout.
//!
//! [`ProjectLayout::discover`] turns a listing of the project root into
//! the paths of `book.toml`, `cover.jpg` (if present) and the ordered
//! Markdown files of each section. It does not read or parse those files.
//!
//! Missing optional sections (`front-matter/`, `back-matter/`, the cover)
//! give empty results rather than errors; whether an omission is
//! acceptable is a validation concern.
use vstd::prelude::*;

use vstd::relations::{sorted_by, total_ordering};

use crate::text::{chars_of, digits_value, is_ascii_digit, push_char, string_of};

verus! {

broadcast use vstd::string::group_string_axioms;

// ---------------------------------------------------------------------
// Ordering of content files

/// Whether a file name has the extension `md` (as `Path::extension` reads
/// it: a non-empty stem, a dot, then `md`).
pub open spec fn is_markdown_name(name: Seq<char>) -> bool {
    &&& name.len() > 3
    &&& name[name.len() - 3] == '.'
    &&& name[name.len() - 2] == 'm'
    &&& name[name.len() - 1] == 'd'
}

/// The file name without its `.md` extension.
pub open spec fn markdown_stem(name: Seq<char>) -> Seq<char> {
    if name.len() >= 3 {
        name.subrange(0, name.len() - 3)
    } else {
        name
    }
}

/// The ASCII digits that `s` starts with.
pub open spec fn leading_digits(s: Seq<char>) -> Seq<char>
    decreases s.len(),
{
    if s.len() > 0 && is_ascii_digit(s[0]) {
        seq![s[0]] + leading_digits(s.drop_first())
    } else {
        seq![]
    }
}

/// The numeric prefix that orders a content file: the number its stem
/// starts with, or `u32::MAX` (sorting last) when it starts with no
/// digit or the number does not fit in a `u32`.
pub open spec fn numeric_prefix(name: Seq<char>) -> u32 {
    let d = leading_digits(markdown_stem(name));
    if d.len() == 0 || digits_value(d) > u32::MAX {
        u32::MAX
    } else {
        digits_value(d) as u32
    }
}

/// Lexicographic order of character sequences (the order of `String`).
pub open spec fn chars_lt(a: Seq<char>, b: Seq<char>) -> bool
    decreases a.len(),
{
    if a.len() == 0 {
        b.len() > 0
    } else if b.len() == 0 {
        false
    } else if a[0] != b[0] {
        a[0] < b[0]
    } else {
        chars_lt(a.drop_first(), b.drop_first())
    }
}

/// Content files sort by numeric prefix, then by file name.
pub open spec fn name_lt(a: Seq<char>, b: Seq<char>) -> bool {
    numeric_prefix(a) < numeric_prefix(b) || (numeric_prefix(a) == numeric_prefix(b) && chars_lt(a, b))
}

pub open spec fn name_le(a: Seq<char>, b: Seq<char>) -> bool {
    !name_lt(b, a)
}

proof fn lemma_chars_lt_irreflexive(a: Seq<char>)
    ensures
        !chars_lt(a, a),
    decreases a.len(),
{
    if a.len() > 0 {
        lemma_chars_lt_irreflexive(a.drop_first());
    }
}

proof fn lemma_chars_lt_trichotomy(a: Seq<char>, b: Seq<char>)
    ensures
        a != b ==> chars_lt(a, b) || chars_lt(b, a),
        !(chars_lt(a, b) && chars_lt(b, a)),
    decreases a.len(),
{
    if a.len() > 0 && b.len() > 0 {
        lemma_chars_lt_trichotomy(a.drop_first(), b.drop_first());
        if a[0] == b[0] && a != b {
            assert(a.drop_first() != b.drop_first()) by {
                if a.drop_first() == b.drop_first() {
                    assert(a =~= seq![a[0]] + a.drop_first());
                    assert(b =~= seq![b[0]] + b.drop_first());
                }
            }
        }
    } else if a.len() == 0 && b.len() == 0 {
        assert(a =~= b);
    }
}

proof fn lemma_chars_lt_transitive(a: Seq<char>, b: Seq<char>, c: Seq<char>)
    requires
        chars_lt(a, b),
        chars_lt(b, c),
    ensures
        chars_lt(a, c),
    decreases a.len(),
{
    if a.len() > 0 && b.len() > 0 && c.len() > 0 {
        if a[0] == b[0] && b[0] == c[0] {
            lemma_chars_lt_transitive(a.drop_first(), b.drop_first(), c.drop_first());
        }
    }
}

proof fn lemma_name_le_total_ordering()
    ensures
        total_ordering(|a: Seq<char>, b: Seq<char>| name_le(a, b)),
{
    let leq = |a: Seq<char>, b: Seq<char>| name_le(a, b);
    assert forall|a: Seq<char>| #[trigger] leq(a, a) by {
        lemma_chars_lt_irreflexive(a);
    }
    assert forall|a: Seq<char>, b: Seq<char>| #[trigger] leq(a, b) && #[trigger] leq(b, a) implies a
        == b by {
        lemma_chars_lt_trichotomy(a, b);
    }
    assert forall|a: Seq<char>, b: Seq<char>, c: Seq<char>|
        #[trigger] leq(a, b) && #[trigger] leq(b, c) implies #[trigger] leq(a, c) by {
        lemma_chars_lt_trichotomy(a, b);
        lemma_chars_lt_trichotomy(b, c);
        lemma_chars_lt_trichotomy(a, c);
        if name_lt(c, a) {
            if numeric_prefix(c) == numeric_prefix(a) && numeric_prefix(a) == numeric_prefix(b) {
                if a != b && b != c {
                    lemma_chars_lt_transitive(c, a, b);
                }
            }
        }
    }
    assert forall|a: Seq<char>, b: Seq<char>| #[trigger] leq(a, b) || #[trigger] leq(b, a) by {
        lemma_chars_lt_trichotomy(a, b);
    }
    assert(vstd::relations::reflexive(leq));
    assert(vstd::relations::antisymmetric(leq));
    assert(vstd::relations::transitive(leq));
    assert(vstd::relations::strongly_connected(leq));
}

/// The content-file order as a relation for sorting.
pub open spec fn name_order() -> spec_fn(Seq<char>, Seq<char>) -> bool {
    |a: Seq<char>, b: Seq<char>| name_le(a, b)
}

// ---------------------------------------------------------------------
// Executable ordering

fn stem_prefix(name: &Vec<char>) -> (p: u32)
    requires
        is_markdown_name(name@),
    ensures
        p == numeric_prefix(name@),
{
    let stem_len = name.len() - 3;
    let ghost stem = markdown_stem(name@);
    assert(stem =~= name@.subrange(0, stem_len as int));
    let mut value: u64 = 0;
    let mut overflow = false;
    let mut i: usize = 0;
    assert(stem.skip(0) =~= stem);
    assert(stem.take(0) + leading_digits(stem) =~= leading_digits(stem));
    while i < stem_len && '0' <= name[i] && name[i] <= '9'
        invariant
            i <= stem_len == stem.len(),
            stem_len < name@.len(),
            stem == name@.subrange(0, stem_len as int),
            leading_digits(stem) == stem.take(i as int) + leading_digits(stem.skip(i as int)),
            !overflow ==> value == digits_value(stem.take(i as int)) && value <= u32::MAX,
            overflow ==> digits_value(stem.take(i as int)) > u32::MAX,
        decreases stem_len - i,
    {
        let c = name[i];
        assert(stem[i as int] == c);
        let d = (c as u32 - 48) as u64;
        proof {
            assert(stem.skip(i as int).drop_first() =~= stem.skip(i + 1));
            assert(stem.take(i + 1) =~= stem.take(i as int) + seq![c]);
            assert(stem.take(i + 1).drop_last() =~= stem.take(i as int));
            assert(digits_value(stem.take(i + 1)) == digits_value(stem.take(i as int)) * 10 + d);
        }
        if !overflow {
            value = value * 10 + d;
            if value > 4294967295 {
                overflow = true;
            }
        } else {
            assert(digits_value(stem.take(i + 1)) >= digits_value(stem.take(i as int))) by (nonlinear_arith)
                requires
                    digits_value(stem.take(i + 1)) == digits_value(stem.take(i as int)) * 10 + d,
            ;
        }
        i = i + 1;
    }
    assert(leading_digits(stem.skip(i as int)) =~= Seq::<char>::empty());
    assert(stem.take(i as int) + Seq::<char>::empty() =~= stem.take(i as int));
    if i == 0 || overflow {
        4294967295
    } else {
        value as u32
    }
}

/// The key a content file is ordered by: its numeric prefix, then its
/// name.
fn sort_key(name: Vec<char>) -> (key: (u32, Vec<char>))
    requires
        is_markdown_name(name@),
    ensures
        key.0 == numeric_prefix(name@),
        key.1@ == name@,
{
    let prefix = stem_prefix(&name);
    (prefix, name)
}

fn chars_less(a: &Vec<char>, b: &Vec<char>) -> (r: bool)
    ensures
        r == chars_lt(a@, b@),
{
    let mut i: usize = 0;
    assert(a@.skip(0) =~= a@);
    assert(b@.skip(0) =~= b@);
    while i < a.len() && i < b.len() && a[i] == b[i]
        invariant
            i <= a@.len(),
            i <= b@.len(),
            chars_lt(a@, b@) == chars_lt(a@.skip(i as int), b@.skip(i as int)),
        decreases a@.len() - i,
    {
        assert(a@.skip(i as int).drop_first() =~= a@.skip(i + 1));
        assert(b@.skip(i as int).drop_first() =~= b@.skip(i + 1));
        i = i + 1;
    }
    if i == a.len() {
        i < b.len()
    } else if i == b.len() {
        false
    } else {
        a[i] < b[i]
    }
}

fn name_less(a: &(u32, Vec<char>), b: &(u32, Vec<char>)) -> (r: bool)
    requires
        a.0 == numeric_prefix(a.1@),
        b.0 == numeric_prefix(b.1@),
    ensures
        r == name_lt(a.1@, b.1@),
{
    a.0 < b.0 || (a.0 == b.0 && chars_less(&a.1, &b.1))
}

/// Inserts `x` after every entry that does not sort after it.
fn insert_sorted(sorted: &mut Vec<(u32, Vec<char>)>, x: (u32, Vec<char>), ghost_names: Ghost<Seq<Seq<char>>>) -> (names: Ghost<Seq<Seq<char>>>)
    requires
        x.0 == numeric_prefix(x.1@),
        ghost_names@.len() == old(sorted)@.len(),
        forall|i: int| 0 <= i < old(sorted)@.len() ==> (#[trigger] old(sorted)@[i]).1@ == ghost_names@[i]
            && old(sorted)@[i].0 == numeric_prefix(ghost_names@[i]),
        sorted_by(ghost_names@, name_order()),
    ensures
        names@.len() == final(sorted)@.len(),
        forall|i: int| 0 <= i < final(sorted)@.len() ==> (#[trigger] final(sorted)@[i]).1@ == names@[i]
            && final(sorted)@[i].0 == numeric_prefix(names@[i]),
        sorted_by(names@, name_order()),
        names@.to_multiset() == ghost_names@.to_multiset().insert(x.1@),
{
    let ghost old_names = ghost_names@;
    let ghost xn = x.1@;
    let mut k: usize = 0;
    while k < sorted.len() && !name_less(&x, &sorted[k])
        invariant
            k <= sorted@.len() == old_names.len(),
            sorted@ == old(sorted)@,
            forall|i: int| 0 <= i < k ==> name_le(#[trigger] old_names[i], xn),
            forall|i: int| 0 <= i < sorted@.len() ==> (#[trigger] sorted@[i]).1@ == old_names[i]
                && sorted@[i].0 == numeric_prefix(old_names[i]),
            x.0 == numeric_prefix(xn),
            xn == x.1@,
        decreases sorted@.len() - k,
    {
        k = k + 1;
    }
    let ghost new_names = old_names.insert(k as int, xn);
    sorted.insert(k, x);
    proof {
        broadcast use vstd::seq_lib::group_to_multiset_ensures;
        let leq = name_order();
        assert(new_names.remove(k as int) =~= old_names);
        assert(new_names[k as int] == xn);
        assert(new_names.to_multiset() =~= old_names.to_multiset().insert(xn));
        lemma_name_le_total_ordering();
        assert forall|i: int, j: int| 0 <= i < j < new_names.len() implies #[trigger] leq(
            new_names[i],
            new_names[j],
        ) by {
            if j < k {
                assert(leq(old_names[i], old_names[j]));
            } else if j == k {
                assert(name_le(old_names[i], xn));
            } else if i == k {
                assert(name_lt(xn, old_names[k as int]));
                lemma_chars_lt_trichotomy(xn, old_names[k as int]);
                if j - 1 > k {
                    assert(leq(old_names[k as int], old_names[j - 1]));
                    assert(leq(xn, old_names[k as int]));
                }
            } else if i < k {
                assert(leq(old_names[i], old_names[j - 1]));
            } else {
                assert(leq(old_names[i - 1], old_names[j - 1]));
            }
        }
    }
    Ghost(new_names)
}

// ---------------------------------------------------------------------
// Directory listings and the layout

/// One entry of a directory listing.
#[derive(Debug, Clone)]
pub struct DirEntry {
    /// File name (the last path component).
    pub name: String,
    /// Whether the entry is a regular file (following symbolic links).
    pub is_file: bool,
}

/// What reading a content directory gave.
#[derive(Debug, Clone)]
pub enum DirListing {
    /// The path does not exist or is not a directory.
    NotADirectory,
    /// The directory exists but could not be read; the message says why.
    Unreadable(String),
    /// The entries of the directory, in the order the system listed them.
    Entries(Vec<DirEntry>),
}

/// What the project root holds, as far as discovery needs to know.
#[derive(Debug, Clone)]
pub struct RootListing {
    pub root_is_dir: bool,
    /// Whether `cover.jpg` at the root is a regular file.
    pub cover_is_file: bool,
    pub front_matter: DirListing,
    pub chapters: DirListing,
    pub back_matter: DirListing,
}

#[derive(Debug, Clone)]
pub struct ProjectLayout {
    pub root: String,
    /// Expected path of `book.toml`; it may or may not exist.
    pub book_toml: String,
    pub cover: Option<String>,
    pub front_matter: Vec<String>,
    pub chapters: Vec<String>,
    pub back_matter: Vec<String>,
}

#[derive(Debug, Clone)]
pub enum ProjectError {
    RootNotADirectory(String),
    ReadDir { dir: String, source: String },
}

/// `Path::join` of a relative name onto `root`, with `/` as separator.
pub open spec fn path_join(root: Seq<char>, name: Seq<char>) -> Seq<char> {
    if root.len() == 0 {
        name
    } else if root.last() == '/' {
        root + name
    } else {
        root + "/"@ + name
    }
}

pub fn join(root: &str, name: &str) -> (path: String)
    ensures
        path@ == path_join(root@, name@),
{
    let chars = chars_of(root);
    let mut path = String::from_str(root);
    if chars.len() > 0 && chars[chars.len() - 1] != '/' {
        path.append("/");
    }
    path.append(name);
    path
}

/// The names of the Markdown files among `entries`, in listing order.
pub open spec fn markdown_names(entries: Seq<DirEntry>) -> Seq<Seq<char>>
    decreases entries.len(),
{
    if entries.len() == 0 {
        seq![]
    } else {
        let e = entries.last();
        markdown_names(entries.drop_last()) + if e.is_file && is_markdown_name(e.name@) {
            seq![e.name@]
        } else {
            seq![]
        }
    }
}

/// The Markdown files of a listing, ordered by numeric prefix, then name.
pub open spec fn ordered_markdown(entries: Seq<DirEntry>) -> Seq<Seq<char>> {
    markdown_names(entries).sort_by(name_order())
}

proof fn lemma_markdown_names_are_markdown(entries: Seq<DirEntry>)
    ensures
        forall|i: int|
            0 <= i < markdown_names(entries).len() ==> is_markdown_name(#[trigger] markdown_names(entries)[i]),
    decreases entries.len(),
{
    if entries.len() > 0 {
        lemma_markdown_names_are_markdown(entries.drop_last());
        let pre = markdown_names(entries.drop_last());
        assert forall|i: int| 0 <= i < markdown_names(entries).len() implies is_markdown_name(
            #[trigger] markdown_names(entries)[i],
        ) by {
            if i < pre.len() {
                assert(markdown_names(entries)[i] == pre[i]);
            }
        }
    }
}

/// The content files of a listing are exactly its Markdown files (each
/// once), ordered by numeric prefix, files without one last, and by name
/// among equal prefixes: `2-x.md` comes before `10-y.md`.
pub proof fn content_files_are_ordered_markdown(entries: Seq<DirEntry>)
    ensures
        ordered_markdown(entries).to_multiset() == markdown_names(entries).to_multiset(),
        forall|i: int|
            0 <= i < ordered_markdown(entries).len() ==> is_markdown_name(
                #[trigger] ordered_markdown(entries)[i],
            ),
        forall|i: int, j: int|
            0 <= i < j < ordered_markdown(entries).len() ==> name_le(
                #[trigger] ordered_markdown(entries)[i],
                #[trigger] ordered_markdown(entries)[j],
            ) && numeric_prefix(ordered_markdown(entries)[i]) <= numeric_prefix(
                ordered_markdown(entries)[j],
            ),
{
    broadcast use vstd::seq_lib::group_to_multiset_ensures;
    lemma_name_le_total_ordering();
    let names = markdown_names(entries);
    let o = ordered_markdown(entries);
    names.lemma_sort_by_ensures(name_order());
    lemma_markdown_names_are_markdown(entries);
    assert forall|i: int| 0 <= i < o.len() implies is_markdown_name(#[trigger] o[i]) by {
        assert(o.to_multiset().count(o[i]) > 0);
        assert(names.contains(o[i]));
    }
    assert forall|i: int, j: int| 0 <= i < j < o.len() implies name_le(#[trigger] o[i], #[trigger] o[j])
        && numeric_prefix(o[i]) <= numeric_prefix(o[j]) by {
        assert(name_order()(o[i], o[j]));
    }
}

fn is_markdown(name: &Vec<char>) -> (b: bool)
    ensures
        b == is_markdown_name(name@),
{
    let n = name.len();
    n > 3 && name[n - 3] == '.' && name[n - 2] == 'm' && name[n - 1] == 'd'
}

/// The Markdown file names of `entries`, ordered by numeric prefix, then
/// name.
fn order_markdown(entries: &Vec<DirEntry>) -> (names: Vec<Vec<char>>)
    ensures
        names@.len() == ordered_markdown(entries@).len(),
        forall|i: int| 0 <= i < names@.len() ==> #[trigger] names@[i]@ == ordered_markdown(entries@)[i],
{
    let mut sorted: Vec<(u32, Vec<char>)> = Vec::new();
    let ghost mut names: Seq<Seq<char>> = seq![];
    let mut i: usize = 0;
    while i < entries.len()
        invariant
            i <= entries@.len(),
            names.len() == sorted@.len(),
            forall|j: int| 0 <= j < sorted@.len() ==> (#[trigger] sorted@[j]).1@ == names[j]
                && sorted@[j].0 == numeric_prefix(names[j]),
            sorted_by(names, name_order()),
            names.to_multiset() == markdown_names(entries@.take(i as int)).to_multiset(),
        decreases entries@.len() - i,
    {
        let e = &entries[i];
        let chars = chars_of(e.name.as_str());
        proof {
            let t = entries@.take(i + 1);
            assert(t.drop_last() =~= entries@.take(i as int));
            assert(t.last() == entries@[i as int]);
        }
        if e.is_file && is_markdown(&chars) {
            let ghost added = chars@;
            let key = sort_key(chars);
            let Ghost(new_names) = insert_sorted(&mut sorted, key, Ghost(names));
            proof {
                broadcast use vstd::seq_lib::group_to_multiset_ensures;
                let pre = markdown_names(entries@.take(i as int));
                assert(markdown_names(entries@.take(i + 1)) == pre + seq![added]);
                assert(pre + seq![added] =~= pre.push(added));
                names = new_names;
            }
        } else {
            proof {
                let pre = markdown_names(entries@.take(i as int));
                assert(markdown_names(entries@.take(i + 1)) =~= pre);
            }
        }
        i = i + 1;
    }
    proof {
        assert(entries@.take(entries@.len() as int) =~= entries@);
        lemma_name_le_total_ordering();
        markdown_names(entries@).lemma_sort_by_ensures(name_order());
        vstd::seq_lib::lemma_sorted_unique(names, ordered_markdown(entries@), name_order());
    }
    let mut out: Vec<Vec<char>> = Vec::new();
    let mut j: usize = 0;
    while j < sorted.len()
        invariant
            j <= sorted@.len() == names.len(),
            names == ordered_markdown(entries@),
            forall|k: int| 0 <= k < sorted@.len() ==> (#[trigger] sorted@[k]).1@ == names[k],
            out@.len() == j,
            forall|k: int| 0 <= k < j ==> #[trigger] out@[k]@ == names[k],
        decreases sorted@.len() - j,
    {
        out.push(sorted[j].1.clone());
        j = j + 1;
    }
    out
}

/// Whether `paths` are what a content directory at `dir` contributes:
/// nothing when it is not a directory; its Markdown files in order, each
/// joined onto `dir`, when it was listed.
pub open spec fn section_paths(paths: Seq<String>, dir: Seq<char>, listing: DirListing) -> bool {
    match listing {
        DirListing::NotADirectory => paths.len() == 0,
        DirListing::Unreadable(_) => false,
        DirListing::Entries(es) => {
            &&& paths.len() == ordered_markdown(es@).len()
            &&& forall|i: int|
                0 <= i < paths.len() ==> #[trigger] paths[i]@ == path_join(dir, ordered_markdown(es@)[i])
        },
    }
}

/// The error that reading a content directory gives, if any.
pub open spec fn read_error(dir: Seq<char>, listing: DirListing, e: ProjectError) -> bool {
    listing matches DirListing::Unreadable(msg) && e matches ProjectError::ReadDir { dir: d, source: m }
        && d@ == dir && m@ == msg@
}

fn list_markdown(dir: &String, listing: &DirListing) -> (r: Result<Vec<String>, ProjectError>)
    ensures
        match r {
            Ok(paths) => section_paths(paths@, dir@, *listing),
            Err(e) => read_error(dir@, *listing, e),
        },
{
    match listing {
        DirListing::NotADirectory => Ok(Vec::new()),
        DirListing::Unreadable(msg) => Err(ProjectError::ReadDir { dir: dir.clone(), source: msg.clone() }),
        DirListing::Entries(entries) => {
            let names = order_markdown(entries);
            let mut paths: Vec<String> = Vec::new();
            let mut i: usize = 0;
            while i < names.len()
                invariant
                    i <= names@.len() == ordered_markdown(entries@).len(),
                    forall|k: int| 0 <= k < names@.len() ==> #[trigger] names@[k]@ == ordered_markdown(entries@)[k],
                    paths@.len() == i,
                    forall|k: int| 0 <= k < i ==> #[trigger] paths@[k]@ == path_join(dir@, ordered_markdown(entries@)[k]),
                decreases names@.len() - i,
            {
                let name = string_of(&names[i], 0, names[i].len());
                assert(names@[i as int]@.subrange(0, names@[i as int]@.len() as int) =~= names@[i as int]@);
                paths.push(join(dir.as_str(), name.as_str()));
                i = i + 1;
            }
            Ok(paths)
        },
    }
}

/// The layout that a listing of `root` describes.
pub open spec fn layout_of(root: Seq<char>, listing: RootListing, layout: ProjectLayout) -> bool {
    &&& layout.root@ == root
    &&& layout.book_toml@ == path_join(root, "book.toml"@)
    &&& match layout.cover {
        Some(c) => listing.cover_is_file && c@ == path_join(root, "cover.jpg"@),
        None => !listing.cover_is_file,
    }
    &&& section_paths(layout.front_matter@, path_join(root, "front-matter"@), listing.front_matter)
    &&& section_paths(layout.chapters@, path_join(root, "chapters"@), listing.chapters)
    &&& section_paths(layout.back_matter@, path_join(root, "back-matter"@), listing.back_matter)
}

/// What discovering the project at `root` gives: an error when the root
/// is not a directory or a content directory cannot be read (the first
/// of front matter, chapters, back matter that cannot), else the layout.
pub open spec fn discovered(root: Seq<char>, listing: RootListing, r: Result<ProjectLayout, ProjectError>) -> bool {
    if !listing.root_is_dir {
        r matches Err(ProjectError::RootNotADirectory(p)) && p@ == root
    } else if listing.front_matter is Unreadable {
        r matches Err(e) && read_error(path_join(root, "front-matter"@), listing.front_matter, e)
    } else if listing.chapters is Unreadable {
        r matches Err(e) && read_error(path_join(root, "chapters"@), listing.chapters, e)
    } else if listing.back_matter is Unreadable {
        r matches Err(e) && read_error(path_join(root, "back-matter"@), listing.back_matter, e)
    } else {
        r matches Ok(layout) && layout_of(root, listing, layout)
    }
}

impl ProjectLayout {
    /// The layout of the project at `root`, given what the root holds.
    ///
    /// Fails when the root is not a directory, and when a content
    /// directory exists but cannot be read (sections are read in the
    /// order front matter, chapters, back matter; the first failure is
    /// reported).
    pub fn discover(root: &str, listing: &RootListing) -> (r: Result<ProjectLayout, ProjectError>)
        ensures
            discovered(root@, *listing, r),
    {
        if !listing.root_is_dir {
            return Err(ProjectError::RootNotADirectory(String::from_str(root)));
        }
        let book_toml = join(root, "book.toml");
        let cover = if listing.cover_is_file {
            Some(join(root, "cover.jpg"))
        } else {
            None
        };
        let front_dir = join(root, "front-matter");
        let front_matter = list_markdown(&front_dir, &listing.front_matter)?;
        let chapters_dir = join(root, "chapters");
        let chapters = list_markdown(&chapters_dir, &listing.chapters)?;
        let back_dir = join(root, "back-matter");
        let back_matter = list_markdown(&back_dir, &listing.back_matter)?;
        Ok(ProjectLayout {
            root: String::from_str(root),
            book_toml,
            cover,
            front_matter,
            chapters,
            back_matter,
        })
    }
}

/// The text of a project error, as it is reported to the user.
pub open spec fn project_error_text(e: ProjectError) -> Seq<char> {
    match e {
        ProjectError::RootNotADirectory(p) => "project root not found or not a directory: "@ + p@,
        ProjectError::ReadDir { dir, source } => "could not read "@ + dir@ + ": "@ + source@,
    }
}

impl ProjectError {
    pub fn message(&self) -> (s: String)
        ensures
            s@ == project_error_text(*self),
    {
        match self {
            ProjectError::RootNotADirectory(p) => {
                let mut s = String::from_str("project root not found or not a directory: ");
                s.append(p.as_str());
                s
            },
            ProjectError::ReadDir { dir, source } => {
                let mut s = String::from_str("could not read ");
                s.append(dir.as_str());
                s.append(": ");
                s.append(source.as_str());
                s
            },
        }
    }
}

} // verus!
