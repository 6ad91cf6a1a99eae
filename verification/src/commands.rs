//! Helpers shared by the command-line commands.
use vstd::prelude::*;

use crate::text::{
    ascii_alphanumeric, ascii_lowercase, chars_of, is_ascii_alphanumeric, string_of,
    to_ascii_lowercase,
};

verus! {

broadcast use vstd::string::group_string_axioms;

/// One step of slugging: an ASCII letter or digit is kept (lower-cased);
/// any other character becomes a dash unless one was just written (or
/// nothing has been written yet).
pub open spec fn slug_step(st: (Seq<char>, bool), c: char) -> (Seq<char>, bool) {
    if is_ascii_alphanumeric(c) {
        (st.0.push(ascii_lowercase(c)), false)
    } else if !st.1 {
        (st.0.push('-'), true)
    } else {
        st
    }
}

/// The slug characters of `s` and whether the last one written was a
/// dash (true at the start, so no slug begins with a dash).
pub open spec fn slug_scan(s: Seq<char>) -> (Seq<char>, bool)
    decreases s.len(),
{
    if s.len() == 0 {
        (seq![], true)
    } else {
        slug_step(slug_scan(s.drop_last()), s.last())
    }
}

/// `s` without trailing dashes.
pub open spec fn trim_end_dashes(s: Seq<char>) -> Seq<char>
    decreases s.len(),
{
    if s.len() > 0 && s.last() == '-' {
        trim_end_dashes(s.drop_last())
    } else {
        s
    }
}

/// The file-system-safe slug of a title: lower-case ASCII letters and
/// digits, runs of anything else collapsed to one dash, no dash at
/// either end; `book` when nothing is left.
pub open spec fn slug_text(title: Seq<char>) -> Seq<char> {
    let t = trim_end_dashes(slug_scan(title).0);
    if t.len() == 0 {
        "book"@
    } else {
        t
    }
}

/// Derive a file-system-safe slug from a book title.
pub fn slug(s: &str) -> (out: String)
    ensures
        out@ == slug_text(s@),
{
    let chars = chars_of(s);
    let mut out: Vec<char> = Vec::new();
    let mut last_dash = true;
    let mut i: usize = 0;
    while i < chars.len()
        invariant
            i <= chars@.len(),
            chars@ == s@,
            slug_scan(chars@.take(i as int)) == (out@, last_dash),
        decreases chars@.len() - i,
    {
        let c = chars[i];
        if ascii_alphanumeric(c) {
            out.push(to_ascii_lowercase(c));
            last_dash = false;
        } else if !last_dash {
            out.push('-');
            last_dash = true;
        }
        proof {
            let t = chars@.take(i + 1);
            assert(t.drop_last() =~= chars@.take(i as int));
            assert(t.last() == c);
        }
        i = i + 1;
    }
    assert(chars@.take(chars@.len() as int) =~= chars@);
    let mut end = out.len();
    assert(out@.take(end as int) =~= out@);
    while end > 0 && out[end - 1] == '-'
        invariant
            end <= out@.len(),
            trim_end_dashes(out@) == trim_end_dashes(out@.take(end as int)),
        decreases end,
    {
        assert(out@.take(end as int).drop_last() =~= out@.take(end - 1));
        end = end - 1;
    }
    if end == 0 {
        String::from_str("book")
    } else {
        assert(out@.subrange(0, end as int) =~= out@.take(end as int));
        string_of(&out, 0, end)
    }
}

// ---------------------------------------------------------------------
// Laws

/// A character a slug may hold: a lower-case ASCII letter, an ASCII digit
/// or a dash.
pub open spec fn is_slug_char(c: char) -> bool {
    ('a' <= c && c <= 'z') || ('0' <= c && c <= '9') || c == '-'
}

/// The shape of every slug: not empty, only slug characters, no dash at
/// either end and never two dashes in a row.
pub open spec fn is_slug(t: Seq<char>) -> bool {
    &&& t.len() > 0
    &&& forall|i: int| 0 <= i < t.len() ==> is_slug_char(#[trigger] t[i])
    &&& t[0] != '-'
    &&& t.last() != '-'
    &&& forall|i: int| 0 <= i < t.len() - 1 ==> !(#[trigger] t[i] == '-' && t[i + 1] == '-')
}

proof fn lemma_slug_scan_shape(s: Seq<char>)
    ensures
        ({
            let (o, d) = slug_scan(s);
            &&& forall|i: int| 0 <= i < o.len() ==> is_slug_char(#[trigger] o[i])
            &&& o.len() == 0 ==> d
            &&& o.len() > 0 ==> (d <==> o.last() == '-')
            &&& o.len() > 0 ==> o[0] != '-'
            &&& forall|i: int| 0 <= i < o.len() - 1 ==> !(#[trigger] o[i] == '-' && o[i + 1] == '-')
        }),
    decreases s.len(),
{
    if s.len() > 0 {
        lemma_slug_scan_shape(s.drop_last());
        let (o, d) = slug_scan(s.drop_last());
        let c = s.last();
        if is_ascii_alphanumeric(c) {
            let l = ascii_lowercase(c);
            assert(is_slug_char(l));
            let o2 = o.push(l);
            assert forall|i: int| 0 <= i < o2.len() implies is_slug_char(#[trigger] o2[i]) by {
                if i < o.len() {
                    assert(o2[i] == o[i]);
                }
            }
            assert forall|i: int| 0 <= i < o2.len() - 1 implies !(#[trigger] o2[i] == '-' && o2[i + 1]
                == '-') by {
                if i < o.len() - 1 {
                    assert(o2[i] == o[i] && o2[i + 1] == o[i + 1]);
                }
            }
        } else if !d {
            let o2 = o.push('-');
            assert forall|i: int| 0 <= i < o2.len() implies is_slug_char(#[trigger] o2[i]) by {
                if i < o.len() {
                    assert(o2[i] == o[i]);
                }
            }
            assert forall|i: int| 0 <= i < o2.len() - 1 implies !(#[trigger] o2[i] == '-' && o2[i + 1]
                == '-') by {
                if i < o.len() - 1 {
                    assert(o2[i] == o[i] && o2[i + 1] == o[i + 1]);
                }
            }
        }
    }
}

proof fn lemma_trim_end_dashes(s: Seq<char>)
    ensures
        trim_end_dashes(s).len() <= s.len(),
        trim_end_dashes(s) == s.take(trim_end_dashes(s).len() as int),
        trim_end_dashes(s).len() > 0 ==> trim_end_dashes(s).last() != '-',
    decreases s.len(),
{
    if s.len() > 0 && s.last() == '-' {
        lemma_trim_end_dashes(s.drop_last());
        let t = trim_end_dashes(s.drop_last());
        assert(s.drop_last().take(t.len() as int) =~= s.take(t.len() as int));
    } else {
        assert(s.take(s.len() as int) =~= s);
    }
}

/// Every slug is file-system safe: lower-case ASCII letters, digits and
/// single dashes, starting and ending with a letter or digit.
pub proof fn slug_is_file_system_safe(title: Seq<char>)
    ensures
        is_slug(slug_text(title)),
{
    reveal_strlit("book");
    lemma_slug_scan_shape(title);
    let o = slug_scan(title).0;
    lemma_trim_end_dashes(o);
    let t = trim_end_dashes(o);
    if t.len() > 0 {
        assert forall|i: int| 0 <= i < t.len() implies is_slug_char(#[trigger] t[i]) by {
            assert(t[i] == o[i]);
        }
        assert forall|i: int| 0 <= i < t.len() - 1 implies !(#[trigger] t[i] == '-' && t[i + 1] == '-') by {
            assert(t[i] == o[i] && t[i + 1] == o[i + 1]);
        }
        assert(t[0] == o[0]);
    } else {
        let b = "book"@;
        assert forall|i: int| 0 <= i < b.len() implies is_slug_char(#[trigger] b[i]) by {}
    }
}

proof fn lemma_slug_scan_of_slug_chars(t: Seq<char>)
    requires
        forall|i: int| 0 <= i < t.len() ==> is_slug_char(#[trigger] t[i]),
        t.len() > 0 ==> t[0] != '-',
        forall|i: int| 0 <= i < t.len() - 1 ==> !(#[trigger] t[i] == '-' && t[i + 1] == '-'),
    ensures
        slug_scan(t) == (t, t.len() == 0 || t.last() == '-'),
    decreases t.len(),
{
    if t.len() > 0 {
        let p = t.drop_last();
        assert forall|i: int| 0 <= i < p.len() implies is_slug_char(#[trigger] p[i]) by {
            assert(p[i] == t[i]);
        }
        assert forall|i: int| 0 <= i < p.len() - 1 implies !(#[trigger] p[i] == '-' && p[i + 1] == '-') by {
            assert(p[i] == t[i] && p[i + 1] == t[i + 1]);
        }
        if p.len() > 0 {
            assert(p[0] == t[0]);
        }
        lemma_slug_scan_of_slug_chars(p);
        let c = t.last();
        assert(is_slug_char(c));
        if c == '-' {
            assert(p.len() > 0);
            assert(!(t[p.len() - 1] == '-' && t[p.len() as int] == '-'));
            assert(p.last() == t[p.len() - 1]);
        }
        assert(p.push(c) =~= t);
    }
}

/// Slugging a slug changes nothing.
pub proof fn slug_is_idempotent(title: Seq<char>)
    ensures
        slug_text(slug_text(title)) == slug_text(title),
{
    slug_is_file_system_safe(title);
    let t = slug_text(title);
    lemma_slug_scan_of_slug_chars(t);
    assert(trim_end_dashes(t) == t);
}

} // verus!
