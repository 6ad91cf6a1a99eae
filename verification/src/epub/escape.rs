//! XML escaping for XHTML output.
//!
//! EPUB content documents are strict, well-formed XML. User text that
//! flows into element content or attribute values is escaped so that it
//! can never produce broken (or unsafe) markup.
use vstd::prelude::*;

use crate::text::push_char;

verus! {

broadcast use vstd::string::group_string_axioms;

/// The escape of one character in element content.
pub open spec fn text_escape_char(c: char) -> Seq<char> {
    if c == '<' {
        "&lt;"@
    } else if c == '>' {
        "&gt;"@
    } else if c == '&' {
        "&amp;"@
    } else {
        seq![c]
    }
}

/// The escape of one character inside a double-quoted attribute value.
pub open spec fn attribute_escape_char(c: char) -> Seq<char> {
    if c == '"' {
        "&quot;"@
    } else {
        text_escape_char(c)
    }
}

/// `s` escaped for element content: `<`, `>` and `&` become entities.
pub open spec fn escape_text(s: Seq<char>) -> Seq<char>
    decreases s.len(),
{
    if s.len() == 0 {
        seq![]
    } else {
        escape_text(s.drop_last()) + text_escape_char(s.last())
    }
}

/// `s` escaped for a double-quoted attribute value: as for element
/// content, and `"` becomes `&quot;` too.
pub open spec fn escape_attribute(s: Seq<char>) -> Seq<char>
    decreases s.len(),
{
    if s.len() == 0 {
        seq![]
    } else {
        escape_attribute(s.drop_last()) + attribute_escape_char(s.last())
    }
}

/// Escape characters that have a special meaning in XML element content.
pub fn text(s: &str) -> (out: String)
    ensures
        out@ == escape_text(s@),
{
    let mut out = String::new();
    for c in it: s.chars()
        invariant
            it.seq() == s@,
            out@ == escape_text(s@.take(it.index() as int)),
    {
        let ghost before = out@;
        if c == '<' {
            out.append("&lt;");
        } else if c == '>' {
            out.append("&gt;");
        } else if c == '&' {
            out.append("&amp;");
        } else {
            push_char(&mut out, c);
            assert(out@ =~= before + seq![c]);
        }
        assert(s@.take(it.index() + 1).drop_last() =~= s@.take(it.index() as int));
    }
    assert(s@.take(s@.len() as int) =~= s@);
    out
}

/// Escape characters for use inside a double-quoted attribute value.
pub fn attribute(s: &str) -> (out: String)
    ensures
        out@ == escape_attribute(s@),
{
    let mut out = String::new();
    for c in it: s.chars()
        invariant
            it.seq() == s@,
            out@ == escape_attribute(s@.take(it.index() as int)),
    {
        let ghost before = out@;
        if c == '<' {
            out.append("&lt;");
        } else if c == '>' {
            out.append("&gt;");
        } else if c == '&' {
            out.append("&amp;");
        } else if c == '"' {
            out.append("&quot;");
        } else {
            push_char(&mut out, c);
            assert(out@ =~= before + seq![c]);
        }
        assert(s@.take(it.index() + 1).drop_last() =~= s@.take(it.index() as int));
    }
    assert(s@.take(s@.len() as int) =~= s@);
    out
}

// ---------------------------------------------------------------------
// Laws

/// Escaped element content holds no `<` or `>`: user text cannot open or
/// close a tag.
pub proof fn escaped_text_has_no_angle_brackets(s: Seq<char>)
    ensures
        forall|i: int|
            0 <= i < escape_text(s).len() ==> #[trigger] escape_text(s)[i] != '<' && escape_text(s)[i]
                != '>',
    decreases s.len(),
{
    reveal_strlit("&lt;");
    reveal_strlit("&gt;");
    reveal_strlit("&amp;");
    if s.len() > 0 {
        escaped_text_has_no_angle_brackets(s.drop_last());
        let pre = escape_text(s.drop_last());
        let e = text_escape_char(s.last());
        assert forall|i: int| 0 <= i < escape_text(s).len() implies #[trigger] escape_text(s)[i] != '<'
            && escape_text(s)[i] != '>' by {
            if i >= pre.len() {
                assert(escape_text(s)[i] == e[i - pre.len()]);
            } else {
                assert(escape_text(s)[i] == pre[i]);
            }
        }
    }
}

/// An escaped attribute value holds no `<`, `>` or `"`: it cannot end the
/// attribute or open a tag.
pub proof fn escaped_attribute_has_no_quote_or_angle_brackets(s: Seq<char>)
    ensures
        forall|i: int|
            0 <= i < escape_attribute(s).len() ==> {
                let c = #[trigger] escape_attribute(s)[i];
                c != '<' && c != '>' && c != '"'
            },
    decreases s.len(),
{
    reveal_strlit("&lt;");
    reveal_strlit("&gt;");
    reveal_strlit("&amp;");
    reveal_strlit("&quot;");
    if s.len() > 0 {
        escaped_attribute_has_no_quote_or_angle_brackets(s.drop_last());
        let pre = escape_attribute(s.drop_last());
        let e = attribute_escape_char(s.last());
        assert forall|i: int| 0 <= i < escape_attribute(s).len() implies {
            let c = #[trigger] escape_attribute(s)[i];
            c != '<' && c != '>' && c != '"'
        } by {
            if i >= pre.len() {
                assert(escape_attribute(s)[i] == e[i - pre.len()]);
            } else {
                assert(escape_attribute(s)[i] == pre[i]);
            }
        }
    }
}

/// Text without `<`, `>` or `&` (quotes and any other Unicode included)
/// is left as it is.
pub proof fn escape_text_keeps_plain_text(s: Seq<char>)
    requires
        forall|i: int| 0 <= i < s.len() ==> #[trigger] s[i] != '<' && s[i] != '>' && s[i] != '&',
    ensures
        escape_text(s) == s,
    decreases s.len(),
{
    if s.len() > 0 {
        escape_text_keeps_plain_text(s.drop_last());
        assert(s.drop_last().push(s.last()) =~= s);
    }
}

/// An attribute value without `<`, `>`, `&` or `"` is left as it is.
pub proof fn escape_attribute_keeps_plain_text(s: Seq<char>)
    requires
        forall|i: int|
            0 <= i < s.len() ==> #[trigger] s[i] != '<' && s[i] != '>' && s[i] != '&' && s[i] != '"',
    ensures
        escape_attribute(s) == s,
    decreases s.len(),
{
    if s.len() > 0 {
        escape_attribute_keeps_plain_text(s.drop_last());
        assert(s.drop_last().push(s.last()) =~= s);
    }
}

/// Whether `t` starts with `&`, then `name`, then `;`.
pub open spec fn starts_with_entity(t: Seq<char>, name: Seq<char>) -> bool {
    &&& t.len() >= name.len() + 2
    &&& t[0] == '&'
    &&& forall|i: int| 0 <= i < name.len() ==> #[trigger] t[i + 1] == name[i]
    &&& t[name.len() as int + 1] == ';'
}

/// The text that XML character data stands for, as far as the entities
/// this module writes go: each `&lt;`, `&gt;` and `&amp;` read as the
/// character it names, and `&quot;` too when `quot` holds.
pub open spec fn xml_text_value(t: Seq<char>, quot: bool) -> Seq<char>
    decreases t.len(),
{
    if t.len() == 0 {
        seq![]
    } else if starts_with_entity(t, seq!['l', 't']) {
        seq!['<'] + xml_text_value(t.skip(4), quot)
    } else if starts_with_entity(t, seq!['g', 't']) {
        seq!['>'] + xml_text_value(t.skip(4), quot)
    } else if starts_with_entity(t, seq!['a', 'm', 'p']) {
        seq!['&'] + xml_text_value(t.skip(5), quot)
    } else if quot && starts_with_entity(t, seq!['q', 'u', 'o', 't']) {
        seq!['"'] + xml_text_value(t.skip(6), quot)
    } else {
        seq![t[0]] + xml_text_value(t.skip(1), quot)
    }
}

proof fn lemma_escape_piece_value(e: Seq<char>, c: char, b: Seq<char>, quot: bool)
    requires
        (quot && e == attribute_escape_char(c)) || e == text_escape_char(c),
    ensures
        xml_text_value(e + b, quot) == seq![c] + xml_text_value(b, quot),
{
    reveal_strlit("&lt;");
    reveal_strlit("&gt;");
    reveal_strlit("&amp;");
    reveal_strlit("&quot;");
    let t = e + b;
    if c == '<' || c == '>' {
        assert(t[0] == e[0] && t[1] == e[1] && t[2] == e[2] && t[3] == e[3]);
        assert(t.skip(4) =~= b);
    } else if c == '&' {
        assert(t[0] == e[0] && t[1] == e[1] && t[2] == e[2] && t[3] == e[3] && t[4] == e[4]);
        assert(t.skip(5) =~= b);
        assert(!starts_with_entity(t, seq!['l', 't']) && !starts_with_entity(t, seq!['g', 't'])) by {
            assert(seq!['l', 't'][0] == 'l' && seq!['g', 't'][0] == 'g');
        }
    } else if c == '"' && e == attribute_escape_char(c) {
        assert(t[0] == e[0] && t[1] == e[1] && t[2] == e[2] && t[3] == e[3] && t[4] == e[4] && t[5]
            == e[5]);
        assert(t.skip(6) =~= b);
        assert(!starts_with_entity(t, seq!['l', 't']) && !starts_with_entity(t, seq!['g', 't'])
            && !starts_with_entity(t, seq!['a', 'm', 'p'])) by {
            assert(seq!['l', 't'][0] == 'l' && seq!['g', 't'][0] == 'g' && seq!['a', 'm', 'p'][0] == 'a');
        }
    } else {
        assert(e == seq![c]);
        assert(t[0] == c);
        assert(t.skip(1) =~= b);
    }
}

proof fn lemma_escape_text_value(s: Seq<char>, b: Seq<char>, quot: bool)
    ensures
        xml_text_value(escape_text(s) + b, quot) == s + xml_text_value(b, quot),
    decreases s.len(),
{
    if s.len() > 0 {
        let c = s.last();
        let e = text_escape_char(c);
        lemma_escape_piece_value(e, c, b, quot);
        lemma_escape_text_value(s.drop_last(), e + b, quot);
        assert(escape_text(s) + b =~= escape_text(s.drop_last()) + (e + b));
        assert(s.drop_last() + (seq![c] + xml_text_value(b, quot)) =~= s + xml_text_value(b, quot));
    } else {
        assert(escape_text(s) + b =~= b);
        assert(s + xml_text_value(b, quot) =~= xml_text_value(b, quot));
    }
}

proof fn lemma_escape_attribute_value(s: Seq<char>, b: Seq<char>)
    ensures
        xml_text_value(escape_attribute(s) + b, true) == s + xml_text_value(b, true),
    decreases s.len(),
{
    if s.len() > 0 {
        let c = s.last();
        let e = attribute_escape_char(c);
        lemma_escape_piece_value(e, c, b, true);
        lemma_escape_attribute_value(s.drop_last(), e + b);
        assert(escape_attribute(s) + b =~= escape_attribute(s.drop_last()) + (e + b));
        assert(s.drop_last() + (seq![c] + xml_text_value(b, true)) =~= s + xml_text_value(b, true));
    } else {
        assert(escape_attribute(s) + b =~= b);
        assert(s + xml_text_value(b, true) =~= xml_text_value(b, true));
    }
}

/// Escaping loses nothing: escaped element content read back with the
/// three entities `&lt;`, `&gt;` and `&amp;` (or with `&quot;` as well, as
/// an XML reader does) gives exactly the text that was escaped, and so
/// does an escaped attribute value read back with all four.
pub proof fn escaping_reads_back(s: Seq<char>)
    ensures
        xml_text_value(escape_text(s), false) == s,
        xml_text_value(escape_text(s), true) == s,
        xml_text_value(escape_attribute(s), true) == s,
{
    lemma_escape_text_value(s, seq![], false);
    lemma_escape_text_value(s, seq![], true);
    lemma_escape_attribute_value(s, seq![]);
    assert(escape_text(s) + Seq::<char>::empty() =~= escape_text(s));
    assert(escape_attribute(s) + Seq::<char>::empty() =~= escape_attribute(s));
    assert(s + Seq::<char>::empty() =~= s);
}

/// Whether an entity that this module writes starts at position `i` of
/// `t`: `&lt;`, `&gt;` or `&amp;`, and `&quot;` too when `quot` holds.
pub open spec fn entity_at(t: Seq<char>, i: int, quot: bool) -> bool {
    let rest = t.skip(i);
    ||| starts_with_entity(rest, seq!['l', 't'])
    ||| starts_with_entity(rest, seq!['g', 't'])
    ||| starts_with_entity(rest, seq!['a', 'm', 'p'])
    ||| quot && starts_with_entity(rest, seq!['q', 'u', 'o', 't'])
}

proof fn lemma_entity_at_extend(a: Seq<char>, b: Seq<char>, i: int, quot: bool)
    requires
        0 <= i < a.len(),
        entity_at(a, i, quot),
    ensures
        entity_at(a + b, i, quot),
{
    let r = a.skip(i);
    let r2 = (a + b).skip(i);
    assert forall|j: int| 0 <= j < r.len() implies #[trigger] r2[j] == r[j] by {}
}

proof fn lemma_piece_entity(e: Seq<char>, quot: bool)
    requires
        e[0] == '&',
        e == "&lt;"@ || e == "&gt;"@ || e == "&amp;"@ || (quot && e == "&quot;"@),
    ensures
        entity_at(e, 0, quot),
{
    reveal_strlit("&lt;");
    reveal_strlit("&gt;");
    reveal_strlit("&amp;");
    reveal_strlit("&quot;");
    assert(e.skip(0) =~= e);
    if e == "&lt;"@ {
        assert(starts_with_entity(e, seq!['l', 't']));
    } else if e == "&gt;"@ {
        assert(starts_with_entity(e, seq!['g', 't']));
    } else if e == "&amp;"@ {
        assert(starts_with_entity(e, seq!['a', 'm', 'p']));
    } else {
        assert(starts_with_entity(e, seq!['q', 'u', 'o', 't']));
    }
}

/// Every `&` in escaped element content begins `&lt;`, `&gt;` or `&amp;`:
/// the output holds no stray ampersand.
pub proof fn escaped_text_ampersands_begin_entities(s: Seq<char>)
    ensures
        forall|i: int|
            0 <= i < escape_text(s).len() && #[trigger] escape_text(s)[i] == '&' ==> entity_at(
                escape_text(s),
                i,
                false,
            ),
    decreases s.len(),
{
    reveal_strlit("&lt;");
    reveal_strlit("&gt;");
    reveal_strlit("&amp;");
    if s.len() > 0 {
        escaped_text_ampersands_begin_entities(s.drop_last());
        let pre = escape_text(s.drop_last());
        let e = text_escape_char(s.last());
        let out = escape_text(s);
        assert(out == pre + e);
        assert forall|i: int| 0 <= i < out.len() && #[trigger] out[i] == '&' implies entity_at(
            out,
            i,
            false,
        ) by {
            if i < pre.len() {
                assert(pre[i] == out[i]);
                lemma_entity_at_extend(pre, e, i, false);
            } else {
                let j = i - pre.len();
                assert(e[j] == '&');
                if e == seq![s.last()] {
                    assert(s.last() == '&');
                    assert(false);
                }
                assert(j == 0);
                lemma_piece_entity(e, false);
                assert(out.skip(i) =~= e.skip(0));
            }
        }
    }
}

/// Every `&` in an escaped attribute value begins `&lt;`, `&gt;`,
/// `&amp;` or `&quot;`.
pub proof fn escaped_attribute_ampersands_begin_entities(s: Seq<char>)
    ensures
        forall|i: int|
            0 <= i < escape_attribute(s).len() && #[trigger] escape_attribute(s)[i] == '&' ==> entity_at(
                escape_attribute(s),
                i,
                true,
            ),
    decreases s.len(),
{
    reveal_strlit("&lt;");
    reveal_strlit("&gt;");
    reveal_strlit("&amp;");
    reveal_strlit("&quot;");
    if s.len() > 0 {
        escaped_attribute_ampersands_begin_entities(s.drop_last());
        let pre = escape_attribute(s.drop_last());
        let e = attribute_escape_char(s.last());
        let out = escape_attribute(s);
        assert(out == pre + e);
        assert forall|i: int| 0 <= i < out.len() && #[trigger] out[i] == '&' implies entity_at(
            out,
            i,
            true,
        ) by {
            if i < pre.len() {
                assert(pre[i] == out[i]);
                lemma_entity_at_extend(pre, e, i, true);
            } else {
                let j = i - pre.len();
                assert(e[j] == '&');
                if e == seq![s.last()] {
                    assert(s.last() == '&');
                    assert(false);
                }
                assert(j == 0);
                lemma_piece_entity(e, true);
                assert(out.skip(i) =~= e.skip(0));
            }
        }
    }
}

/// `t` with every `"` written as `&quot;`.
pub open spec fn quotes_as_entities(t: Seq<char>) -> Seq<char>
    decreases t.len(),
{
    if t.len() == 0 {
        seq![]
    } else {
        quotes_as_entities(t.drop_last()) + if t.last() == '"' {
            "&quot;"@
        } else {
            seq![t.last()]
        }
    }
}

proof fn lemma_quotes_concat(a: Seq<char>, b: Seq<char>)
    ensures
        quotes_as_entities(a + b) == quotes_as_entities(a) + quotes_as_entities(b),
    decreases b.len(),
{
    if b.len() == 0 {
        assert(a + b =~= a);
    } else {
        lemma_quotes_concat(a, b.drop_last());
        assert((a + b).drop_last() =~= a + b.drop_last());
    }
}

proof fn lemma_quotes_plain(t: Seq<char>)
    requires
        forall|i: int| 0 <= i < t.len() ==> #[trigger] t[i] != '"',
    ensures
        quotes_as_entities(t) == t,
    decreases t.len(),
{
    if t.len() > 0 {
        lemma_quotes_plain(t.drop_last());
        assert(t.drop_last().push(t.last()) =~= t);
    }
}

/// An escaped attribute value is the escaped element content with each
/// `"` written as `&quot;`; single quotes are kept, so the value is safe
/// only inside a double-quoted attribute.
pub proof fn attribute_is_text_with_quotes_escaped(s: Seq<char>)
    ensures
        escape_attribute(s) == quotes_as_entities(escape_text(s)),
    decreases s.len(),
{
    reveal_strlit("&lt;");
    reveal_strlit("&gt;");
    reveal_strlit("&amp;");
    reveal_strlit("&quot;");
    if s.len() > 0 {
        let c = s.last();
        attribute_is_text_with_quotes_escaped(s.drop_last());
        let e = text_escape_char(c);
        lemma_quotes_concat(escape_text(s.drop_last()), e);
        if c == '"' {
            assert(e == seq![c]);
            assert(e.drop_last() =~= Seq::<char>::empty());
            assert(e.last() == '"');
            assert(quotes_as_entities(Seq::<char>::empty()) == Seq::<char>::empty());
            assert(quotes_as_entities(e) == quotes_as_entities(e.drop_last()) + "&quot;"@);
            assert(quotes_as_entities(e) =~= "&quot;"@);
        } else {
            assert forall|i: int| 0 <= i < e.len() implies #[trigger] e[i] != '"' by {}
            lemma_quotes_plain(e);
        }
    }
}

} // verus!
