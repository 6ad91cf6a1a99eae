use papyrust::epub::escape::{attribute, text};

#[test]
fn text_escapes_lt_gt_amp() {
    assert_eq!(text("a < b & c > d"), "a &lt; b &amp; c &gt; d");
}

#[test]
fn text_leaves_quotes_alone() {
    assert_eq!(text(r#"she said "hi" 'world'"#), r#"she said "hi" 'world'"#);
}

#[test]
fn attribute_escapes_double_quotes() {
    assert_eq!(attribute(r#"he said "yes""#), "he said &quot;yes&quot;");
}

#[test]
fn round_trip_safe_unicode() {
    assert_eq!(text("café — résumé"), "café — résumé");
}

#[test]
fn attribute_escapes_every_special_character() {
    assert_eq!(attribute("<a href=\"x\">&</a>"), "&lt;a href=&quot;x&quot;&gt;&amp;&lt;/a&gt;");
}

#[test]
fn escaped_text_never_holds_angle_brackets() {
    let out = text("<<>>&<script>");
    assert!(!out.contains('<'));
    assert!(!out.contains('>'));
    assert_eq!(out, "&lt;&lt;&gt;&gt;&amp;&lt;script&gt;");
}

#[test]
fn escaping_empty_text_gives_empty_text() {
    assert_eq!(text(""), "");
    assert_eq!(attribute(""), "");
}

fn xml_value(t: &str) -> String {
    t.replace("&lt;", "<").replace("&gt;", ">").replace("&quot;", "\"").replace("&amp;", "&")
}

#[test]
fn escaped_text_reads_back() {
    for s in ["&lt; is not <", "&amp;amp;", "\"q\" & 'a'", "plain", ""] {
        assert_eq!(xml_value(&text(s)), s);
        assert_eq!(xml_value(&attribute(s)), s);
    }
}

#[test]
fn attribute_is_text_with_double_quotes_escaped() {
    for s in ["say \"hi\" & 'bye'", "<\">", "plain"] {
        assert_eq!(attribute(s), text(s).replace('"', "&quot;"));
    }
}

#[test]
fn every_ampersand_in_escaped_text_begins_an_entity() {
    let out = text("a & b && c &amp;");
    for (i, _) in out.match_indices('&') {
        let rest = &out[i..];
        assert!(rest.starts_with("&amp;") || rest.starts_with("&lt;") || rest.starts_with("&gt;"));
    }
}

#[test]
fn escaped_text_reads_back_with_three_entities() {
    let unescape = |t: &str| t.replace("&lt;", "<").replace("&gt;", ">").replace("&amp;", "&");
    for s in ["a < b & c > d", "\"quoted\" &quot;", "&amp;lt;", "café — résumé"] {
        assert_eq!(unescape(&text(s)), s);
    }
}
