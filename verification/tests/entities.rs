use typograf_client::escape;
use typograf_client::unescape;

#[test]
fn escape_replaces_the_three_markup_characters() {
    assert_eq!(escape("&<>"), "&amp;&lt;&gt;");
    assert_eq!(escape("a & b < c > d"), "a &amp; b &lt; c &gt; d");
}

#[test]
fn escape_leaves_other_characters_alone() {
    assert_eq!(escape("plain text, ä ö ю"), "plain text, ä ö ю");
    assert_eq!(escape(""), "");
}

#[test]
fn unescape_restores_the_three_entities() {
    assert_eq!(unescape("&amp;&lt;&gt;"), "&<>");
    assert_eq!(unescape("Hello &amp; World"), "Hello & World");
}

#[test]
fn unescape_applies_the_three_substitutions_in_order() {
    // the `&amp;` pass runs first and can uncover an `&lt;` for the second
    assert_eq!(unescape("&amp;lt;"), "<");
}

#[test]
fn escape_then_unescape_round_trips() {
    let original = "x & y < z > w, plain text unchanged; ещё текст";
    assert_eq!(unescape(&escape(original)), original);
    assert_eq!(unescape(&escape("&&&<<<>>>")), "&&&<<<>>>");
}
