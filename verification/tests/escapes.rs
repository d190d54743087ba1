use kozue::dot::{html_escape, quote, record_escape};

#[test]
fn record_escape_escapes_structural_chars() {
    assert_eq!(
        record_escape("a{b}c|d<e>f"),
        "a\\{b\\}c\\|d\\<e\\>f"
    );
}

#[test]
fn quoting_escapes_specials() {
    assert_eq!(quote(r#"a"b\c"#), r#""a\"b\\c""#);
}

#[test]
fn quoting_and_markup_keep_the_rest() {
    assert_eq!(quote("入力\nx"), "\"入力\\nx\"");
    assert_eq!(html_escape("<a & \"b\">"), "&lt;a &amp; &quot;b&quot;&gt;");
}

#[test]
fn xml_escape_passthrough() {
    assert_eq!(kozue::drawio::xml_escape("hello"), "hello");
}

#[test]
fn xml_escape_special_chars() {
    assert_eq!(
        kozue::drawio::xml_escape("<b>bold & \"quotes\"</b>"),
        "&lt;b&gt;bold &amp; &quot;quotes&quot;&lt;/b&gt;"
    );
}

#[test]
fn xml_escape_japanese_passthrough() {
    // Non-ASCII text passes through unchanged (UTF-8 output).
    assert_eq!(kozue::drawio::xml_escape("入力"), "入力");
    assert_eq!(kozue::drawio::xml_escape("変換"), "変換");
}

#[test]
fn lib_xml_escape_passthrough() {
    assert_eq!(kozue::pptx::xml_escape("hello"), "hello");
}

#[test]
fn lib_xml_escape_special_chars() {
    assert_eq!(
        kozue::pptx::xml_escape("<b>bold & \"quotes\" 'ap'</b>"),
        "&lt;b&gt;bold &amp; &quot;quotes&quot; &apos;ap&apos;&lt;/b&gt;"
    );
}

#[test]
fn lib_xml_escape_japanese_passthrough() {
    assert_eq!(kozue::pptx::xml_escape("入力"), "入力");
}
