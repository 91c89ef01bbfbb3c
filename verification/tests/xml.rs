use mivi::xml::{escape_xml_attr, escape_xml_content};

#[test]
fn test_xml_escaping() {
    assert_eq!(escape_xml_attr("<test & \" ' >"), "&lt;test &amp; &quot; &apos; &gt;");
    assert_eq!(escape_xml_content("<test & \" ' >"), "&lt;test &amp; \" ' &gt;");
}

#[test]
fn test_xml_control_char_filtering() {
    let dirty = "Hello\x00\x08\x1FWorld\n\t!";
    assert_eq!(escape_xml_content(dirty), "HelloWorld\n\t!");
}

#[test]
fn xml_escaped_text_has_no_markup_characters() {
    let out = escape_xml_attr("a<b>c&d\"e'f");
    assert!(!out.contains('<'));
    assert!(!out.contains('>'));
    assert!(!out.contains('"'));
    assert_eq!(out, "a&lt;b&gt;c&amp;d&quot;e&apos;f");
}

#[test]
fn xml_keeps_newlines_and_tabs_but_drops_other_controls() {
    assert_eq!(escape_xml_content("a\r\nb\tc\x7fd"), "a\r\nb\tcd");
}
