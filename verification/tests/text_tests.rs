use sshmon::text::trim_str;

#[test]
fn trim_strips_ascii_whitespace() {
    assert_eq!(trim_str(" \t 25 \r\n"), "25");
    assert_eq!(trim_str("42%"), "42%");
    assert_eq!(trim_str(""), "");
    assert_eq!(trim_str(" \n\t "), "");
}

#[test]
fn trim_strips_unicode_whitespace() {
    assert_eq!(trim_str("\u{a0}25\u{a0}\n"), "25");
    assert_eq!(trim_str("\u{85}\u{1680}ok\u{2028}\u{3000}"), "ok");
    assert_eq!(trim_str("\u{2000}\u{200a}\u{202f}\u{205f}x"), "x");
}

#[test]
fn trim_keeps_inner_whitespace() {
    assert_eq!(trim_str("  a b\tc  "), "a b\tc");
    assert_eq!(trim_str("\u{a0}a\u{a0}b\u{a0}"), "a\u{a0}b");
}
