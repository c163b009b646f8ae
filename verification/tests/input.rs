use wordle::input::{is_whitespace, normalize, trim};

#[test]
fn white_space_is_what_unicode_says() {
    for code in 0..=0x10FFFFu32 {
        if let Some(c) = char::from_u32(code) {
            assert_eq!(is_whitespace(c), c.is_whitespace());
        }
    }
}

#[test]
fn trim_cuts_both_ends() {
    assert_eq!(trim("  array \r\n"), "array");
    assert_eq!(trim("array"), "array");
    assert_eq!(trim("\tar ray\u{3000}"), "ar ray");
    assert_eq!(trim("x"), "x");
    assert_eq!(trim(" x"), "x");
    assert_eq!(trim("x "), "x");
}

#[test]
fn trim_of_white_space_is_empty() {
    assert_eq!(trim(""), "");
    assert_eq!(trim(" "), "");
    assert_eq!(trim(" \n\t\u{a0}\u{2028}"), "");
}

#[test]
fn trim_agrees_with_the_standard_library() {
    for text in [
        "",
        " ",
        "a",
        " a",
        "a ",
        "  a  b  ",
        "\n\nhello\n",
        "\u{85}é\u{1680}",
        "\u{200b}zero width\u{200b}",
        "  \u{feff}bom ",
        "é  ",
        "  日本語\u{3000}",
    ] {
        assert_eq!(trim(text), text.trim());
    }
}

#[test]
fn normalize_trims_and_puts_in_upper_case() {
    assert_eq!(normalize("  array\n"), "ARRAY");
    assert_eq!(normalize("Furry"), "FURRY");
    assert_eq!(normalize("n\n"), "N");
    assert_eq!(normalize(" straße "), "STRASSE");
    assert_eq!(normalize("\n"), "");
}
