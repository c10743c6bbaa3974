use boop::chars::{
    is_all_numeric, is_ascii_text, is_digit_char, is_numeric_char, is_symbol_char,
    is_whitespace_char, is_word_char, lowercase_of, spells, to_lower,
};

fn chars(text: &str) -> Vec<char> {
    text.chars().collect()
}

#[test]
fn classes_agree_with_the_standard_library_everywhere() {
    let mut code: u32 = 0;
    while code <= 0x10ffff {
        if let Some(c) = char::from_u32(code) {
            assert_eq!(is_whitespace_char(c), c.is_whitespace(), "{:?}", c);
            assert_eq!(is_word_char(c), c.is_alphanumeric(), "{:?}", c);
            assert_eq!(is_numeric_char(c), c.is_numeric(), "{:?}", c);
            assert_eq!(is_digit_char(c), c.is_ascii_digit(), "{:?}", c);
            assert_eq!(to_lower(c), c.to_ascii_lowercase(), "{:?}", c);
        }
        code += 1;
    }
}

#[test]
fn the_eight_symbols() {
    for c in "(),+-*/^".chars() {
        assert!(is_symbol_char(c));
    }
    for c in "%.=!<>&|[]{};:'\"a0 \n".chars() {
        assert!(!is_symbol_char(c));
    }
}

#[test]
fn lower_case_of_ascii_and_beyond() {
    assert_eq!(lowercase_of(&chars("Hello World 42!")), chars("hello world 42!"));
    assert_eq!(lowercase_of(&chars("")), chars(""));
    assert_eq!(lowercase_of(&chars("ÉCOLE")), chars("école"));
    assert_eq!(lowercase_of(&chars("ΣΑΣ")), chars("σας"));
    assert_eq!(lowercase_of(&chars("\u{212a}")), chars("k"));
    for text in ["MiXeD", "straße", "İstanbul", "ǅ", "ΟΔΥΣΣΕΥΣ", "x\u{130}y", "ABC\u{7f}"] {
        assert_eq!(lowercase_of(&chars(text)), chars(&text.to_lowercase()), "{:?}", text);
    }
}

#[test]
fn numeric_and_ascii_texts() {
    assert!(is_all_numeric(&chars("")));
    assert!(is_all_numeric(&chars("0123456789")));
    assert!(is_all_numeric(&chars("12\u{663}½")));
    assert!(!is_all_numeric(&chars("12.5")));
    assert!(!is_all_numeric(&chars("1a")));
    assert!(is_ascii_text(&chars("plain text\u{7f}")));
    assert!(!is_ascii_text(&chars("pl\u{80}in")));
}

#[test]
fn spelling_is_exact() {
    assert!(spells(&chars("func"), "func"));
    assert!(!spells(&chars("Func"), "func"));
    assert!(!spells(&chars("fun"), "func"));
    assert!(!spells(&chars("funcs"), "func"));
    assert!(spells(&chars(""), ""));
}
