use gaslite::solidity::{code_chars, identifier_char, opens};

fn code(source: &str) -> String {
    code_chars(source).iter().collect()
}

#[test]
fn comments_and_strings_are_blank() {
    assert_eq!(code("a // b\nc"), "a     \nc");
    assert_eq!(code("a /* b\nc */ d"), "a     \n     d");
    assert_eq!(code("x = \"// no\"; y"), "x =        ; y");
    assert_eq!(code("x = 'a\\'b'; y"), "x =       ; y");
    assert_eq!(code("/*/ a */ b"), "         b");
    assert_eq!(code("a / b * c"), "a / b * c");
    assert_eq!(code(""), "");
}

#[test]
fn text_without_quotes_and_slashes_is_code() {
    let source = "contract C {\r\n\tuint caf\u{e9} = 1 * 2;\n}";
    assert_eq!(code(source), source);
}

#[test]
fn an_open_string_ends_with_its_line() {
    assert_eq!(code("\"open\ncode"), "     \ncode");
    assert_eq!(code("'open\\\ncode"), "      \ncode");
}

#[test]
fn a_parenthesis_may_follow_white_space() {
    let v: Vec<char> = "f \t\n( g".chars().collect();
    assert!(opens(&v, 1));
    assert!(opens(&v, 4));
    assert!(!opens(&v, 0));
    assert!(!opens(&v, 5));
    assert!(!opens(&v, v.len()));
}

#[test]
fn identifiers_are_made_of_ascii_words() {
    for c in ['a', 'Z', '0', '_'] {
        assert!(identifier_char(c));
    }
    for c in [' ', '(', '-', '\u{e9}'] {
        assert!(!identifier_char(c));
    }
}
