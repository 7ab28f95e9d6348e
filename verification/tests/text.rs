use gaslite::bytes;
use gaslite::number::{read_i64, read_u64, read_up_to, show_hex16, show_i64, show_u64, show_usize};
use gaslite::order::{comes_before, sort_unique};
use gaslite::split::{find_char, join, lines, remove_char, split, take_chars, words};
use gaslite::text;

const SAMPLES: [&str; 14] = [
    "",
    " ",
    "a",
    "  a b  ",
    "\u{3000}\u{a0}x\u{85}\u{2003}",
    "line\r\nnext\nlast\r",
    "\n\n\r\n",
    "a\rb\n",
    "contract C { }\n",
    "\t- Prose\u{b}\u{c}",
    "caf\u{e9} \u{1f525} end",
    "aaaa",
    "x::y::::z",
    "\u{200b}zero width\u{feff}",
];

#[test]
fn trimming_agrees_with_std() {
    for s in SAMPLES {
        assert_eq!(text::trim(s), s.trim());
        assert_eq!(text::trim_start(s), s.trim_start());
        assert_eq!(text::trim_end_of(s, 'a'), s.trim_end_matches('a'));
        assert_eq!(text::trim_suffixes(s, "aa"), s.trim_end_matches("aa"));
    }
}

#[test]
fn white_space_agrees_with_std() {
    for u in 0..0x11_0000u32 {
        if let Some(c) = char::from_u32(u) {
            assert_eq!(text::space(c), c.is_whitespace(), "{:x}", u);
        }
    }
}

#[test]
fn searching_agrees_with_std() {
    for s in SAMPLES {
        for p in ["", "a", "aa", "::", "\n", " ", "C { }", "\u{1f525}"] {
            assert_eq!(text::contains(s, p), s.contains(p));
            assert_eq!(text::starts_with(s, p), s.starts_with(p));
            assert_eq!(text::ends_with(s, p), s.ends_with(p));
            assert_eq!(text::strip_prefix(s, p).as_deref(), s.strip_prefix(p));
            assert_eq!(text::strip_suffix(s, p).as_deref(), s.strip_suffix(p));
            assert_eq!(text::same(s, p), s == p);
        }
    }
}

#[test]
fn ascii_case_agrees_with_std() {
    for a in ["Function Name", "function name", "f\u{e9}", "F\u{c9}", "", "x"] {
        for b in ["FUNCTION NAME", "F\u{e9}", "", "X", "function names"] {
            assert_eq!(
                text::same_ascii_case_insensitive(a, b),
                a.eq_ignore_ascii_case(b)
            );
        }
    }
}

#[test]
fn splitting_agrees_with_std() {
    for s in SAMPLES {
        assert_eq!(lines(s), s.lines().collect::<Vec<_>>());
        assert_eq!(words(s), s.split_whitespace().collect::<Vec<_>>());
        for p in ["a", "aa", ":", "::", "\n", " "] {
            assert_eq!(split(s, p), s.split(p).collect::<Vec<_>>());
        }
        let v = text::chars(s);
        assert_eq!(
            find_char(&v, ' ', 0),
            s.chars().position(|c| c == ' ')
        );
        assert_eq!(remove_char(s, 'a'), s.replace('a', ""));
        for n in [0usize, 1, 3, 100] {
            assert_eq!(take_chars(s, n), s.chars().take(n).collect::<String>());
        }
    }
}

#[test]
fn joining_agrees_with_std() {
    let parts: Vec<String> = vec!["a".into(), "".into(), "b c".into()];
    assert_eq!(join(&parts, ", "), parts.join(", "));
    assert_eq!(join(&vec![], ", "), "");
}

#[test]
fn numbers_agree_with_std() {
    for n in [0u64, 1, 9, 10, 99, 100, 12345, u64::MAX] {
        assert_eq!(show_u64(n), n.to_string());
        assert_eq!(show_hex16(n), format!("{:016x}", n));
    }
    for n in [0i64, -1, 7, -10, i64::MIN, i64::MAX] {
        assert_eq!(show_i64(n), n.to_string());
        assert_eq!(read_i64(&show_i64(n)), Some(n));
    }
    assert_eq!(show_usize(384), "384");
    for s in [
        "", "0", "007", "+5", "-5", "+", "-", "++1", "1 ", "12a", "18446744073709551615",
        "18446744073709551616", "99999999999999999999999999", "9223372036854775808",
        "-9223372036854775808", "-9223372036854775809", "\u{661}",
    ] {
        assert_eq!(read_u64(s), s.parse::<u64>().ok(), "{}", s);
        assert_eq!(read_i64(s), s.parse::<i64>().ok(), "{}", s);
        assert_eq!(
            read_up_to(s, u32::MAX as u64),
            s.parse::<u32>().ok().map(|n| n as u64),
            "{}",
            s
        );
    }
}

#[test]
fn sorting_agrees_with_std() {
    let list: Vec<String> = ["b", "a", "", "aa", "b", "\u{e9}", "z", "A", "aa"]
        .iter()
        .map(|s| s.to_string())
        .collect();
    let mut expected = list.clone();
    expected.sort();
    expected.dedup();
    assert_eq!(sort_unique(&list), expected);
    assert!(comes_before("a", "b") && !comes_before("b", "a") && !comes_before("a", "a"));
    assert_eq!(comes_before("\u{fffd}", "\u{10000}"), "\u{fffd}" < "\u{10000}");
}

#[test]
fn byte_offsets_agree_with_std() {
    let s = "a\u{e9}\u{20ac}\u{1f525}z";
    assert_eq!(bytes::byte_count(s), s.len());
    for i in 0..=s.len() + 2 {
        for j in 0..=s.len() + 2 {
            assert_eq!(bytes::slice(s, i, j).as_deref(), s.get(i..j), "{} {}", i, j);
            if s.get(i..j).is_some() {
                let mut expected = s.to_string();
                expected.replace_range(i..j, "<new>");
                assert_eq!(bytes::splice(s, i, j, "<new>"), expected);
            }
        }
    }
}

#[test]
fn letters_have_a_case() {
    // The tables are reached through the functions that consult them.
    assert_eq!(
        gaslite::forge::extract_sol_contract_name("contract Caf\u{e9}1_x{"),
        Some("Caf\u{e9}1_x".to_string())
    );
    assert_eq!(gaslite::forge::clean_for_forge("- \u{c9}cole\n- \u{e9}cole"), "- \u{e9}cole");
    assert_eq!(
        gaslite::forge::collect_forge_errors("\u{130} ERROR: x"),
        vec!["\u{130} ERROR: x"]
    );
}
