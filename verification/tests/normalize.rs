use gaslite::normalize::{
    canon_lexemes, is_builtin, lexical_key, structural, Lexeme, LexemeKind, PatternMatcher,
    MAX_STRUCT_MATCHES, MIN_TEMPLATE_TOKENS,
};

fn pair(a: &str, b: &str) -> (String, String) {
    (a.to_string(), b.to_string())
}

#[test]
fn the_key_ignores_comments_and_layout() {
    let a = "contract C { uint a; // count\n function f() public { a = 1; } }";
    let b = "/* header */\ncontract   C {\n  uint a;\n  function f()\n public { a = 1; }\n}\n";
    assert_eq!(lexical_key(a), lexical_key(b));
    assert_eq!(
        lexical_key(a),
        "contract C { uint256 a ; function f ( ) public { a = 1 ; } }"
    );
}

#[test]
fn the_key_keeps_names_and_literals() {
    assert_ne!(lexical_key("uint a = 1;"), lexical_key("uint b = 1;"));
    assert_ne!(lexical_key("uint a = 1;"), lexical_key("uint a = 2;"));
    assert_eq!(lexical_key("string s = \"a  b\";"), "string s = \"a  b\" ;");
    assert_eq!(lexical_key(""), "");
}

#[test]
fn the_structure_ignores_names_and_values() {
    let a = "balances[msg.sender] = balances[msg.sender] + 5;";
    let b = "stakes[msg.sender]   = stakes[msg.sender] + 0xff; // more";
    assert_eq!(structural(a), structural(b));
    assert_eq!(
        structural(a),
        "ID [ msg . sender ] = ID [ msg . sender ] + NUM ;"
    );
}

#[test]
fn the_structure_abstracts_every_literal() {
    assert_eq!(
        structural("x = 1.5; s = \"hi\"; h = hex\"ab\"; a = address\"x\";"),
        "ID = NUM ; ID = STR ; ID = HEX ; ID = ADDR ;"
    );
}

#[test]
fn builtins_are_anchors() {
    for id in ["msg", "keccak256", "sstore", "mulmod", "log4", "this", "offset"] {
        assert!(is_builtin(id), "{}", id);
    }
    for id in ["", "Msg", "balance0", "foo", "log5"] {
        assert!(!is_builtin(id), "{}", id);
    }
}

#[test]
fn tokens_are_canonized_one_by_one() {
    let toks = vec![
        Lexeme { kind: LexemeKind::Identifier, text: "total".to_string() },
        Lexeme { kind: LexemeKind::Identifier, text: "sload".to_string() },
        Lexeme { kind: LexemeKind::Number, text: "7".to_string() },
        Lexeme { kind: LexemeKind::StringLiteral, text: "\"x\"".to_string() },
        Lexeme { kind: LexemeKind::HexLiteral, text: "hex\"00\"".to_string() },
        Lexeme { kind: LexemeKind::AddressLiteral, text: "address\"a\"".to_string() },
        Lexeme { kind: LexemeKind::Other, text: "=>".to_string() },
    ];
    assert_eq!(
        canon_lexemes(&toks, true),
        vec!["ID", "sload", "NUM", "STR", "HEX", "ADDR", "=>"]
    );
    assert_eq!(
        canon_lexemes(&toks, false),
        vec!["total", "sload", "7", "\"x\"", "hex\"00\"", "address\"a\"", "=>"]
    );
}

#[test]
fn numbers_of_every_writing_are_alike() {
    assert_eq!(structural("x = 12;"), "ID = NUM ;");
    assert_eq!(structural("x = 1.5;"), structural("x = 0xff;"));
    assert_eq!(structural("x = 1e18;"), structural("x = 12;"));
    for kind in [LexemeKind::Number, LexemeKind::RationalNumber, LexemeKind::HexNumber] {
        let toks = vec![Lexeme { kind, text: "7".to_string() }];
        assert_eq!(canon_lexemes(&toks, true), vec!["NUM"]);
        assert_eq!(canon_lexemes(&toks, false), vec!["7"]);
    }
}

#[test]
fn short_patterns_are_dropped() {
    let m = PatternMatcher::build(vec![
        pair("short", "a = b + c ;"),
        pair("long", "a = b + c ; d ++"),
    ]);
    assert_eq!(MIN_TEMPLATE_TOKENS, 8);
    assert_eq!(m.len(), 1);
    assert!(!m.is_empty());
    assert!(PatternMatcher::default().is_empty());
    assert_eq!(PatternMatcher::default().len(), 0);
}

#[test]
fn a_pattern_is_found_under_other_names() {
    let m = PatternMatcher::build(vec![
        pair("inc", "for (uint i = 0; i < n; i++) { }"),
        pair("other", "require(owner == msg.sender, \"no\");"),
    ]);
    let f = "function g(uint[] memory xs) public { for (uint k = 0; k < len; k++) { } }";
    assert_eq!(m.match_function(f), vec!["inc"]);
    assert!(m.match_function("function h() public { }").is_empty());
    assert!(m.match_function("").is_empty());
}

#[test]
fn matching_respects_token_boundaries() {
    let m = PatternMatcher::build(vec![pair("p", "x = a + b ; y = c")]);
    // The same characters, but the last token goes on.
    assert_eq!(
        m.match_structure("ID = ID + ID ; ID = ID"),
        vec!["p".to_string()]
    );
    assert!(m.match_structure("ID = ID + ID ; ID = IDX").is_empty());
    assert!(m.match_structure("XID = ID + ID ; ID = ID").is_empty());
}

#[test]
fn matches_are_capped() {
    let code = "a = b + c ; d = e ;";
    let m = PatternMatcher::build(vec![
        pair("1", code),
        pair("2", code),
        pair("3", code),
        pair("4", code),
    ]);
    assert_eq!(MAX_STRUCT_MATCHES, 3);
    assert_eq!(m.match_function(code), vec!["1", "2", "3"]);
}

#[test]
fn a_match_is_a_run_of_tokens() {
    let m = PatternMatcher::build(vec![
        pair("short", "x = y;"),
        pair("run", "a = b + c; d = e;"),
        pair("gap", "a = b + c; d = e; f++;"),
        pair("tail", "b + c; d = e; return"),
    ]);
    assert_eq!(m.len(), 3);
    // The tokens of `run` and of `tail` stand together, those of `gap` do not.
    let f = "function g() public { total = first + 2; last = total; return; }";
    assert!(m.match_function(f).is_empty());
    let g = "function g() public { total = first + other; last = total; return; }";
    assert_eq!(m.match_function(g), vec!["run", "tail"]);
    // A comment or another layout between the tokens changes nothing.
    let h = "function g() public { total = // sum\n first\n + other; last=total;return; }";
    assert_eq!(m.match_function(h), vec!["run", "tail"]);
}
