use gaslite::splice::{can_splice, splice_functions, FnResult};

fn result(
    source: &str,
    text: &str,
    optimized: Result<&str, &str>,
    patterns: Vec<&str>,
) -> FnResult {
    let start = source.find(text).unwrap();
    FnResult {
        start,
        end: start + text.len(),
        source: text.to_string(),
        optimized: optimized.map(|s| s.to_string()).map_err(|s| s.to_string()),
        pattern_ids: patterns.iter().map(|s| s.to_string()).collect(),
    }
}

#[test]
fn rewrites_of_any_length_keep_the_rest() {
    let src = "head f() {} mid\u{e9} g() {} h() {} tail";
    let results = vec![
        result(src, "f() {}", Ok("```solidity\nf() { much longer }\n```"), vec!["b", "a"]),
        result(src, "h() {}", Ok("h"), vec!["a"]),
        result(src, "g() {}", Err("agent failed"), vec!["c"]),
    ];
    assert!(can_splice(src, &results));
    let out = splice_functions(src, &results);
    assert_eq!(out.code, "head f() { much longer } mid\u{e9} g() {} h tail");
    assert_eq!(out.count, 2);
    assert_eq!(out.patterns, vec!["a", "b", "c"]);
}

#[test]
fn the_order_of_the_results_does_not_matter() {
    let src = "A B C";
    let make = |order: [usize; 3]| {
        let mut v: Vec<FnResult> = Vec::new();
        for i in order {
            v.push(match i {
                0 => result(src, "A", Ok("aaaa"), vec![]),
                1 => result(src, "B", Ok(""), vec![]),
                _ => result(src, "C", Ok("cc"), vec![]),
            });
        }
        splice_functions(src, &v).code
    };
    for order in [[0, 1, 2], [2, 1, 0], [1, 0, 2], [2, 0, 1]] {
        assert_eq!(make(order), "aaaa  cc");
    }
}

#[test]
fn an_unchanged_answer_does_not_count() {
    let src = "x f() {} y";
    let out = splice_functions(src, &vec![result(src, "f() {}", Ok(" f() {} "), vec!["p"])]);
    assert_eq!(out.code, src);
    assert_eq!(out.count, 0);
    assert_eq!(out.patterns, vec!["p"]);
}

#[test]
fn no_answers_keep_the_source() {
    let src = "x f() {} y";
    let out = splice_functions(src, &vec![result(src, "f() {}", Err("e"), vec![])]);
    assert_eq!(out.code, src);
    assert_eq!(out.count, 0);
    assert!(splice_functions(src, &vec![]).patterns.is_empty());
}

#[test]
fn ranges_that_cannot_be_cut_are_found_out() {
    let src = "\u{e9}abc";
    let odd = FnResult {
        start: 1,
        end: 3,
        source: "".to_string(),
        optimized: Ok("new".to_string()),
        pattern_ids: vec![],
    };
    assert!(!can_splice(src, &vec![odd]));
    // A range behind the end is never applied.
    let far = FnResult {
        start: 2,
        end: 99,
        source: "".to_string(),
        optimized: Ok("new".to_string()),
        pattern_ids: vec![],
    };
    let list = vec![far];
    assert!(can_splice(src, &list));
    assert_eq!(splice_functions(src, &list).code, src);
}
