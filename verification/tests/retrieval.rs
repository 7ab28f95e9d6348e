use gaslite::db::{Json, Row, TursoArg};
use gaslite::normalize::PatternMatcher;
use gaslite::retrieval::{
    fetch_candidates, find_candidates, hydrate, merge_candidates, pattern_ids, plan_searches,
    top_positions, Candidate, HitKind,
};

fn row(cells: Vec<(&str, &str)>) -> Row {
    Row {
        cells: cells
            .iter()
            .map(|(c, v)| (c.to_string(), Json::Text(v.to_string())))
            .collect(),
    }
}

fn ids(list: &Vec<Candidate>) -> Vec<(&str, HitKind)> {
    list.iter().map(|c| (c.id.as_str(), c.kind)).collect()
}

fn hits(list: Vec<Option<&str>>) -> Vec<Option<String>> {
    list.iter().map(|h| h.map(|s| s.to_string())).collect()
}

#[test]
fn token_contracts_search_their_category() {
    let plan = plan_searches(Some("erc721"));
    assert_eq!(plan.patterns.len(), 2);
    assert_eq!(plan.patterns[0].limit, 2);
    assert_eq!(
        plan.patterns[0].must,
        vec![("category".to_string(), "erc721".to_string())]
    );
    assert_eq!(plan.patterns[1].limit, 1);
    assert_eq!(plan.patterns[1].must_not.len(), 5);
    assert_eq!(plan.patterns[1].must_not[4].1, "accounts");
    assert_eq!(plan.antipatterns.limit, 2);
    assert_eq!(
        plan.antipatterns.must,
        vec![("type".to_string(), "antipattern".to_string())]
    );
}

#[test]
fn other_contracts_search_everything() {
    for category in [None, Some("hashing")] {
        let plan = plan_searches(category);
        assert_eq!(plan.patterns.len(), 1);
        assert_eq!(plan.patterns[0].limit, 3);
        assert!(plan.patterns[0].must.is_empty() && plan.patterns[0].must_not.is_empty());
    }
}

#[test]
fn candidates_are_merged_in_order_and_once() {
    let list = merge_candidates(
        &hits(vec![Some(" \"P1\" "), None, Some("P2"), Some("P1")]),
        &hits(vec![Some("\"P2\""), Some("A1")]),
        &vec!["A1".to_string(), "S1".to_string()],
    );
    assert_eq!(
        ids(&list),
        vec![
            ("P1", HitKind::Pattern(0)),
            ("P2", HitKind::Pattern(2)),
            ("A1", HitKind::Anti(1)),
            ("S1", HitKind::Structure),
        ]
    );
}

#[test]
fn structural_matches_come_from_the_source() {
    let code = "a = b + c ; d = e ;";
    let m = PatternMatcher::build(vec![("SEEK".to_string(), code.to_string())]);
    let list = find_candidates(&m, "x = y + z ; q = r ;", &hits(vec![Some("P")]), &vec![]);
    assert_eq!(
        ids(&list),
        vec![("P", HitKind::Pattern(0)), ("SEEK", HitKind::Structure)]
    );
}

#[test]
fn candidates_are_fetched_in_one_statement() {
    let list = merge_candidates(&hits(vec![Some("a"), Some("b")]), &vec![], &vec![]);
    let fetch = fetch_candidates(&list).unwrap();
    assert_eq!(
        fetch.sql,
        "SELECT id, title, explanation, yul_optimized, risk_level, when_not_to_apply, solidity_before FROM optimization_patterns WHERE id IN (?,?)"
    );
    assert_eq!(fetch.args.len(), 2);
    assert!(matches!(&fetch.args[1], TursoArg::Text(s) if s == "b"));
    assert!(fetch_candidates(&vec![]).is_none());
}

#[test]
fn candidates_become_documents() {
    let list = merge_candidates(
        &hits(vec![Some("p"), Some("gone")]),
        &hits(vec![Some("a")]),
        &vec!["s".to_string()],
    );
    let rows = vec![
        row(vec![("id", "p"), ("title", "old")]),
        row(vec![
            ("id", "p"),
            ("title", "T"),
            ("explanation", "E"),
            ("yul_optimized", "Y"),
            ("risk_level", "low"),
            ("when_not_to_apply", "never"),
        ]),
        row(vec![("id", "a"), ("title", "AT"), ("solidity_before", "B"), ("yul_optimized", "C")]),
        row(vec![("id", "s"), ("title", "ST")]),
    ];
    let out = hydrate(&list, &rows);
    assert_eq!(out.len(), 3);
    assert_eq!(
        out[0].text,
        "PATTERN ID: p\nTitle: T\nExplanation: E\nOptimized YUL:\nY\nRisk: low\nDo NOT apply when: never"
    );
    assert_eq!(
        out[1].text,
        "ANTIPATTERN ID: a\nTitle: AT\nExplanation: \nWrong:\nB\nCorrect:\nC"
    );
    assert_eq!(
        out[2].text,
        "PATTERN ID: s (structural match)\nTitle: ST\nExplanation: \nOptimized YUL:\n\nRisk: \nDo NOT apply when: "
    );
    assert_eq!(pattern_ids(&out), vec!["p", "a", "s"]);
    assert_eq!(out[1].kind, HitKind::Anti(0));
}

#[test]
fn the_best_entries_are_kept() {
    let keys = vec![5i64, 9, 5, -3, 9];
    assert_eq!(top_positions(&keys, 0), vec![1, 4, 0, 2, 3]);
    assert_eq!(top_positions(&keys, 3), vec![1, 4, 0]);
    assert_eq!(top_positions(&keys, 9), vec![1, 4, 0, 2, 3]);
    assert!(top_positions(&vec![], 2).is_empty());
}
