use gaslite::db::{query_outcome, Json, Row, TursoArg, TursoResult, TursoRows};
use gaslite::dto::OptimizeResponse;
use gaslite::gas::FunctionGas;
use gaslite::state::{
    allowed_origins, cache_insert_args, cache_select_args, load_pattern_matcher, stored_response,
    ResultCache, CACHE_CAPACITY, CACHE_INSERT, CACHE_SELECT,
};

fn response(code: &str) -> OptimizeResponse {
    OptimizeResponse {
        analysis: "a".to_string(),
        suggested_patterns: vec!["p".to_string()],
        optimized_code: code.to_string(),
        gas_before: Some(1),
        gas_after: None,
        gas_saved: Some(-1),
        per_function_gas: vec![FunctionGas {
            name: "f".to_string(),
            gas_original: Some(5),
            gas_optimized: Some(4),
            gas_saved: Some(1),
        }],
    }
}

fn row(cells: Vec<(&str, &str)>) -> Row {
    Row {
        cells: cells
            .iter()
            .map(|(c, v)| (c.to_string(), Json::Text(v.to_string())))
            .collect(),
    }
}

fn code(cache: &ResultCache, key: &str) -> Option<String> {
    cache.get(key).map(|r| r.optimized_code)
}

#[test]
fn what_was_cached_is_read_back() {
    let mut c = ResultCache::new();
    assert_eq!(code(&c, "k"), None);
    c.put("k".to_string(), response("one"));
    c.put("l".to_string(), response("two"));
    c.put("k".to_string(), response("three"));
    assert_eq!(code(&c, "k"), Some("three".to_string()));
    assert_eq!(code(&c, "l"), Some("two".to_string()));
    assert_eq!(code(&c, "m"), None);
    let hit = c.get("l").unwrap();
    assert_eq!((hit.gas_before, hit.gas_after, hit.gas_saved), (Some(1), None, Some(-1)));
    assert_eq!(hit.suggested_patterns, vec!["p"]);
    assert_eq!(hit.per_function_gas[0].name, "f");
    assert_eq!(hit.per_function_gas[0].gas_saved, Some(1));
    c.clear();
    assert_eq!(code(&c, "k"), None);
}

#[test]
fn a_full_cache_takes_nothing_new() {
    let mut c = ResultCache::new();
    for i in 0..CACHE_CAPACITY {
        c.put(format!("k{}", i), response("x"));
    }
    c.put("late".to_string(), response("y"));
    assert_eq!(code(&c, "late"), None);
    c.put("k0".to_string(), response("y"));
    assert_eq!(code(&c, "k0"), Some("x".to_string()));
    assert_eq!(code(&c, "k1023"), Some("x".to_string()));
    // An answer of the durable cache is warmed in any case.
    c.warm("late".to_string(), response("z"));
    assert_eq!(code(&c, "late"), Some("z".to_string()));
}

#[test]
fn the_durable_cache_serves_verified_rows_only() {
    assert!(CACHE_SELECT.contains("verified = 1"));
    assert!(CACHE_INSERT.ends_with("VALUES (?,?,?,1)"));
    let select = cache_select_args("key");
    assert_eq!(select.len(), 1);
    assert!(matches!(&select[0], TursoArg::Text(s) if s == "key"));
    let insert = cache_insert_args("key", "{}", -7);
    assert_eq!(insert.len(), 3);
    assert!(matches!(&insert[1], TursoArg::Text(s) if s == "{}"));
    assert!(matches!(&insert[2], TursoArg::Integer(s) if s == "-7"));
}

#[test]
fn the_first_row_holds_the_stored_answer() {
    let rows = Ok(vec![row(vec![("response", "{1}")]), row(vec![("response", "{2}")])]);
    assert_eq!(stored_response(&rows), Some("{1}".to_string()));
    assert_eq!(stored_response(&Ok(vec![])), None);
    assert_eq!(stored_response(&Ok(vec![row(vec![("other", "x")])])), None);
    assert_eq!(stored_response(&Err("down".to_string())), None);
}

fn reply(rows: Vec<Vec<Json>>) -> Vec<TursoResult> {
    vec![TursoResult {
        result_type: "ok".to_string(),
        response: Some(Some(TursoRows {
            cols: vec!["response".to_string()],
            rows,
        })),
        error: None,
    }]
}

#[test]
fn a_stored_answer_is_read_back() {
    // What was handed to the insertion comes back in the cell of the reply.
    let json = "{\"analysis\":\"null \u{e9}\",\"gas_before\":12}";
    let stored = match &cache_insert_args("key", json, 5)[1] {
        TursoArg::Text(s) => s.clone(),
        _ => panic!("expected a text"),
    };
    let cell = Json::Object(vec![
        ("type".to_string(), Json::Text("text".to_string())),
        ("value".to_string(), Json::Text(stored)),
    ]);
    let rows = query_outcome(reply(vec![vec![cell]]));
    assert_eq!(stored_response(&rows), Some(json.to_string()));
    assert_eq!(stored_response(&query_outcome(reply(vec![]))), None);
    assert_eq!(stored_response(&query_outcome(vec![])), None);
    let failed = vec![TursoResult {
        result_type: "error".to_string(),
        response: None,
        error: Some("no such table".to_string()),
    }];
    assert_eq!(stored_response(&query_outcome(failed)), None);
}

#[test]
fn the_matcher_holds_the_complete_rows() {
    let long = "a = b + c ; d = e ;";
    let m = load_pattern_matcher(Ok(vec![
        row(vec![("id", "A"), ("solidity_before", long)]),
        row(vec![("id", "B")]),
        row(vec![("id", "C"), ("solidity_before", "x ;")]),
    ]));
    assert_eq!(m.len(), 1);
    assert_eq!(m.match_function("p = q + r ; s = t ;"), vec!["A"]);
    assert!(load_pattern_matcher(Err("down".to_string())).is_empty());
}

#[test]
fn origins_are_listed_or_any() {
    assert_eq!(allowed_origins(None), None);
    assert_eq!(allowed_origins(Some("  ")), None);
    assert_eq!(
        allowed_origins(Some(" https://a , https://b,")),
        Some(vec!["https://a".to_string(), "https://b".to_string(), "".to_string()])
    );
}
