use gaslite::db::{
    decode_cell, execute_outcome, pipeline, pipeline_url, query_outcome, Json, Row, TursoArg,
    TursoResult, TursoRows,
};

fn text(s: &str) -> Json {
    Json::Text(s.to_string())
}

fn cell(ty: &str, value: Option<Json>) -> Json {
    let mut fields = vec![("type".to_string(), text(ty))];
    if let Some(v) = value {
        fields.push(("value".to_string(), v));
    }
    Json::Object(fields)
}

fn ok(cols: Vec<&str>, rows: Vec<Vec<Json>>) -> TursoResult {
    TursoResult {
        result_type: "ok".to_string(),
        response: Some(Some(TursoRows {
            cols: cols.iter().map(|c| c.to_string()).collect(),
            rows,
        })),
        error: None,
    }
}

fn failed(m: &str) -> TursoResult {
    TursoResult {
        result_type: "error".to_string(),
        response: None,
        error: Some(m.to_string()),
    }
}

#[test]
fn typed_cells_are_flattened() {
    assert!(matches!(decode_cell(cell("text", Some(text("x")))), Json::Text(s) if s == "x"));
    assert!(matches!(decode_cell(cell("integer", Some(text("-42")))), Json::Integer(-42)));
    assert!(matches!(decode_cell(cell("integer", Some(text("nan")))), Json::Text(s) if s == "nan"));
    assert!(matches!(decode_cell(cell("integer", Some(Json::Bool(true)))), Json::Bool(true)));
    assert!(matches!(decode_cell(cell("integer", None)), Json::Null));
    assert!(matches!(decode_cell(cell("null", Some(text("x")))), Json::Null));
    assert!(matches!(decode_cell(cell("float", Some(Json::Number("1.5".to_string())))), Json::Number(s) if s == "1.5"));
    assert!(matches!(decode_cell(cell("blob", None)), Json::Null));
}

#[test]
fn plain_cells_are_kept() {
    assert!(matches!(decode_cell(text("plain")), Json::Text(s) if s == "plain"));
    assert!(matches!(decode_cell(Json::Integer(7)), Json::Integer(7)));
    let untyped = Json::Object(vec![("type".to_string(), Json::Integer(1))]);
    assert!(matches!(decode_cell(untyped), Json::Object(f) if f.len() == 1));
    assert!(matches!(decode_cell(Json::Array(vec![Json::Null])), Json::Array(a) if a.len() == 1));
}

#[test]
fn integers_survive_the_wire() {
    for n in [i64::MIN, -1, 0, i64::MAX] {
        let back = decode_cell(cell("integer", Some(text(&n.to_string()))));
        assert!(matches!(back, Json::Integer(m) if m == n));
    }
}

#[test]
fn a_pipeline_executes_and_closes() {
    assert_eq!(pipeline_url("https://db"), "https://db/v2/pipeline");
    let p = pipeline("SELECT ?", vec![TursoArg::Null]);
    assert_eq!(p.len(), 2);
    assert_eq!(p[0].stmt_type, "execute");
    let stmt = p[0].stmt.as_ref().unwrap();
    assert_eq!(stmt.sql, "SELECT ?");
    assert!(matches!(stmt.args[0], TursoArg::Null));
    assert_eq!(p[1].stmt_type, "close");
    assert!(p[1].stmt.is_none());
    assert!(matches!(TursoArg::Integer("3".to_string()).clone(), TursoArg::Integer(s) if s == "3"));
    assert!(matches!(TursoArg::Text("t".to_string()).clone(), TursoArg::Text(s) if s == "t"));
}

#[test]
fn an_error_fails_a_statement() {
    assert_eq!(execute_outcome(&vec![ok(vec![], vec![])]), Ok(()));
    assert_eq!(execute_outcome(&vec![]), Ok(()));
    assert_eq!(
        execute_outcome(&vec![ok(vec![], vec![]), failed("no such table"), failed("later")]),
        Err("Turso SQL error: no such table".to_string())
    );
}

#[test]
fn a_query_takes_the_first_rows() {
    let rows = query_outcome(vec![
        TursoResult { result_type: "ok".to_string(), response: Some(None), error: None },
        TursoResult { result_type: "other".to_string(), response: None, error: None },
        ok(
            vec!["id", "n", "extra"],
            vec![
                vec![cell("text", Some(text("a"))), cell("integer", Some(text("3")))],
                vec![text("b")],
            ],
        ),
        failed("after the rows"),
    ])
    .unwrap();
    assert_eq!(rows.len(), 2);
    assert_eq!(rows[0].cells.len(), 2);
    assert_eq!(rows[0].get_str("id"), Some("a"));
    assert!(matches!(rows[0].cells[1].1, Json::Integer(3)));
    assert_eq!(rows[0].get_str("n"), None);
    assert_eq!(rows[1].get_str("id"), Some("b"));
    assert_eq!(rows[1].get_str("extra"), None);
}

#[test]
fn a_query_fails_on_an_error_before_the_rows() {
    match query_outcome(vec![failed("bad"), ok(vec!["a"], vec![])]) {
        Err(e) => assert_eq!(e, "Turso SQL error: bad"),
        Ok(_) => panic!("expected an error"),
    }
    assert!(query_outcome(vec![]).unwrap().is_empty());
}

#[test]
fn the_later_column_of_a_name_counts() {
    let r = Row {
        cells: vec![
            ("c".to_string(), text("first")),
            ("c".to_string(), text("second")),
        ],
    };
    assert_eq!(r.get_str("c"), Some("second"));
    assert_eq!(r.get_str("d"), None);
    assert_eq!(Json::Null.as_str(), None);
}
