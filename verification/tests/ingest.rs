use gaslite::db::TursoArg;
use gaslite::ingest::{
    is_pattern_file, next_stage, open_directory, open_file, payload, read_record, FileStage,
    IngestFailure, IngestReport, Record, INSERT_PATTERN,
};

const PATTERN: &str = r#"{
    "id": "CLAMP", "category": "math", "title": "Clamp", "version": "2.0",
    "mantle_specific": true, "trigger_patterns": ["min", "max"],
    "solidity_before": "a < b ? a : b", "pattern_before": "unused",
    "correct_code": "CC", "explanation": "why", "when_to_apply": {"k": 1},
    "when_not_to_apply": "never"
}"#;

fn arg(a: &TursoArg) -> String {
    match a {
        TursoArg::Text(s) => format!("t:{}", s),
        TursoArg::Integer(s) => format!("i:{}", s),
        TursoArg::Null => "null".to_string(),
    }
}

fn record(src: &str) -> Record {
    match read_record(src) {
        Ok(r) => r,
        Err(_) => panic!("expected a record"),
    }
}

#[test]
fn pattern_files_are_json() {
    assert!(is_pattern_file("A.json"));
    assert!(is_pattern_file("a.b.json"));
    assert!(!is_pattern_file(".json"));
    assert!(!is_pattern_file("a.JSON"));
    assert!(!is_pattern_file("json"));
}

#[test]
fn a_pattern_fills_every_column() {
    let r = record(PATTERN);
    let args: Vec<String> = r.args.iter().map(arg).collect();
    assert_eq!(
        args,
        vec![
            "t:CLAMP",
            "t:math",
            "t:2.0",
            "t:Clamp",
            "t:",
            "t:",
            "t:medium",
            "i:1",
            "t:paris",
            "t:[\"min\",\"max\"]",
            "t:a < b ? a : b",
            "t:CC",
            "t:null",
            "t:\"why\"",
            "t:low",
            "t:{\"k\":1}",
            "t:never",
        ]
    );
    assert_eq!(INSERT_PATTERN.matches('?').count(), args.len());
}

#[test]
fn a_pattern_is_embedded_with_its_keywords() {
    let r = record(PATTERN);
    assert_eq!(
        r.embed_text,
        "TOKEN_STANDARD_NAMESPACE: MATH\n// Optimization: Clamp\n// Keywords: [\"min\",\"max\"]\na < b ? a : b"
    );
    assert_eq!(r.entry_type, "pattern");
    assert_eq!(
        payload(&r),
        vec![
            ("pattern_id".to_string(), "CLAMP".to_string()),
            ("category".to_string(), "math".to_string()),
            ("type".to_string(), "pattern".to_string()),
        ]
    );
}

#[test]
fn an_antipattern_is_embedded_with_its_fault() {
    let r = record(r#"{"id": "A", "type": "antipattern", "wrong_code": "w", "why_wrong": "y"}"#);
    assert_eq!(
        r.embed_text,
        "TOKEN_STANDARD_NAMESPACE: GENERAL\n// Antipattern to avoid: title\n// Triggers: null\n// Wrong code: w\n// Why wrong: y"
    );
    assert_eq!(arg(&r.args[10]), "t:w");
    assert_eq!(arg(&r.args[7]), "i:0");
}

#[test]
fn a_record_needs_an_id() {
    for src in ["{}", "[1]", "7", r#"{"id": 7}"#] {
        assert!(matches!(read_record(src), Err(IngestFailure::MissingId)));
    }
    match read_record("{") {
        Err(IngestFailure::InvalidJson(m)) => assert!(m.contains("EOF")),
        _ => panic!("expected a syntax error"),
    }
}

#[test]
fn failures_are_worded() {
    let e = || "x".to_string();
    let all = vec![
        (IngestFailure::NotADirectory, "Not a valid directory"),
        (IngestFailure::UnreadableDirectory(e()), "Cannot read directory: x"),
        (IngestFailure::UnreadableFile(e()), "Read error: x"),
        (IngestFailure::InvalidJson(e()), "Invalid JSON: x"),
        (IngestFailure::MissingId, "Missing 'id' field"),
        (IngestFailure::Embedding(e()), "Embedding error: x"),
        (IngestFailure::Turso(e()), "Turso error: x"),
        (IngestFailure::Qdrant(e()), "Qdrant error: x"),
    ];
    for (f, words) in all {
        assert_eq!(f.reason(), words);
    }
}

#[test]
fn a_pattern_counts_once_it_is_embedded_stored_and_indexed() {
    let mut report = IngestReport::new();
    let s = open_file(&mut report, "f.json", Ok(PATTERN.to_string()));
    assert!(matches!(&s, Some(FileStage::Embed(_))));
    let s = next_stage(&mut report, s.unwrap(), Ok(()));
    assert!(matches!(&s, Some(FileStage::Store(_))));
    let s = next_stage(&mut report, s.unwrap(), Ok(()));
    assert!(matches!(&s, Some(FileStage::Index(_))));
    assert!(report.successful_patterns.is_empty());
    assert!(next_stage(&mut report, s.unwrap(), Ok(())).is_none());
    assert_eq!(report.successful_patterns, vec!["CLAMP"]);
    assert!(report.failed_patterns.is_empty());
}

#[test]
fn a_failed_stage_ends_the_pattern() {
    let mut report = IngestReport::new();
    for n in 0..3 {
        let mut s = open_file(&mut report, "f.json", Ok(PATTERN.to_string())).unwrap();
        for _ in 0..n {
            s = next_stage(&mut report, s, Ok(())).unwrap();
        }
        assert!(next_stage(&mut report, s, Err("down".to_string())).is_none());
    }
    let reasons: Vec<&str> = report.failed_patterns.iter().map(|(_, r)| r.as_str()).collect();
    assert_eq!(
        reasons,
        vec!["Embedding error: down", "Turso error: down", "Qdrant error: down"]
    );
    assert!(report.failed_patterns.iter().all(|(id, _)| id == "CLAMP"));
    assert!(report.successful_patterns.is_empty());
}

#[test]
fn unusable_files_and_directories_are_reported() {
    let mut report = IngestReport::new();
    assert!(!open_directory(&mut report, "/no", false, Ok(())));
    assert!(!open_directory(&mut report, "/locked", true, Err("denied".to_string())));
    assert!(open_directory(&mut report, "/rag", true, Ok(())));
    assert!(open_file(&mut report, "a.json", Err("gone".to_string())).is_none());
    assert!(open_file(&mut report, "b.json", Ok("{}".to_string())).is_none());
    let failed: Vec<(&str, &str)> = report
        .failed_patterns
        .iter()
        .map(|(a, b)| (a.as_str(), b.as_str()))
        .collect();
    assert_eq!(
        failed,
        vec![
            ("/no", "Not a valid directory"),
            ("/locked", "Cannot read directory: denied"),
            ("a.json", "Read error: gone"),
            ("b.json", "Missing 'id' field"),
        ]
    );
}
