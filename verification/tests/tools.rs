use gaslite::forge::VerifyResponse;
use gaslite::tools::{forge_result, FnForgeArgs, ForgeError, FunctionForgeTool, EXCERPT_CHARS};
use std::sync::Arc;

fn args(f: &str) -> FnForgeArgs {
    FnForgeArgs {
        optimized_function: f.to_string(),
    }
}

fn response(compiles: bool, gas: Option<u64>, out: &str) -> VerifyResponse {
    VerifyResponse {
        compiles,
        gas_original: Some(9),
        gas_optimized: gas,
        gas_saved: gas.map(|g| 9 - g as i64),
        errors: vec!["e".to_string()],
        forge_output: out.to_string(),
    }
}

#[test]
fn a_candidate_replaces_its_function() {
    let source: Arc<str> = Arc::from("contract A { f() {} }");
    let tool = FunctionForgeTool::new(source, 13, 19);
    assert!(tool.is_cuttable());
    let code = tool.candidate(&args("```solidity\nf() { g }\n```")).unwrap();
    assert_eq!(code, "contract A { f() { g } }");
}

#[test]
fn a_range_out_of_bounds_is_refused() {
    let tool = FunctionForgeTool::new(Arc::from("abc"), 1, 4);
    assert!(!tool.is_cuttable());
    let e = tool.candidate(&args("x")).unwrap_err();
    assert_eq!(e.message(), "forge tool error: function byte range out of bounds");
}

#[test]
fn a_range_inside_a_character_cannot_be_cut() {
    assert!(!FunctionForgeTool::new(Arc::from("\u{e9}a"), 1, 2).is_cuttable());
    assert!(!FunctionForgeTool::new(Arc::from("abc"), 2, 1).is_cuttable());
    assert!(FunctionForgeTool::new(Arc::from("\u{e9}a"), 2, 3).is_cuttable());
}

#[test]
fn a_run_is_reported_with_an_excerpt() {
    let long = "\u{e9}".repeat(EXCERPT_CHARS + 5);
    let r = forge_result(Ok(response(true, Some(7), &long))).unwrap();
    assert!(r.compiles && r.gas_measured);
    assert_eq!((r.gas_original, r.gas_optimized, r.gas_saved), (Some(9), Some(7), Some(2)));
    assert_eq!(r.errors, vec!["e"]);
    assert_eq!(r.forge_excerpt, "\u{e9}".repeat(2000));
    assert!(!forge_result(Ok(response(true, None, ""))).unwrap().gas_measured);
    assert!(!forge_result(Ok(response(false, Some(7), ""))).unwrap().gas_measured);
}

#[test]
fn a_failed_run_is_a_tool_error() {
    match forge_result(Err("no forge".to_string())) {
        Err(e) => assert_eq!(e.message(), "forge tool error: no forge"),
        Ok(_) => panic!("expected an error"),
    }
    assert_eq!(ForgeError("x".to_string()).0, "x");
}
