use gaslite::analyze::FunctionInfo;
use gaslite::equivalence::EquivResult;
use gaslite::gas::FunctionGas;
use gaslite::optimize::{
    dispatch, finish, gate, hash_source, judge, mode_of, needs_router, no_rewrite, oneshot_rewrite,
    prepare, unchecked, Dispatch, Gate, Verdict, NO_FUNCTIONS,
};
use gaslite::orchestrator::{Route, Task};
use std::collections::hash_map::DefaultHasher;
use std::hash::{Hash, Hasher};

fn function(name: &str) -> FunctionInfo {
    FunctionInfo {
        name: name.to_string(),
        source: format!("function {}() {{}}", name),
        start: 0,
        end: 1,
    }
}

fn names(d: Dispatch) -> (&'static str, Vec<String>) {
    let mode = mode_of(&d);
    match d {
        Dispatch::Oneshot => (mode, vec![]),
        Dispatch::FanOut(_, fs) => (mode, fs.into_iter().map(|f| f.name).collect()),
    }
}

fn tasks(lists: Vec<Vec<&str>>) -> Result<Route, String> {
    Ok(Route::Decompose(
        lists
            .iter()
            .map(|l| Task {
                title: "".to_string(),
                target_fns: l.iter().map(|n| n.to_string()).collect(),
                pattern_hints: vec![],
            })
            .collect(),
    ))
}

fn gas(name: &str) -> FunctionGas {
    FunctionGas {
        name: name.to_string(),
        gas_original: Some(10),
        gas_optimized: Some(8),
        gas_saved: Some(2),
    }
}

fn result(saved: Option<i64>) -> EquivResult {
    EquivResult {
        compiles: true,
        all_passed: true,
        valid_count: 2,
        gas_original: Some(100),
        gas_optimized: Some(90),
        gas_saved: saved,
        per_function_gas: vec![gas("f"), gas("getter"), gas("g")],
        ..Default::default()
    }
}

fn targets() -> Vec<(String, String)> {
    vec![
        ("f".to_string(), "f()".to_string()),
        ("g".to_string(), "g()".to_string()),
    ]
}

fn verdict(v: Result<EquivResult, String>) -> Verdict {
    judge("SOURCE", "CODE".to_string(), &targets(), v)
}

fn assert_kept(v: &Verdict, analysis: &str) {
    assert_eq!(v.code, "SOURCE");
    assert_eq!(v.analysis, analysis);
    assert!(!v.cacheable && !v.proven);
    assert_eq!((v.gas_original, v.gas_optimized, v.gas_saved), (None, None, None));
    assert!(v.fn_gas.is_empty());
}

#[test]
fn the_hash_is_that_of_the_standard_library() {
    for src in ["", "contract A {}", "\u{e9}\u{2014}", "a much longer text than one block holds"] {
        let mut h = DefaultHasher::new();
        src.hash(&mut h);
        assert_eq!(hash_source(src), format!("{:016x}", h.finish()));
    }
}

#[test]
fn a_contract_is_planned() {
    let src = "contract A { uint256 x; function f() public { x = 1; } }";
    let plan = prepare(src).unwrap();
    assert_eq!(plan.functions.len(), 1);
    assert_eq!(plan.functions[0].source, "function f() public { x = 1; }");
    assert_eq!(plan.targets.len(), 1);
    assert_eq!(plan.targets[0].0, "f");
    assert!(plan.storage.starts_with("uint256 x\n\n"));
    assert!(!needs_router(&plan, src));
    let padded = format!("{}{}", src, " ".repeat(4096));
    assert!(needs_router(&plan, &padded));
}

#[test]
fn a_contract_without_functions_is_refused() {
    for src in ["", "contract A {}", "interface I { function f() external; }", "not solidity"] {
        match prepare(src) {
            Err(e) => assert_eq!(e, NO_FUNCTIONS),
            Ok(_) => panic!("expected a refusal"),
        }
    }
}

#[test]
fn many_functions_need_the_router() {
    let body: String = (0..5)
        .map(|i| format!("function f{}() public {{ x = {}; }} ", i, i))
        .collect();
    let src = format!("contract A {{ uint x; {} }}", body);
    assert!(needs_router(&prepare(&src).unwrap(), &src));
}

#[test]
fn the_route_is_taken() {
    let fs = || vec![function("a"), function("b"), function("c")];
    assert_eq!(names(dispatch(fs(), Ok(Route::Oneshot))), ("oneshot", vec![]));
    assert_eq!(
        names(dispatch(fs(), tasks(vec![vec!["c"], vec!["x", "a"]]))),
        ("decompose", vec!["a".to_string(), "c".to_string()])
    );
    assert_eq!(names(dispatch(fs(), tasks(vec![vec!["x"]]))).1.len(), 3);
    assert_eq!(
        names(dispatch(fs(), Err("down".to_string()))),
        ("fallback", vec!["a".to_string(), "b".to_string(), "c".to_string()])
    );
}

#[test]
fn a_failed_agent_leaves_the_contract() {
    let ids = vec!["b".to_string(), "a".to_string(), "b".to_string()];
    let r = oneshot_rewrite("SRC", Err("e".to_string()), &ids);
    assert_eq!((r.code.as_str(), r.patterns), ("SRC", vec!["a".to_string(), "b".to_string()]));
    let r = oneshot_rewrite("SRC", Ok("```solidity\nNEW\n```".to_string()), &vec![]);
    assert_eq!(r.code, "NEW");
}

#[test]
fn a_rewrite_is_gated() {
    assert_eq!(gate("a", "a", true), Gate::NoRewrite);
    assert_eq!(gate("a", "a", false), Gate::NoRewrite);
    assert_eq!(gate("a", "b", true), Gate::Verify);
    assert_eq!(gate("a", "b", false), Gate::Unchecked);
    let v = no_rewrite("SOURCE");
    assert_kept(&v, "No optimized rewrite produced \u{2014} original returned unchanged.");
    let v = unchecked("NEW".to_string());
    assert_eq!(v.code, "NEW");
    assert!(v.cacheable && !v.proven);
    assert_eq!(v.analysis, "Optimized one-shot \u{2014} forge unavailable, not verified.");
}

#[test]
fn a_proven_win_is_released() {
    let v = verdict(Ok(result(Some(10))));
    assert_eq!(v.code, "CODE");
    assert!(v.cacheable && v.proven);
    assert_eq!(
        v.analysis,
        "Behaviourally equivalent to the original on 2 differential test(s) on a Mantle fork. Construction gas 100 \u{2192} 90 (saved 10)."
    );
    let kept: Vec<&str> = v.fn_gas.iter().map(|g| g.name.as_str()).collect();
    assert_eq!(kept, vec!["f", "g"]);
    assert_eq!(v.gas_saved, Some(10));
}

#[test]
fn unverified_functions_are_named_and_not_stored() {
    let er = EquivResult {
        invalid: vec!["g".to_string()],
        missing: vec!["f".to_string()],
        ..result(Some(1))
    };
    let v = verdict(Ok(er));
    assert!(v.cacheable && !v.proven);
    assert!(v.analysis.contains(" (unverified \u{2014} test generation failed: f, g). "));
    let end = finish("SOURCE", "oneshot", vec![], v, 5);
    assert!(end.remember && !end.store);
}

#[test]
fn a_rewrite_without_a_win_is_rejected() {
    let words = "Rewrite rejected \u{2014} behaviourally equivalent but no construction-gas improvement. Kept original.";
    for saved in [None, Some(0), Some(-3)] {
        assert_kept(&verdict(Ok(result(saved))), words);
    }
}

#[test]
fn a_divergent_rewrite_is_rejected() {
    let er = EquivResult {
        all_passed: false,
        failed: vec!["f".to_string(), "g".to_string()],
        ..result(Some(10))
    };
    assert_kept(
        &verdict(Ok(er)),
        "Rewrite rejected \u{2014} behavioural mismatch vs original in: f, g. Kept original.",
    );
}

#[test]
fn an_untested_rewrite_is_rejected() {
    let er = EquivResult {
        all_passed: false,
        ..result(Some(10))
    };
    assert_kept(
        &verdict(Ok(er)),
        "Rewrite rejected \u{2014} equivalence could not be established (test generation produced no valid tests). Kept original.",
    );
}

#[test]
fn a_rewrite_that_does_not_compile_is_rejected() {
    let er = EquivResult {
        errors: vec!["e1".to_string(), "e2".to_string()],
        ..Default::default()
    };
    assert_kept(
        &verdict(Ok(er)),
        "Rewrite rejected \u{2014} did not compile. Kept original. Errors: e1; e2",
    );
    assert_kept(
        &verdict(Err("no forge".to_string())),
        "Rewrite rejected \u{2014} could not verify (no forge). Kept original.",
    );
}

#[test]
fn the_end_of_a_run_carries_the_verdict() {
    let v = verdict(Ok(result(Some(10))));
    let end = finish("SOURCE", "decompose", vec!["p".to_string()], v, 42);
    assert!(end.remember && end.store);
    assert_eq!(end.response.optimized_code, "CODE");
    assert_eq!(end.response.suggested_patterns, vec!["p"]);
    assert_eq!((end.response.gas_before, end.response.gas_after), (Some(100), Some(90)));
    assert_eq!(end.response.per_function_gas.len(), 2);
    assert_eq!(end.run.contract_hash, hash_source("SOURCE"));
    assert_eq!((end.run.mode, end.run.ts), ("decompose", 42));
    assert_eq!(end.run.pattern_ids, vec!["p"]);
    let end = finish("SOURCE", "oneshot", vec![], no_rewrite("SOURCE"), 0);
    assert!(!end.remember && !end.store);
    assert_eq!(end.response.optimized_code, "SOURCE");
}
