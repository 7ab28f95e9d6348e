use gaslite::dto::OptimizeResponse;
use gaslite::equivalence::EquivResult;
use gaslite::optimize::{Outcome, NO_FUNCTIONS};
use gaslite::orchestrator::{Route, Task};
use gaslite::pipeline::{
    begin, on_answered, on_functions, on_memory, on_routed, on_store, on_verified, Action, Request,
    Stage,
};
use gaslite::splice::FnResult;
use gaslite::state::ResultCache;

const SMALL: &str = "contract A { uint x; function f() public { x = 1; } }";

fn large() -> String {
    let body: String = (0..5)
        .map(|i| format!("function f{}() public {{ x = {}; }} ", i, i))
        .collect();
    format!("contract A {{ uint x; {} }}", body)
}

fn response() -> OptimizeResponse {
    OptimizeResponse {
        analysis: "cached".to_string(),
        suggested_patterns: vec![],
        optimized_code: "".to_string(),
        gas_before: None,
        gas_after: None,
        gas_saved: None,
        per_function_gas: vec![],
    }
}

fn uncached(source: &str, forge: bool) -> (Request, Action) {
    let (req, _) = begin(source.to_string(), forge);
    let (req, action) = on_memory(req, None);
    assert!(matches!(action, Action::AskStore));
    on_store(req, None)
}

fn end(action: Action) -> Outcome {
    match action {
        Action::Finish(o) => o,
        _ => panic!("expected the end"),
    }
}

#[test]
fn layout_does_not_change_the_key() {
    let (a, action) = begin(SMALL.to_string(), true);
    assert!(matches!(action, Action::AskMemory));
    let (b, _) = begin(format!("// note\n{}\n", SMALL.replace(' ', "  ")), true);
    assert_eq!(a.key, b.key);
    assert_ne!(a.key, begin(large(), true).0.key);
}

#[test]
fn a_remembered_answer_serves_the_same_tokens() {
    let mut cache = ResultCache::new();
    let (first, _) = begin(SMALL.to_string(), true);
    cache.put(first.key, response());
    let (second, _) = begin(format!("/* note */ {}", SMALL), true);
    assert_eq!(cache.get(&second.key).map(|r| r.analysis), Some("cached".to_string()));
    let (other, _) = begin(SMALL.replace("x = 1", "x = 2"), true);
    assert!(cache.get(&other.key).is_none());
}

#[test]
fn the_caches_answer_first() {
    let (req, _) = begin(SMALL.to_string(), true);
    let (req, action) = on_memory(req, Some(response()));
    assert!(matches!(req.stage, Stage::Over));
    assert!(matches!(action, Action::Reply(r) if r.analysis == "cached"));

    let (req, _) = begin(SMALL.to_string(), true);
    let (req, _) = on_memory(req, None);
    let (req, action) = on_store(req, Some(response()));
    assert!(matches!(req.stage, Stage::Over));
    assert!(matches!(action, Action::WarmAndReply(r) if r.analysis == "cached"));
}

#[test]
fn what_does_not_parse_is_refused() {
    let (req, action) = uncached("contract {", true);
    assert!(matches!(req.stage, Stage::Over));
    assert!(matches!(action, Action::Refuse(m) if m == NO_FUNCTIONS));
}

#[test]
fn a_small_contract_is_verified_and_released() {
    let (req, action) = uncached(SMALL, true);
    assert!(matches!(action, Action::OptimizeContract));
    let (req, action) = on_answered(req, Ok("```\nNEW\n```".to_string()), &vec!["p".to_string()], 1);
    assert!(matches!(action, Action::Verify));
    match &req.stage {
        Stage::Verified(mode, context, rewrite) => {
            assert_eq!(*mode, "oneshot");
            assert_eq!(context.targets[0].0, "f");
            assert_eq!(rewrite.code, "NEW");
        }
        _ => panic!("expected a rewrite"),
    }
    let er = EquivResult {
        compiles: true,
        all_passed: true,
        valid_count: 1,
        gas_saved: Some(3),
        ..Default::default()
    };
    let (req, action) = on_verified(req, Ok(er), 9);
    assert!(matches!(req.stage, Stage::Over));
    let o = end(action);
    assert!(o.remember && o.store);
    assert_eq!(o.response.optimized_code, "NEW");
    assert_eq!((o.run.mode, o.run.ts), ("oneshot", 9));
}

#[test]
fn a_rejected_rewrite_keeps_the_contract() {
    let (req, _) = uncached(SMALL, true);
    let (req, _) = on_answered(req, Ok("NEW".to_string()), &vec![], 1);
    let (_, action) = on_verified(req, Err("down".to_string()), 9);
    let o = end(action);
    assert!(!o.remember && !o.store);
    assert_eq!(o.response.optimized_code, SMALL);
}

#[test]
fn an_agent_that_fails_ends_the_run() {
    let (req, _) = uncached(SMALL, true);
    let (req, action) = on_answered(req, Err("e".to_string()), &vec![], 1);
    assert!(matches!(req.stage, Stage::Over));
    let o = end(action);
    assert_eq!(o.response.optimized_code, SMALL);
    assert!(!o.remember);
}

#[test]
fn without_forge_a_rewrite_is_only_remembered() {
    let (req, _) = uncached(SMALL, false);
    let (_, action) = on_answered(req, Ok("NEW".to_string()), &vec![], 1);
    let o = end(action);
    assert!(o.remember && !o.store);
    assert_eq!(o.response.optimized_code, "NEW");
}

#[test]
fn a_large_contract_is_routed_and_spliced() {
    let src = large();
    let (req, action) = uncached(&src, false);
    assert!(matches!(action, Action::AskRouter));
    let tasks = vec![Task {
        title: "t".to_string(),
        target_fns: vec!["f1".to_string(), "f3".to_string()],
        pattern_hints: vec![],
    }];
    let (req, action) = on_routed(req, Ok(Route::Decompose(tasks)));
    let fs = match action {
        Action::OptimizeFunctions(fs) => fs,
        _ => panic!("expected functions"),
    };
    let names: Vec<&str> = fs.iter().map(|f| f.name.as_str()).collect();
    assert_eq!(names, vec!["f1", "f3"]);
    let results: Vec<FnResult> = fs
        .into_iter()
        .map(|f| FnResult {
            start: f.start,
            end: f.end,
            source: f.source,
            optimized: Ok(format!("NEW_{}", f.name)),
            pattern_ids: vec!["p".to_string()],
        })
        .collect();
    let (_, action) = on_functions(req, &results, 7);
    let o = end(action);
    assert_eq!(o.run.mode, "decompose");
    assert_eq!(o.response.suggested_patterns, vec!["p"]);
    assert_eq!(
        o.response.optimized_code,
        src.replace("function f1() public { x = 1; }", "NEW_f1")
            .replace("function f3() public { x = 3; }", "NEW_f3")
    );
}

#[test]
fn a_router_that_fails_falls_back_to_every_function() {
    let (req, _) = uncached(&large(), true);
    let (req, action) = on_routed(req, Err("down".to_string()));
    assert!(matches!(req.stage, Stage::Functions("fallback", _)));
    assert!(matches!(action, Action::OptimizeFunctions(fs) if fs.len() == 5));
    let (req, _) = uncached(&large(), true);
    let (_, action) = on_routed(req, Ok(Route::Oneshot));
    assert!(matches!(action, Action::OptimizeContract));
}
