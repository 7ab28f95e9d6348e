use gaslite::agent::{
    agent_answer, contract_context, feedback, function_context, function_request,
    gen_equivalence_test, max_turns, test_context, test_request, Loop, TimingHook,
};

#[test]
fn the_context_of_a_function_names_what_it_depends_on() {
    assert_eq!(
        function_context("uint x;", "error E();", "function f() {}"),
        "STORAGE LAYOUT:\nuint x;\n\nFILE-LEVEL DECLARATIONS:\nerror E();\n\nFUNCTION TO OPTIMIZE:\n```solidity\nfunction f() {}\n```"
    );
    assert_eq!(
        function_context("s", "", "f"),
        "STORAGE LAYOUT:\ns\n\nFUNCTION TO OPTIMIZE:\n```solidity\nf\n```"
    );
    assert_eq!(
        contract_context("s", "d", "c"),
        "STORAGE LAYOUT:\ns\n\nFILE-LEVEL DECLARATIONS:\nd\n\nCONTRACT TO OPTIMIZE:\n```solidity\nc\n```"
    );
}

#[test]
fn forge_is_mentioned_only_where_it_is_there() {
    assert!(function_request(true).contains("call forge_verify"));
    assert!(!function_request(false).contains("forge_verify"));
    assert!(function_request(false).ends_with("no contract wrapper, no imports."));
    assert_eq!(max_turns(true), 4);
    assert_eq!(max_turns(false), 1);
}

#[test]
fn a_verified_candidate_is_preferred() {
    let captured = Some("v".to_string());
    assert_eq!(agent_answer(captured.clone(), Ok("a".to_string()), "f"), Ok("v".to_string()));
    assert_eq!(agent_answer(captured, Err("e".to_string()), "f"), Ok("v".to_string()));
    assert_eq!(agent_answer(None, Ok("a".to_string()), "f"), Ok("a".to_string()));
    assert_eq!(
        agent_answer(None, Err("e".to_string()), "f"),
        Err("[f] agent prompt failed: e".to_string())
    );
}

#[test]
fn the_verify_agent_is_told_about_its_broken_test() {
    assert_eq!(feedback(None), "");
    let note = feedback(Some(("CODE", "WHY")));
    assert!(note.contains("\nFailure: WHY\nPrevious test:\n```solidity\nCODE\n```\n"));
    let first = test_request("mint", None);
    assert!(first.starts_with("Write exactly ONE Solidity function named `test_eq_mint` (public) that proves `mint` behaves"));
    assert_eq!(test_request("mint", Some(("CODE", "WHY"))), format!("{}{}", first, note));
    assert_eq!(
        test_context("C", "S", "A", "AOptimized", "f()"),
        "ORIGINAL CONTRACT (the behavioural spec):\n```solidity\nC\n```\n\nPUBLIC STATE (these generate getters you can read for assertions):\nS\n\nThe test harness already deployed two instances with IDENTICAL interfaces:\n- `o` of type A (original / oracle)\n- `p` of type AOptimized (optimized / under test)\n\nTARGET FUNCTION: f()"
    );
}

#[test]
fn a_generated_test_is_stripped_of_fences() {
    assert_eq!(
        gen_equivalence_test(Ok("```solidity\nfunction t() {}\n```".to_string()), "f"),
        Ok("function t() {}".to_string())
    );
    assert_eq!(
        gen_equivalence_test(Err("e".to_string()), "f"),
        Err("[verify f] agent prompt failed: e".to_string())
    );
}

#[test]
fn turns_and_times_are_added_up() {
    let mut h = TimingHook::new();
    h.on_completion_call(100);
    assert_eq!(h.on_completion_response(150), Some(50));
    assert_eq!(h.on_completion_response(170), None);
    h.on_tool_call(200);
    assert_eq!(h.on_tool_result(230, "other", "{}", "{}"), Loop::Continue);
    h.on_completion_call(300);
    assert_eq!(h.on_completion_response(290), Some(0));
    assert_eq!(h.summary(), (2, 50, 30));
    assert_eq!(h.captured(), None);
}

#[test]
fn a_compiling_candidate_ends_the_loop() {
    let mut h = TimingHook::new();
    let args = r#"{"optimized_function": "```solidity\nfunction f() {}\n```"}"#;
    let good = r#"{"compiles": true, "errors": []}"#;
    let bad = r#"{"compiles": false}"#;
    assert_eq!(h.on_tool_result(0, "forge_verify", args, bad), Loop::Continue);
    assert_eq!(h.on_tool_result(0, "forge_verify", args, "not json"), Loop::Continue);
    assert_eq!(h.on_tool_result(0, "forge_verify", "{}", good), Loop::Continue);
    assert_eq!(h.on_tool_result(0, "forge_verify", "[", good), Loop::Continue);
    assert_eq!(h.on_tool_result(0, "submit_plan", args, good), Loop::Continue);
    assert_eq!(h.captured(), None);
    assert_eq!(h.on_tool_result(0, "forge_verify", args, good), Loop::Terminate);
    assert_eq!(h.captured(), Some("function f() {}".to_string()));
}
