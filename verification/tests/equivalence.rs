use gaslite::equivalence::{
    after_build, after_test, build_equivalence_test, has_test, missing_tests, suite_result_lines,
    suite_test_passed, EquivResult, EquivStep,
};
use gaslite::forge::{sandbox_project, ProcessOutput};

fn pair(a: &str, b: &str) -> (String, String) {
    (a.to_string(), b.to_string())
}

fn output(success: bool, stdout: &str, stderr: &str) -> ProcessOutput {
    ProcessOutput {
        success,
        stdout: stdout.to_string(),
        stderr: stderr.to_string(),
    }
}

#[test]
fn unverified_unions_broken_and_missing_tests() {
    let er = EquivResult {
        invalid: vec!["transfer".into()],
        missing: vec!["approve".into(), "mint".into()],
        ..Default::default()
    };
    assert_eq!(er.unverified(), vec!["approve", "mint", "transfer"]);
}

#[test]
fn unverified_is_empty_when_every_function_was_tested() {
    assert!(EquivResult::default().unverified().is_empty());
}

#[test]
fn unverified_names_a_function_once() {
    let er = EquivResult {
        invalid: vec!["b".into(), "a".into(), "b".into()],
        missing: vec!["c".into(), "a".into()],
        ..Default::default()
    };
    assert_eq!(er.unverified(), vec!["a", "b", "c"]);
}

#[test]
fn suites_are_grouped_by_header() {
    let out = "Compiling\n\
        [PASS] stray() (gas: 1)\n\
        Ran 2 tests for test/Equivalence.t.sol:EquivalenceTest\n\
        [PASS] test_eq_a() (gas: 10)\n\
        [FAIL: boom] test_eq_b() (gas: 11)\n\
        Suite result: FAILED\n\
        Ran 1 test for test/Equivalence.t.sol:SanityTest\n\
        [PASS] test_eq_a() (gas: 12)\n\
        Ran 1 test for test/Equivalence.t.sol:EquivalenceTest\n\
        [PASS] test_eq_c() (gas: 13)\n";
    let suites = suite_result_lines(out);
    assert_eq!(suites.len(), 2);
    let eq = suites.iter().find(|s| s.suite == "EquivalenceTest").unwrap();
    assert_eq!(
        eq.lines,
        vec![
            "[PASS] test_eq_a() (gas: 10)",
            "[FAIL: boom] test_eq_b() (gas: 11)",
            "[PASS] test_eq_c() (gas: 13)",
        ]
    );
    let sanity = suites.iter().find(|s| s.suite == "SanityTest").unwrap();
    assert_eq!(sanity.lines, vec!["[PASS] test_eq_a() (gas: 12)"]);
}

#[test]
fn a_test_name_does_not_collide_with_a_longer_one() {
    let lines = vec!["[PASS] test_eq_transferFrom(uint256) (gas: 5)".to_string()];
    assert!(suite_test_passed(&lines, "transferFrom"));
    assert!(!suite_test_passed(&lines, "transfer"));
    let failed = vec!["[FAIL] test_eq_transfer() (gas: 5)".to_string()];
    assert!(!suite_test_passed(&failed, "transfer"));
}

#[test]
fn the_test_file_holds_the_bodies_in_both_suites() {
    let file = build_equivalence_test(
        "Pool",
        "PoolOptimized",
        &vec!["function test_eq_a() public {}".to_string(), "B".to_string()],
        "address(0)",
    );
    let expected = "// SPDX-License-Identifier: MIT\n\
        pragma solidity ^0.8.0;\n\
        import \"../src/Original.sol\";\n\
        import \"../src/Optimized.sol\";\n\n\
        contract EquivalenceTest {\n\
        \x20   Pool o;\n\
        \x20   PoolOptimized p;\n\
        \x20   function setUp() public { o = new Pool(address(0)); p = new PoolOptimized(address(0)); }\n\
        \x20   function test_gas_original() external { new Pool(address(0)); }\n\
        \x20   function test_gas_optimized() external { new PoolOptimized(address(0)); }\n\n\
        function test_eq_a() public {}\n\nB\n\
        }\n\n\
        contract SanityTest {\n\
        \x20   Pool o;\n\
        \x20   Pool p;\n\
        \x20   function setUp() public { o = new Pool(address(0)); p = new Pool(address(0)); }\n\n\
        function test_eq_a() public {}\n\nB\n\
        }\n";
    assert_eq!(file, expected);
}

#[test]
fn a_failed_build_blames_the_contract() {
    let project = sandbox_project("contract A {}", "contract A {}", 64, "rpc");
    match after_build(&project, "contract A {}", &vec![], Ok(output(false, "out\n", "Error: x\nfine"))) {
        EquivStep::Respond(er) => {
            assert!(!er.compiles && !er.all_passed);
            assert_eq!(er.errors, vec!["Error: x"]);
            assert_eq!(er.forge_output, "out\nError: x\nfine");
        }
        _ => panic!("expected a result"),
    }
    match after_build(&project, "contract A {}", &vec![], Err("gone".to_string())) {
        EquivStep::Fail(m) => assert_eq!(
            m,
            "forge build failed (not installed or timed out): gone"
        ),
        _ => panic!("expected a failure"),
    }
}

#[test]
fn a_good_build_leads_to_the_tests() {
    let src = "contract A { constructor(uint x) {} }";
    let project = sandbox_project(src, "contract A {}", 64, "rpc");
    let tests = vec![pair("f", "BODY_F"), pair("g", "BODY_G")];
    match after_build(&project, src, &tests, Ok(output(true, "", ""))) {
        EquivStep::Test(file) => {
            assert!(file.contains("BODY_F\n\nBODY_G"));
            assert!(file.contains("new AOptimized(0)"));
        }
        _ => panic!("expected the tests"),
    }
}

const RUN: &str = "\
Ran 4 tests for test/Equivalence.t.sol:EquivalenceTest
[PASS] test_eq_a() (gas: 10)
[FAIL: owner] test_eq_b() (gas: 11)
[PASS] test_eq_c() (gas: 11)
[PASS] test_gas_original() (gas: 100)
[PASS] test_gas_optimized() (gas: 60)
Ran 3 tests for test/Equivalence.t.sol:SanityTest
[PASS] test_eq_a() (gas: 12)
[PASS] test_eq_b() (gas: 12)
[FAIL: revert] test_eq_c() (gas: 12)
| src/Original.sol:A contract |  |  |  |  |  |
| a | 1 | 20 | 3 | 4 | 5 |
| src/Optimized.sol:AOptimized contract |  |  |  |  |  |
| a | 1 | 15 | 3 | 4 | 5 |
";

#[test]
fn a_run_is_classified_per_function() {
    let project = sandbox_project("contract A {}", "contract A {}", 64, "rpc");
    let tests = vec![pair("a", ""), pair("b", ""), pair("c", ""), pair("d", "")];
    let er = after_test(&project, &tests, Ok(output(false, RUN, "!"))).unwrap();
    assert!(er.compiles);
    assert!(!er.all_passed);
    assert_eq!(er.failed, vec!["b"]);
    assert_eq!(er.invalid, vec!["c", "d"]);
    assert_eq!(
        er.invalid_reasons,
        vec![
            pair("c", "[FAIL: revert] test_eq_c() (gas: 12)"),
            pair("d", "test produced no result"),
        ]
    );
    assert_eq!(er.valid_count, 2);
    assert_eq!(er.gas_original, Some(100));
    assert_eq!(er.gas_optimized, Some(60));
    assert_eq!(er.gas_saved, Some(40));
    assert_eq!(er.per_function_gas.len(), 1);
    assert_eq!(er.per_function_gas[0].gas_saved, Some(5));
    assert!(er.missing.is_empty());
    assert_eq!(er.forge_output, format!("{}!", RUN));
}

#[test]
fn broken_tests_do_not_reject() {
    let project = sandbox_project("contract A {}", "contract A {}", 64, "rpc");
    let tests = vec![pair("a", ""), pair("c", "")];
    let er = after_test(&project, &tests, Ok(output(true, RUN, ""))).unwrap();
    assert!(er.all_passed);
    assert_eq!(er.valid_count, 1);
    // Nothing valid: nothing passed.
    let none = after_test(&project, &vec![pair("c", "")], Ok(output(true, RUN, ""))).unwrap();
    assert!(!none.all_passed && none.failed.is_empty());
}

#[test]
fn tests_that_do_not_compile_are_an_error() {
    let project = sandbox_project("contract A {}", "contract A {}", 64, "rpc");
    let run = Ok(output(false, "Error: one\n", "undeclared two\n"));
    assert_eq!(
        after_test(&project, &vec![], run).unwrap_err(),
        "generated equivalence tests failed to compile: Error: one; undeclared two"
    );
    assert_eq!(
        after_test(&project, &vec![], Err("slow".to_string())).unwrap_err(),
        "forge test failed or timed out: slow"
    );
}

#[test]
fn missing_tests_are_the_targets_without_one() {
    let targets = vec![pair("a", "sa"), pair("b", "sb"), pair("c", "sc")];
    let tests = vec![pair("b", "t")];
    assert_eq!(missing_tests(&targets, &tests), vec!["a", "c"]);
    assert!(has_test(&tests, "b") && !has_test(&tests, "a"));
}

#[test]
fn a_suite_is_listed_only_with_results() {
    let out = "[PASS] early()\n\
        Ran 2 tests for test/E.t.sol:EquivalenceTest\n\
        [PASS] test_eq_f() (gas: 10)\n\
        [FAIL: bad] test_eq_g() (gas: 20)\n\
        Suite result: FAILED\n\
        Ran 1 test for test/E.t.sol:SanityTest\n\
        [PASS] test_eq_f() (gas: 11)\n\
        Ran 2 test suites in 1s";
    let mut suites: Vec<(String, Vec<String>)> = Vec::new();
    for s in suite_result_lines(out) {
        suites.push((s.suite, s.lines));
    }
    suites.sort();
    assert_eq!(
        suites,
        vec![
            (
                "EquivalenceTest".to_string(),
                vec![
                    "[PASS] test_eq_f() (gas: 10)".to_string(),
                    "[FAIL: bad] test_eq_g() (gas: 20)".to_string(),
                ]
            ),
            (
                "SanityTest".to_string(),
                vec!["[PASS] test_eq_f() (gas: 11)".to_string()]
            ),
        ]
    );
    assert!(suite_result_lines("Ran 1 test for test/E.t.sol:EmptyTest\n").is_empty());
}
