use gaslite::forge::{
    after_build, after_test, build_args, build_gas_test, clean_for_forge, collect_forge_errors,
    extract_sol_contract_name, forge_binary, forge_permits, forge_timeout, foundry_path, fuzz_runs,
    mantle_rpc, poll_child, sandbox_names, sandbox_project, test_args, timeout_message, Poll,
    ProcessOutput, SandboxStep, BUILD_TIMEOUT_SECS, TEST_TIMEOUT_SECS,
};

fn output(success: bool, stdout: &str, stderr: &str) -> ProcessOutput {
    ProcessOutput {
        success,
        stdout: stdout.to_string(),
        stderr: stderr.to_string(),
    }
}

#[test]
fn settings_have_defaults_and_bounds() {
    assert_eq!(forge_permits(None), 2);
    assert_eq!(forge_permits(Some("x")), 2);
    assert_eq!(forge_permits(Some("0")), 1);
    assert_eq!(forge_permits(Some("8")), 8);
    assert_eq!(forge_timeout(None, BUILD_TIMEOUT_SECS), 90);
    assert_eq!(forge_timeout(Some("-1"), TEST_TIMEOUT_SECS), 240);
    assert_eq!(forge_timeout(Some("0"), TEST_TIMEOUT_SECS), 0);
    assert_eq!(forge_timeout(Some("300"), TEST_TIMEOUT_SECS), 300);
    assert_eq!(fuzz_runs(None), 64);
    assert_eq!(fuzz_runs(Some("0")), 1);
    assert_eq!(fuzz_runs(Some("4294967296")), 64);
    assert_eq!(fuzz_runs(Some("256")), 256);
    assert_eq!(mantle_rpc(None), "https://rpc.mantle.xyz");
    assert_eq!(mantle_rpc(Some("http://x")), "http://x");
    assert_eq!(foundry_path("/home/u"), "/home/u/.foundry/bin/forge");
    assert_eq!(forge_binary(Some("/h"), true), "/h/.foundry/bin/forge");
    assert_eq!(forge_binary(Some("/h"), false), "forge");
    assert_eq!(forge_binary(None, true), "forge");
}

#[test]
fn a_child_is_killed_only_after_its_deadline() {
    assert_eq!(poll_child(true, 9, 1), Poll::Finished);
    assert_eq!(poll_child(false, 999, 1000), Poll::Wait);
    assert_eq!(poll_child(false, 1000, 1000), Poll::TimedOut);
    assert_eq!(timeout_message(90), "forge subprocess timed out after 90s");
}

#[test]
fn contract_names_are_read_from_declarations() {
    assert_eq!(
        extract_sol_contract_name("pragma x;\n  contract Foo is Bar {"),
        Some("Foo".to_string())
    );
    assert_eq!(extract_sol_contract_name("contract  Two"), None);
    assert_eq!(extract_sol_contract_name("abstract contract A {"), None);
    assert_eq!(
        extract_sol_contract_name("contract {\ncontract B_1{}"),
        Some("B_1".to_string())
    );
    assert_eq!(
        sandbox_names("library L {}"),
        (
            "OriginalContract".to_string(),
            "OriginalContractOptimized".to_string()
        )
    );
}

#[test]
fn markdown_is_cleaned_out() {
    let code = "```solidity\ncontract A {\n**Note**\n*(why)*\n- Saves gas\n- x;\n  -  \n}\n```";
    assert_eq!(clean_for_forge(code), "contract A {\n- x;\n  -  \n}");
    assert_eq!(clean_for_forge(""), "");
}

#[test]
fn error_lines_are_collected_up_to_a_limit() {
    let text = "  Error (1): a \nwarning\nUndeclared identifier\nfile Not Found\n\n";
    assert_eq!(
        collect_forge_errors(text),
        vec!["Error (1): a", "Undeclared identifier", "file Not Found"]
    );
    let many = "error\n".repeat(30);
    assert_eq!(collect_forge_errors(&many).len(), 20);
}

#[test]
fn the_project_renames_the_optimized_contract() {
    let p = sandbox_project(
        "contract Pool { }",
        "```\ncontract Pool { contract Pool }\n```",
        64,
        "https://rpc.mantle.xyz",
    );
    assert_eq!(p.orig_name, "Pool");
    assert_eq!(p.opt_name, "PoolOptimized");
    assert_eq!(p.original_sol, "contract Pool { }");
    assert_eq!(p.optimized_sol, "contract PoolOptimized { contract Pool }");
    assert_eq!(
        p.foundry_toml,
        "[profile.default]\nsrc=\"src\"\ntest=\"test\"\nevm_version=\"paris\"\n[fuzz]\nruns=64\n[rpc_endpoints]\nmantle=\"https://rpc.mantle.xyz\"\n"
    );
    let other = sandbox_project("contract A {}", "contract B {}", 1, "r");
    assert_eq!(other.optimized_sol, "contract AOptimized {}");
    let unnamed = sandbox_project("contract A {}", "library L {}", 1, "r");
    assert_eq!(unnamed.optimized_sol, "library L {}");
}

#[test]
fn the_gas_test_constructs_both_contracts() {
    assert_eq!(
        build_gas_test("A", "AOptimized", "0"),
        "// SPDX-License-Identifier: MIT\n\
         pragma solidity ^0.8.0;\n\
         import \"../src/Original.sol\";\n\
         import \"../src/Optimized.sol\";\n\n\
         contract GasCompareTest {\n\
         function test_original() external { new A(0); }\n\
         function test_optimized() external { new AOptimized(0); }\n\
         }\n"
    );
}

#[test]
fn forge_is_called_with_the_right_arguments() {
    assert_eq!(build_args("/t"), vec!["build", "--root", "/t"]);
    assert_eq!(
        test_args("/t", "rpc", false),
        vec!["test", "--root", "/t", "--fork-url", "rpc", "-vv"]
    );
    assert_eq!(
        test_args("/t", "rpc", true),
        vec!["test", "--root", "/t", "--fork-url", "rpc", "--gas-report", "-vv"]
    );
}

#[test]
fn a_sandbox_run_reports_compile_errors() {
    let p = sandbox_project("contract A {}", "contract A {}", 1, "r");
    match after_build(&p, "contract A {}", Ok(output(false, "Error: no", "error: yes"))) {
        SandboxStep::Respond(r) => {
            assert!(!r.compiles);
            assert_eq!(r.errors, vec!["error: yes"]);
            assert_eq!((r.gas_original, r.gas_optimized, r.gas_saved), (None, None, None));
            assert_eq!(r.forge_output, "Error: noerror: yes");
        }
        _ => panic!("expected a response"),
    }
    match after_build(&p, "contract A {}", Err("x".to_string())) {
        SandboxStep::Fail(m) => {
            assert_eq!(m, "forge build failed (not installed or timed out): x")
        }
        _ => panic!("expected a failure"),
    }
    let src = "contract A { constructor(bool b) {} }";
    match after_build(&p, src, Ok(output(true, "", ""))) {
        SandboxStep::Test(file) => assert_eq!(file, build_gas_test("A", "AOptimized", "false")),
        _ => panic!("expected a test"),
    }
}

#[test]
fn a_sandbox_run_measures_construction_gas() {
    let out = "[PASS] test_original() (gas: 100)\n[PASS] test_optimized() (gas: 120)\n";
    let r = after_test(Ok(output(true, out, "e"))).unwrap();
    assert!(r.compiles && r.errors.is_empty());
    assert_eq!(r.gas_original, Some(100));
    assert_eq!(r.gas_optimized, Some(120));
    assert_eq!(r.gas_saved, Some(-20));
    assert_eq!(r.forge_output, format!("{}e", out));
    let none = after_test(Ok(output(false, "", ""))).unwrap();
    assert!(none.compiles && none.gas_saved.is_none());
    match after_test(Err("t".to_string())) {
        Err(m) => assert_eq!(m, "forge test failed or timed out: t"),
        Ok(_) => panic!("expected an error"),
    }
}

#[test]
fn only_the_declaration_of_the_optimized_contract_is_renamed() {
    let renamed = |optimized: &str| {
        let p = sandbox_project("contract Token {}", optimized, 1, "r");
        assert_eq!(p.orig_name, "Token");
        assert_eq!(p.opt_name, "TokenOptimized");
        p.optimized_sol
    };
    assert_eq!(
        renamed("abstract contract TokenBase {}\ncontract Token is TokenBase {}"),
        "abstract contract TokenBase {}\ncontract TokenOptimized is TokenBase {}"
    );
    assert_eq!(
        renamed("// contract Token, faster\ncontract Token {}"),
        "// contract Token, faster\ncontract TokenOptimized {}"
    );
    assert_eq!(
        renamed("/*\ncontract Old {}\n*/\ncontract Token {}"),
        "/*\ncontract Old {}\n*/\ncontract TokenOptimized {}"
    );
    assert_eq!(renamed("abstract contract Token {}"), "abstract contract TokenOptimized {}");
}
