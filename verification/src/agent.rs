//! The agents' prompts, and how their loops are watched and ended.
//!
//! A single per-function agent retrieves patterns as context and, when Foundry is
//! available, closes the loop with the forge tool: generate, compile on a Mantle
//! fork, on compile failure refine and retry, capped by a number of turns. The
//! verify agent writes a **differential** equivalence test for one function: the
//! original contract is the behavioural oracle.

use crate::json::{self, get_flag, get_text, FieldModel, JsonField};
use crate::text::{self, same};
use crate::tools::TOOL_NAME;
use crate::utils::{self, strip_code_fences};
use vstd::prelude::*;

verus! {

broadcast use vstd::seq::group_seq_axioms;

/// The model that every agent runs on.
pub const MODEL: &'static str = "deepseek-v4-flash";

/// Max agent turns when the forge loop is active (1 generate + refinements).
pub const FORGE_MAX_TURNS: usize = 4;

/// Number of retrieved pattern documents to inject as dynamic context.
pub const CONTEXT_SAMPLES: usize = 6;

/// The optimizing agent's instructions.
pub const SYSTEM_PROMPT: &'static str =
    "You are Gaslite, a gas optimization engine for Mantle L2 EVM contracts.\n\nYour role is pattern application and adaptation \u{2014} not pattern invention.\n\nThe RETRIEVED PATTERNS are your source of truth for YUL structure, opcodes, and error selectors. Use them as templates:\n- Keep the YUL opcodes, control flow, and error selectors exactly as shown\n- Adapt storage slot variable names and mapping key derivations to match the user contract's actual storage layout shown in STORAGE LAYOUT\n- For standard Solidity mappings, derive slots as: mstore(0x00, key), mstore(0x20, slot_number), keccak256(0x00, 0x40)\n- Replace require(condition, string) with the 4-byte custom error pattern: mstore(0x00, 0xSELECTOR), revert(0x1c, 0x04)\n- Do not invent YUL opcodes, selectors, or patterns not present in the retrieved patterns\n\nCANONICAL ERROR SELECTORS \u{2014} use only these, never invent selectors:\nInsufficientBalance()   0xf4d678b8\nInsufficientAllowance() 0x13be252b\nTransferFailed()        0x90b8ec18\nETHTransferFailed()     0xb12d13eb\nNotOwner()              0x30cd7471\nUnauthorized()          0x82b42900\nNotApproved()           0xc19f17a9\nTokenDoesNotExist()     0xceea21b6\nTokenAlreadyExists()    0xc991cbb1\nExceedsMaxSupply()      0xc30436e9\nZeroAddress()           0xd92e233d\nInvalidAmount()         0x2c5211c6\nInvalidSignature()      0x8baa579f\nDeadlineExpired()       0x1ab7da6b\nSlippageExceeded()      0x8199f5f3\nAlreadyInitialized()    0x0dc149f0\nNotInitialized()        0x87138d5c\nReentrancy()            0xab143c06\nPaused()                0x9e87fac8\nInsufficientLiquidity() 0xbb55fd27\n\nEVENT EMISSION RULES:\n- log4(memOffset, memLen, topic0, topic1, topic2, topic3) \u{2014} topics are inline stack args\n- When ALL event args are indexed: use log4(0, 0, sig, arg1, arg2, arg3) \u{2014} data payload is ZERO bytes\n- When event has non-indexed args: ABI-encode them in memory, then log(offset, len, topics...)\n- NEVER pass mload() as topic arguments \u{2014} pass the values directly\n\nCorrectness is absolute. An optimization that changes observable behaviour is not an optimization \u{2014} it is a bug.";

/// The verify agent's instructions.
pub const VERIFY_SYSTEM_PROMPT: &'static str =
    "You write Foundry differential tests in Solidity. The ORIGINAL contract is the source of truth; the OPTIMIZED contract must behave identically. You produce exactly one test function that proves it, or finds a divergence.\n\nYour test is also executed in a SANITY harness where both instances are the ORIGINAL contract. A correct test always passes there; if yours would not, it is broken and gets discarded. So before emitting the test, mentally execute the ORIGINAL contract's code line by line with your chosen literal values and confirm every happy-path call succeeds and every assertion holds.";

// ── the optimizing agent ─────────────────────────────────────────────────────

/// The declarations that a function depends on, as a block of the context; none
/// where there are none.
pub open spec fn declaration_block(decls: Seq<char>) -> Seq<char> {
    if decls.len() == 0 {
        seq![]
    } else {
        "FILE-LEVEL DECLARATIONS:\n"@ + decls + "\n\n"@
    }
}

/// What the agent is told about a function's surroundings.
pub open spec fn function_context_text(
    storage: Seq<char>,
    decls: Seq<char>,
    source: Seq<char>,
) -> Seq<char> {
    "STORAGE LAYOUT:\n"@ + storage + "\n\n"@ + declaration_block(decls)
        + "FUNCTION TO OPTIMIZE:\n```solidity\n"@ + source + "\n```"@
}

/// The context of the agent that optimizes one function: the storage layout, the
/// declarations the function depends on, and the function.
pub fn function_context(storage: &str, decls: &str, source: &str) -> (r: String)
    ensures
        r@ == function_context_text(storage@, decls@, source@),
{
    let mut out = "STORAGE LAYOUT:\n".to_owned();
    out.append(storage);
    out.append("\n\n");
    let ghost before = out@;
    if !decls.is_empty() {
        let mut block = "FILE-LEVEL DECLARATIONS:\n".to_owned();
        block.append(decls);
        block.append("\n\n");
        out.append(block.as_str());
    }
    proof {
        assert(out@ =~= before + declaration_block(decls@));
    }
    out.append("FUNCTION TO OPTIMIZE:\n```solidity\n");
    out.append(source);
    out.append("\n```");
    out
}

/// What the agent is asked to do where forge is available.
pub const FORGE_STEP: &'static str =
    "After producing the optimized function, call forge_verify with optimized_function set to your rewrite. If it does not compile (compiles=false), fix the function using the returned errors and call forge_verify again. Stop once it compiles, or after exhausting your attempts.\n";

/// What the agent is asked.
pub open spec fn function_request_text(use_forge: bool) -> Seq<char> {
    "Optimize ONLY this function by applying the RETRIEVED PATTERNS as templates, adapting slot derivations and variable names to the contract's storage layout. Preserve the function's observable behaviour and signature.\n"@ + (if use_forge {
        FORGE_STEP@
    } else {
        ""@
    }) + "\nReturn ONLY the complete optimized function (signature + body) in a single ```solidity code block \u{2014} no contract wrapper, no imports."@
}

/// The request to optimize one function.
pub fn function_request(use_forge: bool) -> (r: String)
    ensures
        r@ == function_request_text(use_forge),
{
    let mut out =
        "Optimize ONLY this function by applying the RETRIEVED PATTERNS as templates, adapting slot derivations and variable names to the contract's storage layout. Preserve the function's observable behaviour and signature.\n".to_owned();
    let step: &str = if use_forge {
        FORGE_STEP
    } else {
        ""
    };
    out.append(step);
    out.append(
        "\nReturn ONLY the complete optimized function (signature + body) in a single ```solidity code block \u{2014} no contract wrapper, no imports.",
    );
    out
}

/// How many turns the agent gets.
pub fn max_turns(use_forge: bool) -> (r: usize)
    ensures
        r == (if use_forge {
            FORGE_MAX_TURNS
        } else {
            1
        }),
{
    if use_forge {
        FORGE_MAX_TURNS
    } else {
        1
    }
}

/// What the one-shot agent is told about the contract.
pub open spec fn contract_context_text(
    storage: Seq<char>,
    decls: Seq<char>,
    source: Seq<char>,
) -> Seq<char> {
    "STORAGE LAYOUT:\n"@ + storage + "\n\n"@ + declaration_block(decls)
        + "CONTRACT TO OPTIMIZE:\n```solidity\n"@ + source + "\n```"@
}

/// The context of the agent that optimizes a whole contract in one shot.
pub fn contract_context(storage: &str, decls: &str, source: &str) -> (r: String)
    ensures
        r@ == contract_context_text(storage@, decls@, source@),
{
    let mut out = "STORAGE LAYOUT:\n".to_owned();
    out.append(storage);
    out.append("\n\n");
    let ghost before = out@;
    if !decls.is_empty() {
        let mut block = "FILE-LEVEL DECLARATIONS:\n".to_owned();
        block.append(decls);
        block.append("\n\n");
        out.append(block.as_str());
    }
    proof {
        assert(out@ =~= before + declaration_block(decls@));
    }
    out.append("CONTRACT TO OPTIMIZE:\n```solidity\n");
    out.append(source);
    out.append("\n```");
    out
}

/// The request to optimize a whole contract.
pub const CONTRACT_REQUEST: &'static str =
    "Optimize this contract by applying the RETRIEVED PATTERNS as templates, adapting slot derivations and variable names to the contract's storage layout. Preserve the observable behaviour and the signature of every function, the constructor and the storage layout.\n\nReturn ONLY the complete optimized contract in a single ```solidity code block.";

/// The answer of an optimizing agent. A candidate that the forge loop has verified
/// is preferred over the (cancelled) prompt's result.
pub fn agent_answer(
    captured: Option<String>,
    result: Result<String, String>,
    fn_name: &str,
) -> (r: Result<String, String>)
    ensures
        match captured {
            Some(verified) => r == Ok::<String, String>(verified),
            None => match result {
                Ok(answer) => r == Ok::<String, String>(answer),
                Err(e) => r matches Err(m) && m@ == "["@ + fn_name@ + "] agent prompt failed: "@
                    + e@,
            },
        },
{
    if let Some(verified) = captured {
        return Ok(verified);
    }
    match result {
        Ok(answer) => Ok(answer),
        Err(e) => {
            let mut m = "[".to_owned();
            m.append(fn_name);
            m.append("] agent prompt failed: ");
            m.append(e.as_str());
            Err(m)
        },
    }
}

// ── the verify agent ─────────────────────────────────────────────────────────

/// What the verify agent is told about the contract and the harness.
pub open spec fn test_context_text(
    original: Seq<char>,
    storage: Seq<char>,
    orig_type: Seq<char>,
    opt_type: Seq<char>,
    signature: Seq<char>,
) -> Seq<char> {
    "ORIGINAL CONTRACT (the behavioural spec):\n```solidity\n"@ + original + "\n```\n\nPUBLIC STATE (these generate getters you can read for assertions):\n"@ + storage
        + "\n\nThe test harness already deployed two instances with IDENTICAL interfaces:\n- `o` of type "@ + orig_type + " (original / oracle)\n- `p` of type "@ + opt_type
        + " (optimized / under test)\n\nTARGET FUNCTION: "@ + signature
}

/// The context of the agent that writes a function's test: the original contract,
/// its public state, the two deployed instances, and the function.
pub fn test_context(
    original: &str,
    storage: &str,
    orig_type: &str,
    opt_type: &str,
    signature: &str,
) -> (r: String)
    ensures
        r@ == test_context_text(original@, storage@, orig_type@, opt_type@, signature@),
{
    let mut out = "ORIGINAL CONTRACT (the behavioural spec):\n```solidity\n".to_owned();
    out.append(original);
    out.append("\n```\n\nPUBLIC STATE (these generate getters you can read for assertions):\n");
    out.append(storage);
    out.append(
        "\n\nThe test harness already deployed two instances with IDENTICAL interfaces:\n- `o` of type ",
    );
    out.append(orig_type);
    out.append(" (original / oracle)\n- `p` of type ");
    out.append(opt_type);
    out.append(" (optimized / under test)\n\nTARGET FUNCTION: ");
    out.append(signature);
    out
}

/// What the agent is told about its previous attempt: the test, and how it failed
/// where both instances were the original.
pub open spec fn feedback_text(prev: Option<(Seq<char>, Seq<char>)>) -> Seq<char> {
    match prev {
        Some((code, fail)) =>
            "\n\nYOUR PREVIOUS ATTEMPT WAS BROKEN \u{2014} it failed even when both `o` and `p` were the ORIGINAL contract, so the fault is in the TEST's preconditions or arithmetic, not in either contract.\nFailure: "@
            + fail + "\nPrevious test:\n```solidity\n"@ + code
            + "\n```\nTrace the ORIGINAL contract's requires and arithmetic with the exact literals that test used, find the line that reverts or the assertion that cannot hold, and return a corrected test."@,
        None => ""@,
    }
}

/// A previous attempt as text.
pub open spec fn attempt(prev: Option<(&str, &str)>) -> Option<(Seq<char>, Seq<char>)> {
    match prev {
        Some((code, fail)) => Some((code@, fail@)),
        None => None,
    }
}

/// When a prior attempt failed the original-vs-original sanity run, hands the model
/// its own broken test plus the failure so it fixes the actual bug instead of
/// regenerating blind.
pub fn feedback(prev: Option<(&str, &str)>) -> (r: String)
    ensures
        r@ == feedback_text(attempt(prev)),
{
    match prev {
        Some((code, fail)) => {
            let mut out =
                "\n\nYOUR PREVIOUS ATTEMPT WAS BROKEN \u{2014} it failed even when both `o` and `p` were the ORIGINAL contract, so the fault is in the TEST's preconditions or arithmetic, not in either contract.\nFailure: ".to_owned();
            out.append(fail);
            out.append("\nPrevious test:\n```solidity\n");
            out.append(code);
            out.append(
                "\n```\nTrace the ORIGINAL contract's requires and arithmetic with the exact literals that test used, find the line that reverts or the assertion that cannot hold, and return a corrected test.",
            );
            out
        },
        None => "".to_owned(),
    }
}

/// Asks for the test by name.
pub const TEST_REQUEST_NAME: &'static str =
    "Write exactly ONE Solidity function named `test_eq_";

/// What the test is to prove.
pub const TEST_REQUEST_GOAL: &'static str =
    "` (public) that proves `";

/// What the test may take.
pub const TEST_REQUEST_PARAMETERS: &'static str =
    "` behaves identically on `o` and `p`. It MAY take fuzz parameters (preferred \u{2014} see DIFFERENTIAL FUZZING) or take no args; either way keep the exact name `test_eq_";

/// The rules and assertions of a test.
pub const TEST_REQUEST_RULES: &'static str =
    "`.\n\nHARD CONSTRAINTS (violating any of these makes the test unusable):\n- Your output is pasted VERBATIM inside an existing test contract. Do NOT declare a contract, imports, `o`, `p`, `setUp`, or any state variable \u{2014} only the one function. NO forge-std, NO vm/cheatcodes, NO console, NO comments.\n- CALLER IS address(this): every call runs with msg.sender = THIS TEST CONTRACT. For any function gated on the caller's ownership/balance/allowance (e.g. `require(ownerOf[id] == msg.sender)`, or one that decrements the caller's balance), first put address(this) into that state using the ORIGINAL contract's OWN functions \u{2014} never an external address as the gated owner. Use external addresses only as destinations/recipients.\n- PRECONDITIONS FIRST, USING THE CONTRACT'S REAL FUNCTIONS: read the ORIGINAL function body and trace its requires and arithmetic with your exact literals before writing a single call. If a call needs prior state (a balance, allowance, supply, a registered entry), create it first by calling the contract's ACTUAL state-changing functions IDENTICALLY on `o` and `p`, and create ENOUGH of it for the arithmetic the body performs. Do NOT hallucinate generic helpers like `mint()`, `balanceOf()`, `totalSupply()`, `ownerOf()` or `approve()` unless they actually exist in the ORIGINAL contract \u{2014} call only functions and getters that appear in the provided source. If the contract offers no path to reach a required state, do not test that path. A happy-path call that reverts on the original is a broken test and will be thrown away.\n- NO CHEATCODES, ONE CALLER, NO ETH: there is no `vm`, so you cannot advance time, change msg.sender, or fund the test with ETH. If a function needs elapsed time, a different caller, or msg.value the test contract does not have, do not try to force it \u{2014} pick a happy path address(this) can reach right now; if none exists, emit ONLY the revert-parity probe. Never call a payable function with a value the test contract cannot pay.\n- Happy-path calls are NEVER wrapped in try/catch \u{2014} if they revert, the test should fail loudly. try/catch is only for the deliberate revert-parity probe at the end.\n- PUBLIC GETTERS OF STRUCTS RETURN TUPLES, NOT STRUCTS. A `mapping(...) public stakes` whose value is `struct Stake { uint256 amount; uint256 since; bool active; }` generates a getter returning `(uint256, uint256, bool)` \u{2014} you CANNOT write `o.stakes(a).amount`. Destructure positionally, naming only the fields you compare: `(uint256 amtO,,) = o.stakes(a); (uint256 amtP,,) = p.stakes(a); require(amtO == amtP, \"amt\");`. The same applies to any `public` struct or array-of-struct state variable.\n- Every variable you declare must be used. No dead code.\n\nWHAT TO ASSERT (coverage is the goal):\n- Do the SAME operations on `o` and on `p`, in the same order, with the SAME literal arguments. msg.sender is this test contract for every call on both instances.\n- After each state-changing call, assert equality across instances of: every return value, AND every public getter the function could have touched \u{2014} including ones it should NOT have changed (e.g. after approve, also check ownerOf and balanceOf are still equal). Wrong-storage-slot bugs hide exactly there.\n- CONSERVATION COVERAGE: if the contract exposes balance/supply getters (e.g. `balanceOf`, `totalSupply`), then after any call that moves or changes balances assert `o.balanceOf(X) == p.balanceOf(X)` for EVERY address involved \u{2014} the CALLER (address(this)) FIRST, then every recipient/other party \u{2014} and `o.totalSupply() == p.totalSupply()`. The single most-missed bug is a non-conserving change to the CALLER's own balance (e.g. debiting 6 while crediting 5); checking only the recipient lets it slip through, so never skip the caller's balance. If the contract has no such getters, assert equality of whatever public state the call actually touches instead.\n- Use distinct literals so swapped values can't cancel out (e.g. two different addresses, token ids 0 and 1) and exercise the function at least twice when cheap.\n- One `require(a == b, \"label\")` per checked value, with a short unique label.\n- End with ONE revert-parity probe: a call that should revert per the original's requires, wrapped in try/catch on both, then `require(ro == rp, \"revert parity\")`.\n\nDIFFERENTIAL FUZZING (PREFERRED \u{2014} far stronger than fixed literals):\n- You MAY declare the test with typed parameters, e.g. `function test_eq_";

/// That a fuzzed test keeps its name.
pub const TEST_REQUEST_RENAMING: &'static str =
    "(uint256 amt, address a) public`. Foundry fuzzes them, running the SAME random inputs on `o` and `p` many times. Keep the name `test_eq_";

/// The rules of fuzzing, and examples.
pub const TEST_REQUEST_FUZZING: &'static str =
    "` (do NOT rename to `testFuzz_`).\n- There is NO `vm.assume` and NO forge-std `bound`, so you CANNOT reject an input. You must MAP every possible fuzz value into a valid domain with plain arithmetic at the very top of the function, so the ORIGINAL never reverts for ANY input \u{2014} otherwise the fuzzer finds a reverting case, the sanity suite fails, and your test is discarded. Bound conservatively:\n\u{b7} amounts / ids / counts: `amt = amt % 1000000 + 1;` (non-zero, comfortably within any supply or balance the body needs \u{2014} keep upper bounds small so repeated calls can't overflow the original's arithmetic).\n\u{b7} recipient addresses: `a = address(uint160(a) | 1);` to avoid address(0); if the body rejects the caller as recipient, also push it off address(this).\n- Fuzz ONLY free value/amount/recipient inputs. A parameter that must hold a fixed role \u{2014} above all the caller/owner, which is ALWAYS address(this) \u{2014} must stay a fixed literal, never a fuzz arg.\n- Every fuzzed call is a happy-path call on BOTH instances with the SAME bounded value; assert equality of returns and touched getters exactly as above. The revert-parity probe at the end still uses FIXED out-of-domain literals (not the fuzz inputs).\n- If a function takes no fuzzable input (e.g. a no-arg owner setter), just write it with no parameters and fixed literals \u{2014} fuzzing is optional, correctness is not.\n\nThe two examples below are for ERC721-style TOKEN contracts and are illustrations of SHAPE only \u{2014} the `mint`/`ownerOf`/`balanceOf`/`transfer` calls and the 999 bad-id probe are token-specific. Adapt the structure to the ACTUAL functions and getters of the provided ORIGINAL contract; if it is not a token, do not use any of these names.\n```solidity\nfunction test_eq_mint() public {\naddress a1 = address(0xBEEF);\naddress a2 = address(0xCAFE);\nuint256 r1o = o.mint(a1);\nuint256 r1p = p.mint(a1);\nrequire(r1o == r1p, \"ret1\");\nuint256 r2o = o.mint(a2);\nuint256 r2p = p.mint(a2);\nrequire(r2o == r2p, \"ret2\");\nrequire(o.ownerOf(r1o) == p.ownerOf(r1p), \"owner1\");\nrequire(o.ownerOf(r2o) == p.ownerOf(r2p), \"owner2\");\nrequire(o.balanceOf(a1) == p.balanceOf(a1), \"bal1\");\nrequire(o.balanceOf(a2) == p.balanceOf(a2), \"bal2\");\nrequire(o.totalSupply() == p.totalSupply(), \"supply\");\nbool ro; try o.transfer(a1, r1o) { ro = false; } catch { ro = true; }\nbool rp; try p.transfer(a1, r1p) { rp = false; } catch { rp = true; }\nrequire(ro == rp, \"revert parity\");\n}\n```\nOwner-gated example (note: mints to address(this), and mints ENOUGH for a balance the body decrements \u{2014} adapt the count to the original's arithmetic):\n```solidity\nfunction test_eq_transfer() public {\naddress self = address(this);\naddress dest = address(0xD15);\n// original transfer subtracts 5 from the caller's balance, so hold >= 5 first\nuint256 idO; uint256 idP;\nfor (uint256 i = 0; i < 5; i++) { idO = o.mint(self); idP = p.mint(self); }\no.transfer(dest, idO);\np.transfer(dest, idP);\nrequire(o.ownerOf(idO) == p.ownerOf(idP), \"owner\");\nrequire(o.balanceOf(self) == p.balanceOf(self), \"balSelf\");\nrequire(o.balanceOf(dest) == p.balanceOf(dest), \"balDest\");\nrequire(o.getApproved(idO) == p.getApproved(idP), \"approvalCleared\");\nbool ro; try o.transfer(dest, 999) { ro = false; } catch { ro = true; }\nbool rp; try p.transfer(dest, 999) { rp = false; } catch { rp = true; }\nrequire(ro == rp, \"revert parity\");\n}\n```\nFuzzed, NON-token example (note: bounds the input first so the original never reverts, destructures the struct-tuple getter, and keeps the caller as address(this)):\n```solidity\nfunction test_eq_stake(uint256 amount) public {\namount = amount % 1000000 + 1;\no.stake(amount);\np.stake(amount);\nrequire(o.totalStaked() == p.totalStaked(), \"staked\");\n(uint256 amtO,,) = o.stakes(address(this));\n(uint256 amtP,,) = p.stakes(address(this));\nrequire(amtO == amtP, \"amt\");\nbool ro; try o.stake(0) { ro = false; } catch { ro = true; }\nbool rp; try p.stake(0) { rp = false; } catch { rp = true; }\nrequire(ro == rp, \"revert parity\");\n}\n```\nReturn ONLY the function in a single ```solidity code block.";

/// What the verify agent is asked.
pub open spec fn test_request_text(name: Seq<char>, feedback: Seq<char>) -> Seq<char> {
    TEST_REQUEST_NAME@ + name + TEST_REQUEST_GOAL@ + name + TEST_REQUEST_PARAMETERS@ + name
        + TEST_REQUEST_RULES@ + name + TEST_REQUEST_RENAMING@ + name + TEST_REQUEST_FUZZING@
        + feedback
}

/// The request for the test of one function, with the feedback on a previous
/// attempt.
pub fn test_request(fn_name: &str, prev: Option<(&str, &str)>) -> (r: String)
    ensures
        r@ == test_request_text(fn_name@, feedback_text(attempt(prev))),
{
    let note = feedback(prev);
    let mut out = TEST_REQUEST_NAME.to_owned();
    out.append(fn_name);
    out.append(TEST_REQUEST_GOAL);
    out.append(fn_name);
    out.append(TEST_REQUEST_PARAMETERS);
    out.append(fn_name);
    out.append(TEST_REQUEST_RULES);
    out.append(fn_name);
    out.append(TEST_REQUEST_RENAMING);
    out.append(fn_name);
    out.append(TEST_REQUEST_FUZZING);
    out.append(note.as_str());
    out
}

/// The test that the verify agent wrote: the Solidity function text, fences
/// stripped.
pub fn gen_equivalence_test(result: Result<String, String>, fn_name: &str) -> (r: Result<
    String,
    String,
>)
    ensures
        match result {
            Ok(answer) => r matches Ok(body) && body@ == utils::code_of(answer@),
            Err(e) => r matches Err(m) && m@ == "[verify "@ + fn_name@ + "] agent prompt failed: "@
                + e@,
        },
{
    match result {
        Ok(answer) => Ok(strip_code_fences(answer.as_str())),
        Err(e) => {
            let mut m = "[verify ".to_owned();
            m.append(fn_name);
            m.append("] agent prompt failed: ");
            m.append(e.as_str());
            Err(m)
        },
    }
}

// ── the watch ────────────────────────────────────────────────────────────────

/// What follows an event in an agent's loop.
#[derive(PartialEq, Eq, Structural, Clone, Copy, Debug)]
pub enum Loop {
    Continue,
    Terminate,
}

/// Why the loop is ended early.
pub const EARLY_EXIT: &'static str = "forge_verify compiled \u{2014} skipping final turn";

/// Times every model call and tool call in an agent's loop, and ends the loop once
/// the forge tool reports a function that compiles. Times are in nanoseconds since
/// some fixed point.
pub struct TimingHook {
    pub turn: u64,
    pub llm_start: Option<u64>,
    pub tool_start: Option<u64>,
    pub llm_total: u64,
    pub tool_total: u64,
    /// Set to the verified function (from the tool-call args) the first time the
    /// tool reports `compiles:true`; signals the loop was terminated early.
    pub captured: Option<String>,
}

/// The time since `start`, nothing where the clock has not moved on.
pub open spec fn since(start: int, now: int) -> int {
    if now >= start {
        now - start
    } else {
        0
    }
}

/// A sum, at most the largest 64-bit number.
pub open spec fn capped_sum(a: int, b: int) -> int {
    if a + b > u64::MAX {
        u64::MAX as int
    } else {
        a + b
    }
}

fn elapsed(start: u64, now: u64) -> (r: u64)
    ensures
        r == since(start as int, now as int),
{
    if now >= start {
        now - start
    } else {
        0
    }
}

fn sum(a: u64, b: u64) -> (r: u64)
    ensures
        r == capped_sum(a as int, b as int),
{
    if a > u64::MAX - b {
        u64::MAX
    } else {
        a + b
    }
}

/// The tool's report says that the candidate compiles.
pub open spec fn reports_compiling(result: Result<Seq<FieldModel>, Seq<char>>) -> bool {
    match result {
        Ok(fields) => json::flag_at(fields, "compiles"@) == Some(true),
        Err(_) => false,
    }
}

/// The candidate that the tool was called with.
pub open spec fn submitted(args: Result<Seq<FieldModel>, Seq<char>>) -> Option<Seq<char>> {
    match args {
        Ok(fields) => json::text_at(fields, "optimized_function"@),
        Err(_) => None,
    }
}

/// The function that a tool call verified: the candidate of a call of the forge tool
/// that reports that it compiles.
pub open spec fn verified(
    tool: Seq<char>,
    result: Result<Seq<FieldModel>, Seq<char>>,
    args: Result<Seq<FieldModel>, Seq<char>>,
) -> Option<Seq<char>> {
    if tool == TOOL_NAME@ && reports_compiling(result) {
        match submitted(args) {
            Some(f) => Some(utils::code_of(f)),
            None => None,
        }
    } else {
        None
    }
}

/// Parsed fields as values.
pub open spec fn parsed(r: Result<Vec<JsonField>, String>) -> Result<Seq<FieldModel>, Seq<char>> {
    match r {
        Ok(fields) => Ok(json::field_models(fields@)),
        Err(e) => Err(e@),
    }
}

/// The function that a tool call verified, if any.
pub fn verified_function(
    tool: &str,
    result: &Result<Vec<JsonField>, String>,
    args: &Result<Vec<JsonField>, String>,
) -> (r: Option<String>)
    ensures
        text::opt_view(r) == verified(tool@, parsed(*result), parsed(*args)),
{
    if !same(tool, TOOL_NAME) {
        return None;
    }
    let compiles: bool = match result {
        Ok(fields) => match get_flag(fields, "compiles") {
            Some(b) => b,
            None => false,
        },
        Err(_) => false,
    };
    if !compiles {
        return None;
    }
    match args {
        Ok(fields) => match get_text(fields, "optimized_function") {
            Some(f) => Some(strip_code_fences(f.as_str())),
            None => None,
        },
        Err(_) => None,
    }
}

impl TimingHook {
    /// A watch on a loop that has not begun.
    pub fn new() -> (r: Self)
        ensures
            r.turn == 0,
            r.llm_start is None,
            r.tool_start is None,
            r.llm_total == 0,
            r.tool_total == 0,
            r.captured is None,
    {
        TimingHook {
            turn: 0,
            llm_start: None,
            tool_start: None,
            llm_total: 0,
            tool_total: 0,
            captured: None,
        }
    }

    /// `(turns, total model time, total in-loop tool time)`.
    pub fn summary(&self) -> (r: (u64, u64, u64))
        ensures
            r == (self.turn, self.llm_total, self.tool_total),
    {
        (self.turn, self.llm_total, self.tool_total)
    }

    /// The verified candidate captured on early exit, if any.
    pub fn captured(&self) -> (r: Option<String>)
        ensures
            text::opt_view(r) == text::opt_view(self.captured),
    {
        match &self.captured {
            Some(s) => Some(s.clone()),
            None => None,
        }
    }

    /// A model call begins: a new turn.
    pub fn on_completion_call(&mut self, now: u64)
        ensures
            final(self).turn == capped_sum(old(self).turn as int, 1),
            final(self).llm_start == Some(now),
            final(self).tool_start == old(self).tool_start,
            final(self).llm_total == old(self).llm_total,
            final(self).tool_total == old(self).tool_total,
            final(self).captured == old(self).captured,
    {
        self.turn = sum(self.turn, 1);
        self.llm_start = Some(now);
    }

    /// The model has answered: its time is added, and given back.
    pub fn on_completion_response(&mut self, now: u64) -> (r: Option<u64>)
        ensures
            match old(self).llm_start {
                Some(start) => r matches Some(d) && d == since(start as int, now as int)
                    && final(self).llm_total == capped_sum(old(self).llm_total as int, d as int),
                None => r is None && final(self).llm_total == old(self).llm_total,
            },
            final(self).llm_start is None,
            final(self).turn == old(self).turn,
            final(self).tool_start == old(self).tool_start,
            final(self).tool_total == old(self).tool_total,
            final(self).captured == old(self).captured,
    {
        match self.llm_start {
            Some(start) => {
                let d = elapsed(start, now);
                self.llm_total = sum(self.llm_total, d);
                self.llm_start = None;
                Some(d)
            },
            None => None,
        }
    }

    /// A tool call begins.
    pub fn on_tool_call(&mut self, now: u64)
        ensures
            final(self).tool_start == Some(now),
            final(self).turn == old(self).turn,
            final(self).llm_start == old(self).llm_start,
            final(self).llm_total == old(self).llm_total,
            final(self).tool_total == old(self).tool_total,
            final(self).captured == old(self).captured,
    {
        self.tool_start = Some(now);
    }

    /// A tool has answered: its time is added. Once the forge tool confirms that the
    /// candidate compiles, the verified function is in the tool-call args: it is
    /// captured and the loop ends, skipping the redundant model turn that would only
    /// re-emit the same code. On a compile failure the loop goes on so the model can
    /// refine using the returned errors.
    pub fn on_tool_result(&mut self, now: u64, tool: &str, args: &str, result: &str) -> (r: Loop)
        ensures
            match verified(tool@, json::document(result@), json::document(args@)) {
                Some(f) => r == Loop::Terminate && text::opt_view(final(self).captured) == Some(f),
                None => r == Loop::Continue && final(self).captured == old(self).captured,
            },
            final(self).tool_total == match old(self).tool_start {
                Some(start) => capped_sum(
                    old(self).tool_total as int,
                    since(start as int, now as int),
                ),
                None => old(self).tool_total as int,
            },
            final(self).tool_start is None,
            final(self).turn == old(self).turn,
            final(self).llm_start == old(self).llm_start,
            final(self).llm_total == old(self).llm_total,
    {
        if let Some(start) = self.tool_start {
            self.tool_total = sum(self.tool_total, elapsed(start, now));
            self.tool_start = None;
        }
        let result_fields = json::parse_fields(result);
        let args_fields = json::parse_fields(args);
        match verified_function(tool, &result_fields, &args_fields) {
            Some(f) => {
                self.captured = Some(f);
                Loop::Terminate
            },
            None => Loop::Continue,
        }
    }
}

// ── laws ─────────────────────────────────────────────────────────────────────

/// The loop only ends early with a function that the forge tool reports as
/// compiling.
pub proof fn law_early_exit_is_verified(
    tool: Seq<char>,
    result: Result<Seq<FieldModel>, Seq<char>>,
    args: Result<Seq<FieldModel>, Seq<char>>,
)
    requires
        verified(tool, result, args) is Some,
    ensures
        tool == TOOL_NAME@,
        reports_compiling(result),
        submitted(args) matches Some(f) && verified(tool, result, args) == Some(utils::code_of(f)),
{
}

/// The agents see what they work on: the storage, the declarations where there are any,
/// and the source between its fences.
pub proof fn law_contexts_hold_the_source(storage: Seq<char>, decls: Seq<char>, source: Seq<char>)
    ensures
        text::holds(function_context_text(storage, decls, source), storage),
        text::holds(
            function_context_text(storage, decls, source),
            "```solidity\n"@ + source + "\n```"@,
        ),
        text::holds(contract_context_text(storage, decls, source), storage),
        text::holds(
            contract_context_text(storage, decls, source),
            "```solidity\n"@ + source + "\n```"@,
        ),
        decls.len() > 0 ==> text::holds(function_context_text(storage, decls, source), decls),
        decls.len() > 0 ==> text::holds(contract_context_text(storage, decls, source), decls),
{
    let head = "STORAGE LAYOUT:\n"@ + storage + "\n\n"@;
    text::lemma_put_between("STORAGE LAYOUT:\n"@, storage, "\n\n"@);
    let block = declaration_block(decls);
    text::lemma_goes_on(head, block, storage);
    if decls.len() > 0 {
        text::lemma_put_between("FILE-LEVEL DECLARATIONS:\n"@, decls, "\n\n"@);
        let i = choose|i: int| text::occurs_at(block, decls, i);
        text::lemma_put_further(head, block, seq![], decls, i);
        assert(head + block + Seq::<char>::empty() =~= head + block);
        assert(text::holds(head + block, decls));
    }
    let f = "FUNCTION TO OPTIMIZE:\n```solidity\n"@;
    let c = "CONTRACT TO OPTIMIZE:\n```solidity\n"@;
    let fence = "```solidity\n"@;
    assert(f == "FUNCTION TO OPTIMIZE:\n"@ + fence) by {
        reveal_strlit("FUNCTION TO OPTIMIZE:\n```solidity\n");
        reveal_strlit("FUNCTION TO OPTIMIZE:\n");
        reveal_strlit("```solidity\n");
        assert(f =~= "FUNCTION TO OPTIMIZE:\n"@ + fence);
    }
    assert(c == "CONTRACT TO OPTIMIZE:\n"@ + fence) by {
        reveal_strlit("CONTRACT TO OPTIMIZE:\n```solidity\n");
        reveal_strlit("CONTRACT TO OPTIMIZE:\n");
        reveal_strlit("```solidity\n");
        assert(c =~= "CONTRACT TO OPTIMIZE:\n"@ + fence);
    }
    lemma_fenced_context(head + block, "FUNCTION TO OPTIMIZE:\n"@, source, storage);
    lemma_fenced_context(head + block, "CONTRACT TO OPTIMIZE:\n"@, source, storage);
    if decls.len() > 0 {
        lemma_fenced_context(head + block, "FUNCTION TO OPTIMIZE:\n"@, source, decls);
        lemma_fenced_context(head + block, "CONTRACT TO OPTIMIZE:\n"@, source, decls);
    }
}

proof fn lemma_four_parts(a: Seq<char>, b: Seq<char>, c: Seq<char>, d: Seq<char>, e: Seq<char>)
    ensures
        a + (b + c) + d + e == (a + b) + (c + d + e),
{
    assert(a + (b + c) + d + e =~= (a + b) + (c + d + e));
}

proof fn lemma_fenced_context(head: Seq<char>, title: Seq<char>, source: Seq<char>, p: Seq<char>)
    requires
        text::holds(head, p),
    ensures
        text::holds(head + (title + "```solidity\n"@) + source + "\n```"@, p),
        text::holds(
            head + (title + "```solidity\n"@) + source + "\n```"@,
            "```solidity\n"@ + source + "\n```"@,
        ),
{
    let fence = "```solidity\n"@;
    let end = "\n```"@;
    text::lemma_goes_on(head, title + fence, p);
    text::lemma_goes_on(head + (title + fence), source, p);
    text::lemma_goes_on(head + (title + fence) + source, end, p);
    lemma_four_parts(head, title, fence, source, end);
    text::lemma_ends(head + title, fence + source + end);
}

/// The verify agent sees the original, its state, the two instances under their own
/// types, and the function to test.
pub proof fn law_the_test_context_holds_its_parts(
    original: Seq<char>,
    storage: Seq<char>,
    orig_type: Seq<char>,
    opt_type: Seq<char>,
    signature: Seq<char>,
)
    ensures
        ({
            let c = test_context_text(original, storage, orig_type, opt_type, signature);
            &&& text::holds(c, original)
            &&& text::holds(c, storage)
            &&& text::holds(c, orig_type + " (original / oracle)\n- `p` of type "@ + opt_type)
            &&& text::holds(c, signature)
        }),
{
    let a = "ORIGINAL CONTRACT (the behavioural spec):\n```solidity\n"@;
    let b =
        "\n```\n\nPUBLIC STATE (these generate getters you can read for assertions):\n"@;
    let d =
        "\n\nThe test harness already deployed two instances with IDENTICAL interfaces:\n- `o` of type "@;
    let e = " (original / oracle)\n- `p` of type "@;
    let f = " (optimized / under test)\n\nTARGET FUNCTION: "@;
    let s1 = a + original;
    text::lemma_ends(a, original);
    let s2 = s1 + b;
    text::lemma_goes_on(s1, b, original);
    let s3 = s2 + storage;
    text::lemma_goes_on(s2, storage, original);
    text::lemma_ends(s2, storage);
    let s4 = s3 + d;
    text::lemma_goes_on(s3, d, original);
    text::lemma_goes_on(s3, d, storage);
    let types = orig_type + e + opt_type;
    let s5 = s4 + orig_type + e + opt_type;
    assert(s5 =~= s4 + types);
    text::lemma_goes_on(s4, types, original);
    text::lemma_goes_on(s4, types, storage);
    text::lemma_ends(s4, types);
    text::lemma_goes_on(s5, f, original);
    text::lemma_goes_on(s5, f, storage);
    text::lemma_goes_on(s5, f, types);
    let s6 = s5 + f;
    text::lemma_goes_on(s6, signature, original);
    text::lemma_goes_on(s6, signature, storage);
    text::lemma_goes_on(s6, signature, types);
    text::lemma_ends(s6, signature);
}

/// What the second of two texts holds, both together hold.
proof fn lemma_second_holds(s: Seq<char>, t: Seq<char>, p: Seq<char>)
    requires
        text::holds(t, p),
    ensures
        text::holds(s + t, p),
{
    let i = choose|i: int| text::occurs_at(t, p, i);
    text::lemma_put_further(s, t, seq![], p, i);
    assert(s + t + Seq::<char>::empty() =~= s + t);
}

proof fn lemma_feedback_holds(code: Seq<char>, failure: Seq<char>)
    ensures
        text::holds(feedback_text(Some((code, failure))), code),
        text::holds(feedback_text(Some((code, failure))), failure),
{
    let a =
        "\n\nYOUR PREVIOUS ATTEMPT WAS BROKEN \u{2014} it failed even when both `o` and `p` were the ORIGINAL contract, so the fault is in the TEST's preconditions or arithmetic, not in either contract.\nFailure: "@;
    let b = "\nPrevious test:\n```solidity\n"@;
    let c =
        "\n```\nTrace the ORIGINAL contract's requires and arithmetic with the exact literals that test used, find the line that reverts or the assertion that cannot hold, and return a corrected test."@;
    text::lemma_ends(a, failure);
    text::lemma_goes_on(a + failure, b, failure);
    text::lemma_goes_on(a + failure + b, code, failure);
    text::lemma_goes_on(a + failure + b + code, c, failure);
    text::lemma_ends(a + failure + b, code);
    text::lemma_goes_on(a + failure + b + code, c, code);
}

proof fn lemma_request_start(name: Seq<char>)
    ensures
        text::holds(TEST_REQUEST_NAME@ + name, "named `test_eq_"@ + name),
{
    let t = TEST_REQUEST_NAME@;
    let m = "named `test_eq_"@;
    let n = t.len() - m.len();
    assert(n >= 0 && t == t.take(n) + m) by {
        reveal_strlit("Write exactly ONE Solidity function named `test_eq_");
        reveal_strlit("named `test_eq_");
        assert(t =~= t.take(n) + m);
    }
    text::lemma_ends(t.take(n), m + name);
    assert(t.take(n) + m + name =~= t.take(n) + (m + name));
}

proof fn lemma_two_more(s: Seq<char>, t: Seq<char>, u: Seq<char>, p: Seq<char>)
    requires
        text::holds(s, p),
    ensures
        text::holds(s + t + u, p),
{
    text::lemma_goes_on(s, t, p);
    text::lemma_goes_on(s + t, u, p);
}

/// An agent whose test was broken gets the test and the failure back, with the request;
/// the request names the test that is to be written.
pub proof fn law_feedback_reaches_the_agent(name: Seq<char>, code: Seq<char>, failure: Seq<char>)
    ensures
        text::holds(test_request_text(name, feedback_text(Some((code, failure)))), code),
        text::holds(test_request_text(name, feedback_text(Some((code, failure)))), failure),
        text::holds(test_request_text(name, feedback_text(None)), "named `test_eq_"@ + name),
{
    let s0 = TEST_REQUEST_NAME@ + name;
    let s1 = s0 + TEST_REQUEST_GOAL@ + name;
    let s2 = s1 + TEST_REQUEST_PARAMETERS@ + name;
    let s3 = s2 + TEST_REQUEST_RULES@ + name;
    let s4 = s3 + TEST_REQUEST_RENAMING@ + name;
    let r = s4 + TEST_REQUEST_FUZZING@;
    lemma_feedback_holds(code, failure);
    lemma_second_holds(r, feedback_text(Some((code, failure))), code);
    lemma_second_holds(r, feedback_text(Some((code, failure))), failure);
    let p = "named `test_eq_"@ + name;
    lemma_request_start(name);
    lemma_two_more(s0, TEST_REQUEST_GOAL@, name, p);
    lemma_two_more(s1, TEST_REQUEST_PARAMETERS@, name, p);
    lemma_two_more(s2, TEST_REQUEST_RULES@, name, p);
    lemma_two_more(s3, TEST_REQUEST_RENAMING@, name, p);
    lemma_two_more(s4, TEST_REQUEST_FUZZING@, feedback_text(None), p);
}

/// A call of the forge tool verifies a candidate exactly where the report has the flag
/// `compiles` set and the call has a candidate; what is kept is the candidate's code.
pub proof fn law_a_compiling_candidate_is_kept(
    tool: Seq<char>,
    result: Seq<FieldModel>,
    args: Seq<FieldModel>,
    k: int,
    a: int,
    candidate: Seq<char>,
)
    requires
        json::unique_keys(result),
        json::unique_keys(args),
        0 <= k < result.len(),
        result[k].key == "compiles"@,
        0 <= a < args.len(),
        args[a].key == "optimized_function"@,
        args[a].text == Some(candidate),
    ensures
        tool == "forge_verify"@ && result[k].flag == Some(true) ==> verified(
            tool,
            Ok(result),
            Ok(args),
        ) == Some(utils::code_of(candidate)),
        tool != "forge_verify"@ || result[k].flag != Some(true) ==> verified(
            tool,
            Ok(result),
            Ok(args),
        ) is None,
{
    json::law_fields_are_found_by_their_key(result, k);
    json::law_fields_are_found_by_their_key(args, a);
}

/// Time is counted as it passes: never below zero, and totals only grow.
pub proof fn law_time_is_counted(start: int, passed: int, total: int)
    requires
        passed >= 0,
        0 <= total <= u64::MAX,
    ensures
        since(start, start + passed) == passed,
        since(start + passed, start) == 0,
        capped_sum(total, passed) >= total,
        total + passed <= u64::MAX ==> capped_sum(total, passed) == total + passed,
{
}

} // verus!
