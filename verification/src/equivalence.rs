//! Behavioural equivalence: the differential test file, how its results are read,
//! and what they prove about each function.

use crate::constructor::{self, synthesize_constructor_args};
use crate::forge::{self, ProcessOutput, SandboxProject};
use crate::gas::{self, FunctionGas};
use crate::order::{self, sort_unique};
use crate::split::{self, join, lines};
use crate::text::{self, contains, same, starts_with, trim};
use vstd::prelude::*;

verus! {

broadcast use vstd::seq::group_seq_axioms;

// ── results ──────────────────────────────────────────────────────────────────

/// Result of a differential equivalence run: per-function PASS/FAIL plus the
/// (kept) construction-gas comparison.
///
/// Every generated test runs in TWO suites: `EquivalenceTest` (original `o` vs
/// optimized `p`) and `SanityTest` (original vs a second original). A test that
/// fails the sanity suite is a broken test (bad preconditions, wrong arithmetic),
/// not a finding; it is reported in `invalid` and excluded from gating, so a
/// buggy generated test can never falsely reject a good optimization.
///
/// A function is only PROVEN equivalent when it has a test that passed both
/// suites. `invalid` (broken test) and `missing` (no test at all) are both
/// *absence of proof*, not proof of correctness; [`EquivResult::unverified`]
/// unions them, and the caller must surface that set rather than silently
/// counting only the tests that happened to exist.
#[derive(Debug)]
pub struct EquivResult {
    pub compiles: bool,
    pub errors: Vec<String>,
    /// True only when it compiled, at least one valid test ran, and every valid
    /// test passed. Says NOTHING about coverage: check `unverified()` too.
    pub all_passed: bool,
    /// Function names with a GENUINE behavioural divergence (sanity passed,
    /// equivalence failed).
    pub failed: Vec<String>,
    /// Function names whose test was itself broken (failed against original-vs-
    /// original); excluded from gating.
    pub invalid: Vec<String>,
    /// For each broken test, in the order of `invalid`, the function and the
    /// sanity-suite `[FAIL...]` line (revert reason), fed back to the verify agent
    /// when regenerating the test.
    pub invalid_reasons: Vec<(String, String)>,
    /// Target functions for which no equivalence test was ever generated (the
    /// verify agent errored or returned an empty body). Filled in by the caller:
    /// a test run only ever sees the tests that DO exist, so it cannot know what
    /// is absent.
    pub missing: Vec<String>,
    /// Number of tests that were valid (passed sanity) and therefore counted.
    pub valid_count: usize,
    pub gas_original: Option<u64>,
    pub gas_optimized: Option<u64>,
    pub gas_saved: Option<i64>,
    /// Real per-function runtime gas (original vs optimized), from `--gas-report`.
    pub per_function_gas: Vec<FunctionGas>,
    pub forge_output: String,
}

impl Default for EquivResult {
    fn default() -> (r: Self)
        ensures
            !r.compiles,
            r.errors@.len() == 0,
            !r.all_passed,
            r.failed@.len() == 0,
            r.invalid@.len() == 0,
            r.invalid_reasons@.len() == 0,
            r.missing@.len() == 0,
            r.valid_count == 0,
            r.gas_original is None,
            r.gas_optimized is None,
            r.gas_saved is None,
            r.per_function_gas@.len() == 0,
            r.forge_output@.len() == 0,
    {
        EquivResult {
            compiles: false,
            errors: Vec::new(),
            all_passed: false,
            failed: Vec::new(),
            invalid: Vec::new(),
            invalid_reasons: Vec::new(),
            missing: Vec::new(),
            valid_count: 0,
            gas_original: None,
            gas_optimized: None,
            gas_saved: None,
            per_function_gas: Vec::new(),
            forge_output: String::new(),
        }
    }
}

impl EquivResult {
    /// The functions without proof, in dictionary order, each once.
    pub open spec fn unproven(self) -> Seq<Seq<char>> {
        order::sorted_unique(text::views(self.invalid@) + text::views(self.missing@))
    }

    /// Target functions with no valid passing equivalence test: broken tests
    /// (`invalid`) plus never-generated ones (`missing`). Both mean "we did not
    /// prove this function equivalent".
    pub fn unverified(&self) -> (r: Vec<String>)
        ensures
            text::views(r@) == self.unproven(),
    {
        let mut all: Vec<String> = Vec::new();
        append_copies(&mut all, &self.invalid);
        append_copies(&mut all, &self.missing);
        proof {
            assert(text::views(all@) =~= text::views(self.invalid@) + text::views(self.missing@));
        }
        sort_unique(&all)
    }
}

/// Appends a copy of each string.
pub fn append_copies(out: &mut Vec<String>, list: &Vec<String>)
    ensures
        text::views(final(out)@) == text::views(old(out)@) + text::views(list@),
{
    let ghost before = text::views(out@);
    let ghost ls = text::views(list@);
    let mut i: usize = 0;
    proof {
        assert(before + ls.take(0) =~= before);
    }
    while i < list.len()
        invariant
            i <= list@.len(),
            ls == text::views(list@),
            text::views(out@) == before + ls.take(i as int),
        decreases list.len() - i,
    {
        let s = list[i].clone();
        proof {
            text::lemma_views_push(out@, s);
            assert((before + ls.take(i as int)).push(s@) =~= before + ls.take(i + 1));
        }
        out.push(s);
        i += 1;
    }
    proof {
        assert(ls.take(ls.len() as int) =~= ls);
    }
}

// ── the test file ────────────────────────────────────────────────────────────

/// The names of a list of tests.
pub open spec fn names(tests: Seq<(String, String)>) -> Seq<Seq<char>> {
    Seq::new(tests.len(), |i: int| tests[i].0@)
}

/// The bodies of a list of tests.
pub open spec fn bodies(tests: Seq<(String, String)>) -> Seq<Seq<char>> {
    Seq::new(tests.len(), |i: int| tests[i].1@)
}

/// The differential test file.
pub open spec fn equivalence_test(
    orig: Seq<char>,
    opt: Seq<char>,
    tests: Seq<Seq<char>>,
    args: Seq<char>,
) -> Seq<char> {
    let body = split::joined(tests, "\n\n"@);
    "// SPDX-License-Identifier: MIT\npragma solidity ^0.8.0;\nimport \"../src/Original.sol\";\nimport \"../src/Optimized.sol\";\n\ncontract EquivalenceTest {\n    "@
        + orig + " o;\n    "@ + opt + " p;\n    function setUp() public { o = new "@ + orig + "("@
        + args + "); p = new "@ + opt + "("@ + args
        + "); }\n    function test_gas_original() external { new "@ + orig + "("@ + args
        + "); }\n    function test_gas_optimized() external { new "@ + opt + "("@ + args
        + "); }\n\n"@ + body + "\n}\n\ncontract SanityTest {\n    "@ + orig + " o;\n    "@ + orig
        + " p;\n    function setUp() public { o = new "@ + orig + "("@ + args + "); p = new "@ + orig
        + "("@ + args + "); }\n\n"@ + body + "\n}\n"@
}

/// Assemble the differential test file. Two suites share the same generated
/// `test_eq_*` bodies (they reference only the `o`/`p` instance variables):
/// - `EquivalenceTest`: `o` = original, `p` = optimized; the real comparison, plus the
///   `test_gas_*` construction-gas pair.
/// - `SanityTest`: `o` and `p` are BOTH the original; a test that fails here is broken by
///   construction and must not gate the optimization.
pub fn build_equivalence_test(
    orig_name: &str,
    opt_name: &str,
    test_bodies: &Vec<String>,
    ctor_args: &str,
) -> (r: String)
    ensures
        r@ == equivalence_test(orig_name@, opt_name@, text::views(test_bodies@), ctor_args@),
{
    let body = join(test_bodies, "\n\n");
    let mut out =
        "// SPDX-License-Identifier: MIT\npragma solidity ^0.8.0;\nimport \"../src/Original.sol\";\nimport \"../src/Optimized.sol\";\n\ncontract EquivalenceTest {\n    ".to_owned();
    out.append(orig_name);
    out.append(" o;\n    ");
    out.append(opt_name);
    out.append(" p;\n    function setUp() public { o = new ");
    out.append(orig_name);
    out.append("(");
    out.append(ctor_args);
    out.append("); p = new ");
    out.append(opt_name);
    out.append("(");
    out.append(ctor_args);
    out.append("); }\n    function test_gas_original() external { new ");
    out.append(orig_name);
    out.append("(");
    out.append(ctor_args);
    out.append("); }\n    function test_gas_optimized() external { new ");
    out.append(opt_name);
    out.append("(");
    out.append(ctor_args);
    out.append("); }\n\n");
    out.append(body.as_str());
    out.append("\n}\n\ncontract SanityTest {\n    ");
    out.append(orig_name);
    out.append(" o;\n    ");
    out.append(orig_name);
    out.append(" p;\n    function setUp() public { o = new ");
    out.append(orig_name);
    out.append("(");
    out.append(ctor_args);
    out.append("); p = new ");
    out.append(orig_name);
    out.append("(");
    out.append(ctor_args);
    out.append("); }\n\n");
    out.append(body.as_str());
    out.append("\n}\n");
    out
}

// ── suites ───────────────────────────────────────────────────────────────────

/// The suite that a header line announces.
pub open spec fn announced(line: Seq<char>) -> Option<Seq<char>> {
    let parts = split::pieces_of(line, " for "@);
    if text::has_prefix(line, "Ran "@) && parts.len() > 1 && split::pieces_of(parts[1], ":"@).len()
        > 1 {
        Some(text::trimmed(split::pieces_of(parts[1], ":"@)[1]))
    } else {
        None
    }
}

/// A line that gives the result of one test.
pub open spec fn is_result(line: Seq<char>) -> bool {
    text::has_prefix(line, "[PASS]"@) || text::has_prefix(line, "[FAIL"@)
}

/// The suite announced last.
pub open spec fn running(lines: Seq<Seq<char>>) -> Option<Seq<char>>
    decreases lines.len(),
{
    if lines.len() == 0 {
        None
    } else {
        match announced(lines.last()) {
            Some(suite) => Some(suite),
            None => running(lines.drop_last()),
        }
    }
}

/// The result lines that stand under the given suite.
pub open spec fn results_of(lines: Seq<Seq<char>>, suite: Seq<char>) -> Seq<Seq<char>>
    decreases lines.len(),
{
    if lines.len() == 0 {
        seq![]
    } else {
        let head = results_of(lines.drop_last(), suite);
        if announced(lines.last()) is None && is_result(lines.last()) && running(lines.drop_last())
            == Some(suite) {
            head.push(lines.last())
        } else {
            head
        }
    }
}

/// The result lines of one suite.
pub struct SuiteResults {
    pub suite: String,
    pub lines: Vec<String>,
}

/// The first entry of the given suite.
pub open spec fn suite_index(list: Seq<SuiteResults>, suite: Seq<char>, from: int) -> Option<int>
    decreases list.len() - from,
{
    if from < 0 || from >= list.len() {
        None
    } else if list[from].suite@ == suite {
        Some(from)
    } else {
        suite_index(list, suite, from + 1)
    }
}

/// The lines filed under the given suite.
pub open spec fn filed(list: Seq<SuiteResults>, suite: Seq<char>) -> Seq<Seq<char>> {
    match suite_index(list, suite, 0) {
        Some(i) => text::views(list[i].lines@),
        None => seq![],
    }
}

proof fn lemma_suite_index(list: Seq<SuiteResults>, suite: Seq<char>, from: int)
    requires
        0 <= from,
    ensures
        match suite_index(list, suite, from) {
            Some(i) => from <= i < list.len() && list[i].suite@ == suite && forall|k: int|
                from <= k < i ==> (#[trigger] list[k]).suite@ != suite,
            None => forall|k: int|
                from <= k < list.len() ==> (#[trigger] list[k]).suite@ != suite,
        },
    decreases list.len() - from,
{
    if from < list.len() && list[from].suite@ != suite {
        lemma_suite_index(list, suite, from + 1);
    }
}

proof fn lemma_filed_at(list: Seq<SuiteResults>, suite: Seq<char>, i: int)
    requires
        0 <= i < list.len(),
        list[i].suite@ == suite,
        forall|k: int| 0 <= k < i ==> (#[trigger] list[k]).suite@ != suite,
    ensures
        suite_index(list, suite, 0) == Some(i),
{
    lemma_suite_index(list, suite, 0);
}

/// No two entries are of the same suite.
pub open spec fn distinct_suites(list: Seq<SuiteResults>) -> bool {
    forall|i: int, j: int|
        0 <= i < j < list.len() ==> (#[trigger] list[i]).suite@ != (#[trigger] list[j]).suite@
}

/// Every entry holds a result line.
pub open spec fn all_filled(list: Seq<SuiteResults>) -> bool {
    forall|i: int| 0 <= i < list.len() ==> (#[trigger] list[i]).lines@.len() > 0
}

/// The suite that a header line announces, such as
/// `Ran 5 tests for test/Equivalence.t.sol:EquivalenceTest`.
fn read_announcement(line: &str) -> (r: Option<String>)
    ensures
        text::opt_view(r) == announced(line@),
{
    proof {
        reveal_strlit(" for ");
        reveal_strlit(":");
    }
    if !starts_with(line, "Ran ") {
        return None;
    }
    let parts = split::split(line, " for ");
    if parts.len() < 2 {
        return None;
    }
    proof {
        assert(text::views(parts@)[1] == parts@[1]@);
    }
    let pieces = split::split(parts[1].as_str(), ":");
    if pieces.len() < 2 {
        return None;
    }
    proof {
        assert(text::views(pieces@)[1] == pieces@[1]@);
    }
    Some(trim(pieces[1].as_str()))
}

/// Files a result line under its suite.
fn file_line(list: &mut Vec<SuiteResults>, suite: &str, line: &str)
    requires
        distinct_suites(old(list)@),
        all_filled(old(list)@),
    ensures
        distinct_suites(final(list)@),
        all_filled(final(list)@),
        filed(final(list)@, suite@) == filed(old(list)@, suite@).push(line@),
        forall|other: Seq<char>|
            other != suite@ ==> #[trigger] filed(final(list)@, other) == filed(old(list)@, other),
{
    let ghost before = list@;
    let mut i: usize = 0;
    while i < list.len()
        invariant
            i <= list@.len(),
            list@ == before,
            before == old(list)@,
            distinct_suites(before),
            all_filled(before),
            forall|k: int| 0 <= k < i ==> (#[trigger] before[k]).suite@ != suite@,
        decreases list.len() - i,
    {
        if same(list[i].suite.as_str(), suite) {
            let mut kept: Vec<String> = Vec::new();
            append_copies(&mut kept, &list[i].lines);
            kept.push(line.to_owned());
            let entry = SuiteResults { suite: suite.to_owned(), lines: kept };
            list.set(i, entry);
            proof {
                assert(text::views(kept@) =~= text::views(before[i as int].lines@).push(line@));
                lemma_filed_at(before, suite@, i as int);
                lemma_filed_at(list@, suite@, i as int);
                assert forall|other: Seq<char>| other != suite@ implies #[trigger] filed(
                    list@,
                    other,
                ) == filed(before, other) by {
                    lemma_suite_index(before, other, 0);
                    lemma_suite_index(list@, other, 0);
                    assert forall|k: int| 0 <= k < before.len() && k != i implies list@[k]
                        == #[trigger] before[k] by {}
                    match suite_index(before, other, 0) {
                        Some(k) => {
                            assert(list@[k] == before[k]);
                        },
                        None => {
                            match suite_index(list@, other, 0) {
                                Some(k) => {
                                    assert(list@[k] == before[k]);
                                },
                                None => {},
                            }
                        },
                    }
                }
            }
            return;
        }
        i += 1;
    }
    let mut kept: Vec<String> = Vec::new();
    kept.push(line.to_owned());
    let entry = SuiteResults { suite: suite.to_owned(), lines: kept };
    list.push(entry);
    proof {
        assert(text::views(kept@) =~= seq![line@]);
        lemma_suite_index(before, suite@, 0);
        lemma_filed_at(list@, suite@, before.len() as int);
        assert(filed(list@, suite@) =~= filed(before, suite@).push(line@));
        assert forall|other: Seq<char>| other != suite@ implies #[trigger] filed(list@, other)
            == filed(before, other) by {
            lemma_suite_index(before, other, 0);
            lemma_suite_index(list@, other, 0);
            match suite_index(before, other, 0) {
                Some(k) => {
                    assert(list@[k] == before[k]);
                },
                None => {
                    match suite_index(list@, other, 0) {
                        Some(k) => {
                            if k < before.len() {
                                assert(list@[k] == before[k]);
                            }
                        },
                        None => {},
                    }
                },
            }
        }
    }
}

/// Group forge's `[PASS]`/`[FAIL...]` result lines by test suite. Suite headers
/// look like `Ran 5 tests for test/Equivalence.t.sol:EquivalenceTest`. A suite is
/// listed once, and only where it has a result.
pub fn suite_result_lines(output: &str) -> (r: Vec<SuiteResults>)
    ensures
        distinct_suites(r@),
        all_filled(r@),
        forall|suite: Seq<char>| #[trigger]
            filed(r@, suite) == results_of(split::lines_of(output@), suite),
{
    let all = lines(output);
    let ghost ls = text::views(all@);
    let mut list: Vec<SuiteResults> = Vec::new();
    let mut current: Option<String> = None;
    let mut i: usize = 0;
    proof {
        assert(running(ls.take(0)) is None);
    }
    while i < all.len()
        invariant
            i <= all@.len(),
            ls == text::views(all@),
            ls == split::lines_of(output@),
            distinct_suites(list@),
            all_filled(list@),
            text::opt_view(current) == running(ls.take(i as int)),
            forall|suite: Seq<char>| #[trigger]
                filed(list@, suite) == results_of(ls.take(i as int), suite),
        decreases all.len() - i,
    {
        let line = all[i].as_str();
        proof {
            assert(ls.take(i + 1).drop_last() =~= ls.take(i as int));
            assert(ls.take(i + 1).last() == line@);
        }
        match read_announcement(line) {
            Some(suite) => {
                current = Some(suite);
            },
            None => {
                if starts_with(line, "[PASS]") || starts_with(line, "[FAIL") {
                    if let Some(suite) = &current {
                        file_line(&mut list, suite.as_str(), line);
                    }
                }
            },
        }
        i += 1;
    }
    proof {
        assert(ls.take(ls.len() as int) =~= ls);
    }
    list
}

/// A copy of the lines filed under a suite.
fn lines_under(list: &Vec<SuiteResults>, suite: &str) -> (r: Vec<String>)
    ensures
        text::views(r@) == filed(list@, suite@),
{
    let mut i: usize = 0;
    while i < list.len()
        invariant
            i <= list@.len(),
            forall|k: int| 0 <= k < i ==> (#[trigger] list@[k]).suite@ != suite@,
        decreases list.len() - i,
    {
        if same(list[i].suite.as_str(), suite) {
            let mut out: Vec<String> = Vec::new();
            append_copies(&mut out, &list[i].lines);
            proof {
                lemma_filed_at(list@, suite@, i as int);
                assert(text::views(out@) =~= text::views(list@[i as int].lines@));
            }
            return out;
        }
        i += 1;
    }
    let none: Vec<String> = Vec::new();
    proof {
        lemma_suite_index(list@, suite@, 0);
        assert(text::views(none@) =~= seq![]);
    }
    none
}

// ── results per function ─────────────────────────────────────────────────────

/// How a function's test is named in a result line.
pub open spec fn needle(name: Seq<char>) -> Seq<char> {
    "test_eq_"@ + name + "("@
}

/// The function's test passed in a suite.
pub open spec fn passed(results: Seq<Seq<char>>, name: Seq<char>) -> bool {
    exists|i: int|
        0 <= i < results.len() && text::has_prefix(#[trigger] results[i], "[PASS]"@) && text::holds(
            results[i],
            needle(name),
        )
}

fn make_needle(name: &str) -> (r: String)
    ensures
        r@ == needle(name@),
{
    let mut out = "test_eq_".to_owned();
    out.append(name);
    out.append("(");
    out
}

/// Whether `test_eq_<name>` passed within one suite's result lines. Matches on
/// `test_eq_<name>(` so `transfer` cannot collide with `transferFrom`.
pub fn suite_test_passed(results: &Vec<String>, fn_name: &str) -> (r: bool)
    ensures
        r == passed(text::views(results@), fn_name@),
{
    let n = make_needle(fn_name);
    let ghost rs = text::views(results@);
    let mut i: usize = 0;
    while i < results.len()
        invariant
            i <= results@.len(),
            rs == text::views(results@),
            n@ == needle(fn_name@),
            forall|k: int|
                0 <= k < i ==> !(text::has_prefix(#[trigger] rs[k], "[PASS]"@) && text::holds(
                    rs[k],
                    n@,
                )),
        decreases results.len() - i,
    {
        let line = results[i].as_str();
        if starts_with(line, "[PASS]") && contains(line, n.as_str()) {
            proof {
                assert(rs[i as int] == line@);
            }
            return true;
        }
        i += 1;
    }
    false
}

/// Why the function's test failed in a suite: its failure line.
pub open spec fn failure_reason(results: Seq<Seq<char>>, name: Seq<char>) -> Seq<char>
    decreases results.len(),
{
    if results.len() == 0 {
        "test produced no result"@
    } else if text::has_prefix(results[0], "[FAIL"@) && text::holds(results[0], needle(name)) {
        results[0]
    } else {
        failure_reason(results.skip(1), name)
    }
}

fn find_failure(results: &Vec<String>, name: &str) -> (r: String)
    ensures
        r@ == failure_reason(text::views(results@), name@),
{
    let n = make_needle(name);
    let ghost rs = text::views(results@);
    let mut i: usize = 0;
    proof {
        assert(rs.skip(0) =~= rs);
    }
    while i < results.len()
        invariant
            i <= results@.len(),
            rs == text::views(results@),
            n@ == needle(name@),
            failure_reason(rs.skip(i as int), name@) == failure_reason(rs, name@),
        decreases results.len() - i,
    {
        let line = results[i].as_str();
        proof {
            assert(rs.skip(i as int)[0] == line@);
            assert(rs.skip(i as int).skip(1) =~= rs.skip(i + 1));
        }
        if starts_with(line, "[FAIL") && contains(line, n.as_str()) {
            return line.to_owned();
        }
        i += 1;
    }
    "test produced no result".to_owned()
}

/// The functions whose test is broken: it does not pass the sanity suite.
pub open spec fn broken(tests: Seq<Seq<char>>, sanity: Seq<Seq<char>>) -> Seq<Seq<char>> {
    tests.filter(|n: Seq<char>| !passed(sanity, n))
}

/// The functions that diverge: the test passes the sanity suite, and fails on the
/// optimized contract.
pub open spec fn divergent(
    tests: Seq<Seq<char>>,
    sanity: Seq<Seq<char>>,
    eq: Seq<Seq<char>>,
) -> Seq<Seq<char>> {
    tests.filter(|n: Seq<char>| passed(sanity, n) && !passed(eq, n))
}

/// Each broken test with the reason.
pub open spec fn broken_reasons(tests: Seq<Seq<char>>, sanity: Seq<Seq<char>>) -> Seq<
    (Seq<char>, Seq<char>),
> {
    broken(tests, sanity).map_values(|n: Seq<char>| (n, failure_reason(sanity, n)))
}

/// What the two suites say about each test.
struct Classified {
    failed: Vec<String>,
    invalid: Vec<String>,
    reasons: Vec<(String, String)>,
}

proof fn lemma_broken_push(tests: Seq<Seq<char>>, sanity: Seq<Seq<char>>, name: Seq<char>)
    ensures
        broken(tests.push(name), sanity) == (if !passed(sanity, name) {
            broken(tests, sanity).push(name)
        } else {
            broken(tests, sanity)
        }),
        broken_reasons(tests.push(name), sanity) == (if !passed(sanity, name) {
            broken_reasons(tests, sanity).push((name, failure_reason(sanity, name)))
        } else {
            broken_reasons(tests, sanity)
        }),
{
    reveal(Seq::filter);
    assert(tests.push(name).drop_last() =~= tests);
    assert(broken(tests, sanity).push(name).map_values(
        |n: Seq<char>| (n, failure_reason(sanity, n)),
    ) =~= broken_reasons(tests, sanity).push((name, failure_reason(sanity, name))));
}

proof fn lemma_divergent_push(
    tests: Seq<Seq<char>>,
    sanity: Seq<Seq<char>>,
    eq: Seq<Seq<char>>,
    name: Seq<char>,
)
    ensures
        divergent(tests.push(name), sanity, eq) == (if passed(sanity, name) && !passed(eq, name) {
            divergent(tests, sanity, eq).push(name)
        } else {
            divergent(tests, sanity, eq)
        }),
{
    reveal(Seq::filter);
    assert(tests.push(name).drop_last() =~= tests);
}

/// Classify per function from the per-suite results:
/// - fails SanityTest (original vs original): broken test
/// - passes SanityTest, fails EquivalenceTest: genuine divergence
/// - passes both: equivalent
fn classify(
    tests: &Vec<(String, String)>,
    sanity: &Vec<String>,
    eq: &Vec<String>,
) -> (r: Classified)
    ensures
        text::views(r.failed@) == divergent(
            names(tests@),
            text::views(sanity@),
            text::views(eq@),
        ),
        text::views(r.invalid@) == broken(names(tests@), text::views(sanity@)),
        text::pair_views(r.reasons@) == broken_reasons(names(tests@), text::views(sanity@)),
        r.invalid@.len() <= tests@.len(),
{
    let ghost ns = names(tests@);
    let ghost sn = text::views(sanity@);
    let ghost eqs = text::views(eq@);
    let mut failed: Vec<String> = Vec::new();
    let mut invalid: Vec<String> = Vec::new();
    let mut reasons: Vec<(String, String)> = Vec::new();
    let mut i: usize = 0;
    proof {
        reveal(Seq::filter);
        assert(text::views(failed@) =~= divergent(ns.take(0), sn, eqs));
        assert(text::views(invalid@) =~= broken(ns.take(0), sn));
        assert(text::pair_views(reasons@) =~= broken_reasons(ns.take(0), sn));
    }
    while i < tests.len()
        invariant
            i <= tests@.len(),
            ns == names(tests@),
            sn == text::views(sanity@),
            eqs == text::views(eq@),
            text::views(failed@) == divergent(ns.take(i as int), sn, eqs),
            text::views(invalid@) == broken(ns.take(i as int), sn),
            text::pair_views(reasons@) == broken_reasons(ns.take(i as int), sn),
            invalid@.len() <= i,
        decreases tests.len() - i,
    {
        let name = tests[i].0.as_str();
        proof {
            assert(ns.take(i + 1) =~= ns.take(i as int).push(name@));
            lemma_broken_push(ns.take(i as int), sn, name@);
            lemma_divergent_push(ns.take(i as int), sn, eqs, name@);
        }
        if !suite_test_passed(sanity, name) {
            let reason = find_failure(sanity, name);
            let n1 = name.to_owned();
            let n2 = name.to_owned();
            proof {
                text::lemma_views_push(invalid@, n2);
                assert(text::pair_views(reasons@.push((n1, reason))) =~= text::pair_views(
                    reasons@,
                ).push((n1@, reason@)));
            }
            reasons.push((n1, reason));
            invalid.push(n2);
        } else if !suite_test_passed(eq, name) {
            let n = name.to_owned();
            proof {
                text::lemma_views_push(failed@, n);
            }
            failed.push(n);
        }
        i += 1;
    }
    proof {
        assert(ns.take(ns.len() as int) =~= ns);
    }
    Classified { failed, invalid, reasons }
}

// ── the equivalence run ──────────────────────────────────────────────────────

/// What follows the build of an equivalence run.
pub enum EquivStep {
    /// The run cannot go on.
    Fail(String),
    /// The contracts do not compile: the result is known.
    Respond(EquivResult),
    /// Write `test/Equivalence.t.sol` and run the tests.
    Test(String),
}

/// The result of a run whose build failed with the given output.
pub open spec fn is_build_result(r: EquivResult, out: ProcessOutput) -> bool {
    let combined = out.stdout@ + out.stderr@;
    &&& !r.compiles
    &&& text::views(r.errors@) == forge::forge_errors(combined)
    &&& !r.all_passed
    &&& r.failed@.len() == 0
    &&& r.invalid@.len() == 0
    &&& r.invalid_reasons@.len() == 0
    &&& r.missing@.len() == 0
    &&& r.valid_count == 0
    &&& r.gas_original is None
    &&& r.gas_optimized is None
    &&& r.gas_saved is None
    &&& r.per_function_gas@.len() == 0
    &&& r.forge_output@ == combined
}

/// Decides what follows the build of an equivalence run. The contracts are built
/// ALONE first, so a compile failure here is unambiguously the optimized contract's
/// fault, not the generated tests'.
pub fn after_build(
    project: &SandboxProject,
    original: &str,
    tests: &Vec<(String, String)>,
    build: Result<ProcessOutput, String>,
) -> (r: EquivStep)
    ensures
        match build {
            Err(e) => r matches EquivStep::Fail(m) && m@ == forge::build_failure(e@),
            Ok(out) => if out.success {
                r matches EquivStep::Test(file) && file@ == equivalence_test(
                    project.orig_name@,
                    project.opt_name@,
                    bodies(tests@),
                    constructor::constructor_args(original@),
                )
            } else {
                r matches EquivStep::Respond(er) && is_build_result(er, out)
            },
        },
{
    match build {
        Err(e) => EquivStep::Fail(forge::build_failure_message(e.as_str())),
        Ok(out) => {
            if out.success {
                let mut list: Vec<String> = Vec::new();
                let mut i: usize = 0;
                proof {
                    assert(text::views(list@) =~= bodies(tests@).take(0));
                }
                while i < tests.len()
                    invariant
                        i <= tests@.len(),
                        text::views(list@) == bodies(tests@).take(i as int),
                    decreases tests.len() - i,
                {
                    let b = tests[i].1.clone();
                    proof {
                        text::lemma_views_push(list@, b);
                        assert(bodies(tests@).take(i as int).push(b@) =~= bodies(tests@).take(
                            i + 1,
                        ));
                    }
                    list.push(b);
                    i += 1;
                }
                proof {
                    assert(bodies(tests@).take(tests@.len() as int) =~= bodies(tests@));
                }
                let args = synthesize_constructor_args(original);
                EquivStep::Test(
                    build_equivalence_test(
                        project.orig_name.as_str(),
                        project.opt_name.as_str(),
                        &list,
                        args.as_str(),
                    ),
                )
            } else {
                let combined = forge::combined_output(&out);
                let errors = forge::collect_forge_errors(combined.as_str());
                let mut er = EquivResult::default();
                er.errors = errors;
                er.forge_output = combined;
                EquivStep::Respond(er)
            }
        },
    }
}

/// Some test ran: forge printed a result.
pub open spec fn ran_tests(stdout: Seq<char>) -> bool {
    text::holds(stdout, "[PASS]"@) || text::holds(stdout, "[FAIL"@)
}

/// The result lines of the comparison suite.
pub open spec fn comparison_results(stdout: Seq<char>) -> Seq<Seq<char>> {
    results_of(split::lines_of(stdout), "EquivalenceTest"@)
}

/// The result lines of the sanity suite.
pub open spec fn sanity_results(stdout: Seq<char>) -> Seq<Seq<char>> {
    results_of(split::lines_of(stdout), "SanityTest"@)
}

/// The result of a run whose tests ran with the given output.
pub open spec fn is_test_result(
    r: EquivResult,
    orig_name: Seq<char>,
    opt_name: Seq<char>,
    tests: Seq<Seq<char>>,
    out: ProcessOutput,
) -> bool {
    let ls = split::lines_of(out.stdout@);
    let sanity = sanity_results(out.stdout@);
    let eq = comparison_results(out.stdout@);
    &&& r.compiles
    &&& r.errors@.len() == 0
    &&& r.all_passed == (r.failed@.len() == 0 && r.valid_count > 0)
    &&& text::views(r.failed@) == divergent(tests, sanity, eq)
    &&& text::views(r.invalid@) == broken(tests, sanity)
    &&& text::pair_views(r.invalid_reasons@) == broken_reasons(tests, sanity)
    &&& r.missing@.len() == 0
    &&& r.valid_count == tests.len() - r.invalid@.len()
    &&& gas::figure(r.gas_original) == gas::first_gas(ls, "test_gas_original"@)
    &&& gas::figure(r.gas_optimized) == gas::first_gas(ls, "test_gas_optimized"@)
    &&& gas::signed_figure(r.gas_saved) == gas::saving(
        gas::figure(r.gas_original),
        gas::figure(r.gas_optimized),
    )
    &&& gas::rows(r.per_function_gas@) == gas::report(ls, orig_name, opt_name).rows
    &&& gas::all_consistent(r.per_function_gas@)
    &&& r.forge_output@ == out.stdout@ + out.stderr@
}

/// Reads the test run of an equivalence run. The contracts have compiled before, so
/// a run without a single result means that the GENERATED TESTS broke compilation:
/// an error, so that the caller reports "could not verify" instead of wrongly
/// blaming the contract.
pub fn after_test(
    project: &SandboxProject,
    tests: &Vec<(String, String)>,
    run: Result<ProcessOutput, String>,
) -> (r: Result<EquivResult, String>)
    ensures
        match run {
            Err(e) => r matches Err(m) && m@ == forge::test_failure(e@),
            Ok(out) => if ran_tests(out.stdout@) {
                r matches Ok(er) && is_test_result(
                    er,
                    project.orig_name@,
                    project.opt_name@,
                    names(tests@),
                    out,
                )
            } else {
                r matches Err(m) && m@ == "generated equivalence tests failed to compile: "@
                    + split::joined(forge::forge_errors(out.stdout@ + out.stderr@), "; "@)
            },
        },
{
    let out = match run {
        Err(e) => return Err(forge::test_failure_message(e.as_str())),
        Ok(out) => out,
    };
    let combined = forge::combined_output(&out);
    if !(contains(out.stdout.as_str(), "[PASS]") || contains(out.stdout.as_str(), "[FAIL")) {
        let errors = forge::collect_forge_errors(combined.as_str());
        let list = join(&errors, "; ");
        let mut message = "generated equivalence tests failed to compile: ".to_owned();
        message.append(list.as_str());
        return Err(message);
    }
    let suites = suite_result_lines(out.stdout.as_str());
    let eq = lines_under(&suites, "EquivalenceTest");
    let sanity = lines_under(&suites, "SanityTest");
    let found = classify(tests, &sanity, &eq);
    let valid_count: usize = tests.len() - found.invalid.len();
    let gas_original = gas::parse_test_gas(out.stdout.as_str(), "test_gas_original");
    let gas_optimized = gas::parse_test_gas(out.stdout.as_str(), "test_gas_optimized");
    let per_function_gas = gas::parse_gas_report(
        out.stdout.as_str(),
        project.orig_name.as_str(),
        project.opt_name.as_str(),
    );
    let all_passed = found.failed.len() == 0 && valid_count > 0;
    Ok(
        EquivResult {
            compiles: true,
            errors: Vec::new(),
            all_passed,
            failed: found.failed,
            invalid: found.invalid,
            invalid_reasons: found.reasons,
            // Only the caller knows the full target list; it fills this in.
            missing: Vec::new(),
            valid_count,
            gas_original,
            gas_optimized,
            gas_saved: gas::gas_saved(gas_original, gas_optimized),
            per_function_gas,
            forge_output: combined,
        },
    )
}

// ── coverage ─────────────────────────────────────────────────────────────────

/// The targets that no test covers.
pub open spec fn untested(targets: Seq<Seq<char>>, tests: Seq<Seq<char>>) -> Seq<Seq<char>> {
    targets.filter(|n: Seq<char>| !tests.contains(n))
}

/// Whether a test for the function exists.
pub fn has_test(tests: &Vec<(String, String)>, name: &str) -> (r: bool)
    ensures
        r == names(tests@).contains(name@),
{
    let mut i: usize = 0;
    let ghost ns = names(tests@);
    while i < tests.len()
        invariant
            i <= tests@.len(),
            ns == names(tests@),
            forall|k: int| 0 <= k < i ==> #[trigger] ns[k] != name@,
        decreases tests.len() - i,
    {
        if same(tests[i].0.as_str(), name) {
            proof {
                assert(ns[i as int] == name@);
            }
            return true;
        }
        i += 1;
    }
    false
}

/// The targets for which no test was generated.
pub fn missing_tests(targets: &Vec<(String, String)>, tests: &Vec<(String, String)>) -> (r: Vec<
    String,
>)
    ensures
        text::views(r@) == untested(names(targets@), names(tests@)),
{
    let ghost ts = names(targets@);
    let ghost ns = names(tests@);
    let mut out: Vec<String> = Vec::new();
    let mut i: usize = 0;
    proof {
        reveal(Seq::filter);
        assert(text::views(out@) =~= untested(ts.take(0), ns));
    }
    while i < targets.len()
        invariant
            i <= targets@.len(),
            ts == names(targets@),
            ns == names(tests@),
            text::views(out@) == untested(ts.take(i as int), ns),
        decreases targets.len() - i,
    {
        let name = targets[i].0.as_str();
        proof {
            reveal(Seq::filter);
            assert(ts.take(i + 1).drop_last() =~= ts.take(i as int));
            assert(ts.take(i + 1).last() == name@);
        }
        if !has_test(tests, name) {
            let n = name.to_owned();
            proof {
                text::lemma_views_push(out@, n);
            }
            out.push(n);
        }
        i += 1;
    }
    proof {
        assert(ts.take(ts.len() as int) =~= ts);
    }
    out
}

// ── laws ─────────────────────────────────────────────────────────────────────

/// A function is never both broken and missing: a broken test is a test that
/// exists.
pub proof fn law_broken_and_missing_are_disjoint(
    targets: Seq<Seq<char>>,
    tests: Seq<Seq<char>>,
    sanity: Seq<Seq<char>>,
    name: Seq<char>,
)
    ensures
        !(broken(tests, sanity).contains(name) && untested(targets, tests).contains(name)),
{
    lemma_filter_members(tests, |n: Seq<char>| !passed(sanity, n), name);
    lemma_filter_members(targets, |n: Seq<char>| !tests.contains(n), name);
}

proof fn lemma_filter_members(list: Seq<Seq<char>>, p: spec_fn(Seq<char>) -> bool, x: Seq<char>)
    ensures
        list.filter(p).contains(x) <==> list.contains(x) && p(x),
    decreases list.len(),
{
    reveal(Seq::filter);
    if list.len() > 0 {
        let head = list.drop_last();
        lemma_filter_members(head, p, x);
        if list.contains(x) {
            let k = choose|k: int| 0 <= k < list.len() && list[k] == x;
            if k < head.len() {
                assert(head[k] == x);
            }
        }
        if head.contains(x) {
            let k = choose|k: int| 0 <= k < head.len() && head[k] == x;
            assert(list[k] == x);
        }
        let f = head.filter(p);
        if p(list.last()) {
            assert(list.filter(p) == f.push(list.last()));
            assert(list[list.len() - 1] == list.last());
            if f.contains(x) {
                let k = choose|k: int| 0 <= k < f.len() && f[k] == x;
                assert(f.push(list.last())[k] == x);
            }
            assert(f.push(list.last())[f.len() as int] == list.last());
            if f.push(list.last()).contains(x) && x != list.last() {
                let k = choose|k: int|
                    0 <= k < f.push(list.last()).len() && f.push(list.last())[k] == x;
                assert(f[k] == x);
            }
        }
    }
}

/// A target is proven equivalent: it has a test, and the test passed both suites.
pub open spec fn proven(
    tests: Seq<Seq<char>>,
    sanity: Seq<Seq<char>>,
    eq: Seq<Seq<char>>,
    name: Seq<char>,
) -> bool {
    tests.contains(name) && passed(sanity, name) && passed(eq, name)
}

/// A target is proven exactly when it is in none of the three lists of a result:
/// it does not diverge, its test is not broken, and a test is not missing.
pub proof fn law_proven_iff_not_listed(
    targets: Seq<Seq<char>>,
    tests: Seq<Seq<char>>,
    sanity: Seq<Seq<char>>,
    eq: Seq<Seq<char>>,
    name: Seq<char>,
)
    requires
        targets.contains(name),
    ensures
        proven(tests, sanity, eq, name) <==> !divergent(tests, sanity, eq).contains(name)
            && !broken(tests, sanity).contains(name) && !untested(targets, tests).contains(name),
{
    lemma_filter_members(tests, |n: Seq<char>| !passed(sanity, n), name);
    lemma_filter_members(tests, |n: Seq<char>| passed(sanity, n) && !passed(eq, n), name);
    lemma_filter_members(targets, |n: Seq<char>| !tests.contains(n), name);
}

/// Broken tests do not gate: a run passes exactly when no valid test diverges and
/// at least one test is valid, however many are broken.
pub proof fn law_broken_tests_do_not_gate(
    r: EquivResult,
    orig_name: Seq<char>,
    opt_name: Seq<char>,
    tests: Seq<Seq<char>>,
    out: ProcessOutput,
)
    requires
        is_test_result(r, orig_name, opt_name, tests, out),
    ensures
        r.all_passed <==> (exists|n: Seq<char>|
            tests.contains(n) && passed(sanity_results(out.stdout@), n)) && forall|n: Seq<char>|
            tests.contains(n) && #[trigger] passed(sanity_results(out.stdout@), n) ==> passed(
                comparison_results(out.stdout@),
                n,
            ),
{
    let sanity = sanity_results(out.stdout@);
    let eq = comparison_results(out.stdout@);
    let bad = divergent(tests, sanity, eq);
    assert(text::views(r.failed@).len() == r.failed@.len());
    assert(text::views(r.invalid@).len() == r.invalid@.len());
    assert forall|n: Seq<char>|
        bad.len() == 0 && tests.contains(n) && #[trigger] passed(sanity, n) implies passed(
        eq,
        n,
    ) by {
        lemma_filter_members(tests, |m: Seq<char>| passed(sanity, m) && !passed(eq, m), n);
    }
    if bad.len() > 0 {
        assert(bad.contains(bad[0]));
        lemma_filter_members(tests, |m: Seq<char>| passed(sanity, m) && !passed(eq, m), bad[0]);
    }
    lemma_some_kept(tests, sanity);
}

proof fn lemma_some_kept(tests: Seq<Seq<char>>, sanity: Seq<Seq<char>>)
    ensures
        broken(tests, sanity).len() <= tests.len(),
        broken(tests, sanity).len() < tests.len() <==> exists|n: Seq<char>|
            tests.contains(n) && passed(sanity, n),
    decreases tests.len(),
{
    reveal(Seq::filter);
    if tests.len() > 0 {
        let head = tests.drop_last();
        let last = tests.last();
        lemma_some_kept(head, sanity);
        assert(tests =~= head.push(last));
        lemma_broken_push(head, sanity, last);
        assert(tests[tests.len() - 1] == last);
        if exists|n: Seq<char>| head.contains(n) && passed(sanity, n) {
            let n = choose|n: Seq<char>| head.contains(n) && passed(sanity, n);
            let k = choose|k: int| 0 <= k < head.len() && head[k] == n;
            assert(tests[k] == n);
            assert(tests.contains(n));
        }
        if exists|n: Seq<char>| tests.contains(n) && passed(sanity, n) {
            let n = choose|n: Seq<char>| tests.contains(n) && passed(sanity, n);
            let k = choose|k: int| 0 <= k < tests.len() && tests[k] == n;
            if k < head.len() {
                assert(head[k] == n);
                assert(head.contains(n));
            } else {
                assert(n == last);
            }
        }
    }
}

/// The result line of one function's test is not taken for another's: no name of a
/// test holds the name of another function's test, as long as the names are
/// identifiers that do not themselves hold the test prefix.
pub proof fn law_test_names_do_not_collide(a: Seq<char>, b: Seq<char>)
    requires
        a != b,
        forall|i: int| 0 <= i < a.len() ==> a[i] != '(',
        forall|i: int| 0 <= i < b.len() ==> b[i] != '(',
        !text::holds(b, "test_eq_"@),
    ensures
        !text::holds(needle(b), needle(a)),
{
    reveal_strlit("test_eq_");
    reveal_strlit("(");
    let p = "test_eq_"@;
    let na = needle(a);
    let nb = needle(b);
    if text::holds(nb, na) {
        let i = choose|i: int| text::occurs_at(nb, na, i);
        assert forall|k: int| 0 <= k < na.len() implies nb[i + k] == na[k] by {
            assert(nb.subrange(i, i + na.len())[k] == na[k]);
        }
        assert(na[0] == 't' && na[1] == 'e' && na[7] == '_');
        if i >= 8 {
            assert(nb[i + 7] == '_');
            assert(nb[nb.len() - 1] == '(');
            assert forall|k: int| 0 <= k < 8 implies b[i - 8 + k] == p[k] by {
                assert(nb[i + k] == na[k]);
                assert(na[k] == p[k]);
                assert(nb[i + k] == b[i - 8 + k]);
            }
            assert(b.subrange(i - 8, i) =~= p);
            assert(text::occurs_at(b, p, i - 8));
        } else if i == 0 {
            assert(na[na.len() - 1] == '(');
            assert(nb[na.len() - 1] == '(');
            if a.len() < b.len() {
                assert(nb[na.len() - 1] == b[a.len() as int]);
            }
            assert(a.len() == b.len());
            assert forall|k: int| 0 <= k < a.len() implies a[k] == b[k] by {
                assert(na[8 + k] == a[k]);
                assert(nb[8 + k] == b[k]);
            }
            assert(a =~= b);
        } else {
            assert(nb[i] == 't');
            assert(nb[i + 1] == 'e');
            assert(nb[0] == 't' && nb[1] == 'e' && nb[2] == 's' && nb[3] == 't' && nb[4] == '_'
                && nb[5] == 'e' && nb[6] == 'q' && nb[7] == '_');
        }
    }
}

// ── laws on forge's output ───────────────────────────────────────────────────

/// A result line that begins with `[PASS] test_eq_<name>(` is a pass of the function,
/// whatever follows: parameters, a gas figure or the statistics of a fuzz run.
pub proof fn law_a_pass_line_is_a_pass(
    results: Seq<Seq<char>>,
    i: int,
    name: Seq<char>,
    rest: Seq<char>,
)
    requires
        0 <= i < results.len(),
        results[i] == "[PASS] test_eq_"@ + name + "("@ + rest,
    ensures
        passed(results, name),
{
    reveal_strlit("[PASS] test_eq_");
    reveal_strlit("[PASS]");
    reveal_strlit("test_eq_");
    reveal_strlit("[PASS] ");
    let line = results[i];
    assert(line.subrange(0, 6) =~= "[PASS]"@);
    assert(line =~= "[PASS] "@ + ("test_eq_"@ + name + "("@) + rest);
    text::lemma_put_between("[PASS] "@, "test_eq_"@ + name + "("@, rest);
}

/// Only a line that begins with `[PASS]` and names the function's test is a pass: a
/// line that begins with `[FAIL` never is, nor is that of another test.
pub proof fn law_only_pass_lines_pass(results: Seq<Seq<char>>, name: Seq<char>)
    requires
        forall|i: int|
            0 <= i < results.len() ==> text::has_prefix(#[trigger] results[i], "[FAIL"@)
                || !text::has_prefix(results[i], "[PASS]"@) || !text::holds(
                results[i],
                "test_eq_"@ + name + "("@,
            ),
    ensures
        !passed(results, name),
{
    reveal_strlit("[PASS]");
    reveal_strlit("[FAIL");
    if passed(results, name) {
        let i = choose|i: int|
            0 <= i < results.len() && text::has_prefix(#[trigger] results[i], "[PASS]"@)
                && text::holds(results[i], needle(name));
        let line = results[i];
        assert(line.subrange(0, 6)[1] == 'P');
        if text::has_prefix(line, "[FAIL"@) {
            assert(line.subrange(0, 5)[1] == 'F');
        }
    }
}

/// The header of a suite: forge writes how many tests it ran, and for which suite of
/// which file.
pub proof fn law_headers_announce_their_suite(
    count: Seq<char>,
    file: Seq<char>,
    suite: Seq<char>,
)
    requires
        !text::holds("Ran "@ + count + " "@, " for "@),
        !text::holds(file + ":"@ + suite, " for "@),
        !text::holds(file, ":"@),
        !text::holds(suite, ":"@),
        text::is_trim(suite),
    ensures
        announced("Ran "@ + count + " for "@ + file + ":"@ + suite) == Some(suite),
{
    reveal_strlit("Ran ");
    reveal_strlit(" for ");
    reveal_strlit(":");
    reveal_strlit(" ");
    let a = "Ran "@ + count;
    let b = file + ":"@ + suite;
    let line = "Ran "@ + count + " for "@ + file + ":"@ + suite;
    assert(line =~= a + " for "@ + b);
    assert forall|k: int| 0 <= k < a.len() implies !text::occurs_at(a + " for "@ + b, " for "@, k) by {
        if text::occurs_at(line, " for "@, k) {
            let n = a.len();
            let part = line.subrange(k, k + 5);
            assert(line[n as int] == ' ');
            if k + 5 <= n + 1 {
                assert((a + " "@).subrange(k, k + 5) =~= part);
                assert(text::occurs_at("Ran "@ + count + " "@, " for "@, k));
            } else {
                assert(part[n - k] == line[n as int]);
            }
        }
    }
    split::law_split_at_the_separator(a, " for "@, b);
    split::law_no_separator_is_one_piece(b, " for "@);
    let parts = split::pieces_of(line, " for "@);
    assert(parts =~= seq![a, b]);
    assert forall|k: int| 0 <= k < file.len() implies !text::occurs_at(b, ":"@, k) by {
        if text::occurs_at(b, ":"@, k) {
            assert(b.subrange(k, k + 1)[0] == file[k]);
            assert(file.subrange(k, k + 1) =~= ":"@);
            assert(text::occurs_at(file, ":"@, k));
        }
    }
    split::law_split_at_the_separator(file, ":"@, suite);
    split::law_no_separator_is_one_piece(suite, ":"@);
    assert(split::pieces_of(b, ":"@) =~= seq![file, suite]);
    assert(line.subrange(0, 4) =~= "Ran "@);
}

proof fn lemma_running(lines: Seq<Seq<char>>, h: int, n: int)
    requires
        0 <= h < n <= lines.len(),
        announced(lines[h]) is Some,
        forall|k: int| h < k < n ==> announced(#[trigger] lines[k]) is None,
    ensures
        running(lines.take(n)) == announced(lines[h]),
    decreases n,
{
    let t = lines.take(n);
    assert(t.last() == lines[n - 1]);
    assert(t.drop_last() =~= lines.take(n - 1));
    if n - 1 > h {
        lemma_running(lines, h, n - 1);
    }
}

proof fn lemma_results_grow(lines: Seq<Seq<char>>, suite: Seq<char>, n: int, line: Seq<char>)
    requires
        0 <= n <= lines.len(),
        results_of(lines.take(n), suite).contains(line),
    ensures
        results_of(lines, suite).contains(line),
    decreases lines.len() - n,
{
    if n < lines.len() {
        let t = lines.take(n + 1);
        assert(t.drop_last() =~= lines.take(n));
        let head = results_of(lines.take(n), suite);
        let k = choose|k: int| 0 <= k < head.len() && head[k] == line;
        assert(results_of(t, suite)[k] == line);
        lemma_results_grow(lines, suite, n + 1, line);
    } else {
        assert(lines.take(n) =~= lines);
    }
}

/// The result lines behind a suite's header are that suite's, up to the next line
/// that begins with `Ran `.
pub proof fn law_results_stand_under_their_header(
    lines: Seq<Seq<char>>,
    header: int,
    at: int,
    suite: Seq<char>,
)
    requires
        0 <= header < at < lines.len(),
        announced(lines[header]) == Some(suite),
        forall|k: int| header < k < at ==> !text::has_prefix(#[trigger] lines[k], "Ran "@),
        text::has_prefix(lines[at], "[PASS]"@) || text::has_prefix(lines[at], "[FAIL"@),
    ensures
        results_of(lines, suite).contains(lines[at]),
{
    reveal_strlit("Ran ");
    reveal_strlit("[PASS]");
    reveal_strlit("[FAIL");
    let line = lines[at];
    if text::has_prefix(line, "Ran "@) {
        assert(line.subrange(0, 4)[0] == 'R');
        if text::has_prefix(line, "[PASS]"@) {
            assert(line.subrange(0, 6)[0] == '[');
        } else {
            assert(line.subrange(0, 5)[0] == '[');
        }
    }
    assert forall|k: int| header < k < at implies announced(#[trigger] lines[k]) is None by {
        assert(!text::has_prefix(lines[k], "Ran "@));
    }
    lemma_running(lines, header, at);
    let t = lines.take(at + 1);
    assert(t.last() == line);
    assert(t.drop_last() =~= lines.take(at));
    let r = results_of(t, suite);
    assert(r[r.len() - 1] == line);
    lemma_results_grow(lines, suite, at + 1, line);
}

/// Nothing else is filed: what stands under a suite is a line of the output that
/// begins with `[PASS]` or `[FAIL`, and the last header before it is the suite's.
pub proof fn law_nothing_else_is_filed(lines: Seq<Seq<char>>, suite: Seq<char>, i: int) -> (r: (
    int,
    int,
))
    requires
        0 <= i < results_of(lines, suite).len(),
    ensures
        0 <= r.0 < r.1 < lines.len(),
        results_of(lines, suite)[i] == lines[r.1],
        text::has_prefix(lines[r.1], "[PASS]"@) || text::has_prefix(lines[r.1], "[FAIL"@),
        text::has_prefix(lines[r.0], "Ran "@),
        announced(lines[r.0]) == Some(suite),
        forall|k: int| r.0 < k < r.1 ==> announced(#[trigger] lines[k]) is None,
    decreases lines.len(),
{
    let head = lines.drop_last();
    let hr = results_of(head, suite);
    if i < hr.len() {
        let r = law_nothing_else_is_filed(head, suite, i);
        assert(head[r.0] == lines[r.0] && head[r.1] == lines[r.1]);
        assert forall|k: int| r.0 < k < r.1 implies announced(#[trigger] lines[k]) is None by {
            assert(head[k] == lines[k]);
        }
        r
    } else {
        let h = lemma_running_header(head);
        assert forall|k: int| h < k < lines.len() - 1 implies announced(#[trigger] lines[k]) is None by {
            assert(head[k] == lines[k]);
        }
        (h, lines.len() - 1)
    }
}

proof fn lemma_running_header(lines: Seq<Seq<char>>) -> (h: int)
    requires
        running(lines) is Some,
    ensures
        0 <= h < lines.len(),
        announced(lines[h]) == running(lines),
        forall|k: int| h < k < lines.len() ==> announced(#[trigger] lines[k]) is None,
    decreases lines.len(),
{
    if announced(lines.last()) is Some {
        lines.len() - 1
    } else {
        let head = lines.drop_last();
        let h = lemma_running_header(head);
        assert forall|k: int| h < k < lines.len() implies announced(#[trigger] lines[k]) is None by {
            if k < head.len() {
                assert(head[k] == lines[k]);
            }
        }
        h
    }
}

/// In forge's output the function's test passed in a suite: behind the header
/// `Ran <count> for <file>:<suite>`, and before another line that begins with `Ran `,
/// there is a line that begins with `[PASS] test_eq_<name>(`.
pub open spec fn shows_pass(
    lines: Seq<Seq<char>>,
    count: Seq<char>,
    file: Seq<char>,
    suite: Seq<char>,
    name: Seq<char>,
    rest: Seq<char>,
    header: int,
    at: int,
) -> bool {
    &&& 0 <= header < at < lines.len()
    &&& lines[header] == "Ran "@ + count + " for "@ + file + ":"@ + suite
    &&& !text::holds("Ran "@ + count + " "@, " for "@)
    &&& !text::holds(file + ":"@ + suite, " for "@)
    &&& !text::holds(file, ":"@)
    &&& forall|k: int| header < k < at ==> !text::has_prefix(#[trigger] lines[k], "Ran "@)
    &&& lines[at] == "[PASS] test_eq_"@ + name + "("@ + rest
}

proof fn lemma_shown_pass(
    lines: Seq<Seq<char>>,
    count: Seq<char>,
    file: Seq<char>,
    suite: Seq<char>,
    name: Seq<char>,
    rest: Seq<char>,
    header: int,
    at: int,
)
    requires
        shows_pass(lines, count, file, suite, name, rest, header, at),
        !text::holds(suite, ":"@),
        text::is_trim(suite),
    ensures
        passed(results_of(lines, suite), name),
{
    reveal_strlit("[PASS] test_eq_");
    reveal_strlit("[PASS]");
    law_headers_announce_their_suite(count, file, suite);
    assert(lines[at].subrange(0, 6) =~= "[PASS]"@);
    law_results_stand_under_their_header(lines, header, at, suite);
    let rs = results_of(lines, suite);
    let i = choose|i: int| 0 <= i < rs.len() && rs[i] == lines[at];
    law_a_pass_line_is_a_pass(rs, i, name, rest);
}

proof fn lemma_suite_names()
    ensures
        !text::holds("EquivalenceTest"@, ":"@),
        !text::holds("SanityTest"@, ":"@),
        text::is_trim("EquivalenceTest"@),
        text::is_trim("SanityTest"@),
{
    reveal_strlit("EquivalenceTest");
    reveal_strlit("SanityTest");
    reveal_strlit(":");
    let e = "EquivalenceTest"@;
    let s = "SanityTest"@;
    assert forall|i: int| !text::occurs_at(e, ":"@, i) by {
        if text::occurs_at(e, ":"@, i) {
            assert(e.subrange(i, i + 1)[0] == ':');
        }
    }
    assert forall|i: int| !text::occurs_at(s, ":"@, i) by {
        if text::occurs_at(s, ":"@, i) {
            assert(s.subrange(i, i + 1)[0] == ':');
        }
    }
    assert(!text::is_space('E') && !text::is_space('S') && !text::is_space('t'));
}

/// A function whose test passed both suites of the output is proven: the result lists
/// it neither as divergent nor as broken.
pub proof fn law_passing_both_suites_is_proof(
    r: EquivResult,
    orig_name: Seq<char>,
    opt_name: Seq<char>,
    tests: Seq<Seq<char>>,
    out: ProcessOutput,
    name: Seq<char>,
    count: (Seq<char>, Seq<char>),
    file: (Seq<char>, Seq<char>),
    rest: (Seq<char>, Seq<char>),
    header: (int, int),
    at: (int, int),
)
    requires
        is_test_result(r, orig_name, opt_name, tests, out),
        ({
            let ls = split::lines_of(out.stdout@);
            &&& shows_pass(ls, count.0, file.0, "EquivalenceTest"@, name, rest.0, header.0, at.0)
            &&& shows_pass(ls, count.1, file.1, "SanityTest"@, name, rest.1, header.1, at.1)
        }),
    ensures
        !text::views(r.failed@).contains(name),
        !text::views(r.invalid@).contains(name),
        tests.contains(name) ==> r.valid_count > 0,
        (forall|i: int| 0 <= i < tests.len() ==> #[trigger] tests[i] == name) && tests.len() > 0
            ==> r.all_passed && r.valid_count == tests.len(),
{
    let ls = split::lines_of(out.stdout@);
    let sanity = sanity_results(out.stdout@);
    let eq = comparison_results(out.stdout@);
    lemma_suite_names();
    lemma_shown_pass(
        ls,
        count.0,
        file.0,
        "EquivalenceTest"@,
        name,
        rest.0,
        header.0,
        at.0,
    );
    lemma_shown_pass(ls, count.1, file.1, "SanityTest"@, name, rest.1, header.1, at.1);
    lemma_filter_members(tests, |n: Seq<char>| !passed(sanity, n), name);
    lemma_filter_members(tests, |n: Seq<char>| passed(sanity, n) && !passed(eq, n), name);
    lemma_some_kept(tests, sanity);
    assert(text::views(r.failed@).len() == r.failed@.len());
    assert(text::views(r.invalid@).len() == r.invalid@.len());
    if (forall|i: int| 0 <= i < tests.len() ==> #[trigger] tests[i] == name) && tests.len() > 0 {
        assert(tests[0] == name);
        let bad = broken(tests, sanity);
        if bad.len() > 0 {
            assert(bad.contains(bad[0]));
            lemma_filter_members(tests, |n: Seq<char>| !passed(sanity, n), bad[0]);
        }
        let div = divergent(tests, sanity, eq);
        if div.len() > 0 {
            assert(div.contains(div[0]));
            lemma_filter_members(
                tests,
                |n: Seq<char>| passed(sanity, n) && !passed(eq, n),
                div[0],
            );
        }
    }
}

/// A function that fails is never proven: where no line of the output that begins with
/// `[PASS]` names its test, the function is listed as broken, and the run does not pass
/// on its account.
pub proof fn law_without_a_pass_there_is_no_proof(
    r: EquivResult,
    orig_name: Seq<char>,
    opt_name: Seq<char>,
    tests: Seq<Seq<char>>,
    out: ProcessOutput,
    name: Seq<char>,
)
    requires
        is_test_result(r, orig_name, opt_name, tests, out),
        tests.contains(name),
        ({
            let ls = split::lines_of(out.stdout@);
            forall|k: int|
                0 <= k < ls.len() && text::has_prefix(#[trigger] ls[k], "[PASS]"@) ==> !text::holds(
                    ls[k],
                    "test_eq_"@ + name + "("@,
                )
        }),
    ensures
        text::views(r.invalid@).contains(name),
        !text::views(r.failed@).contains(name),
        tests.len() == 1 ==> !r.all_passed && r.valid_count == 0,
{
    let ls = split::lines_of(out.stdout@);
    let sanity = sanity_results(out.stdout@);
    let eq = comparison_results(out.stdout@);
    assert forall|i: int| 0 <= i < sanity.len() implies !text::has_prefix(
        #[trigger] sanity[i],
        "[PASS]"@,
    ) || !text::holds(sanity[i], "test_eq_"@ + name + "("@) by {
        let r = law_nothing_else_is_filed(ls, "SanityTest"@, i);
        assert(ls[r.1] == sanity[i]);
    }
    law_only_pass_lines_pass(sanity, name);
    lemma_filter_members(tests, |n: Seq<char>| !passed(sanity, n), name);
    lemma_filter_members(tests, |n: Seq<char>| passed(sanity, n) && !passed(eq, n), name);
    assert(text::views(r.invalid@).len() == r.invalid@.len());
    assert(text::views(r.failed@).len() == r.failed@.len());
    if tests.len() == 1 {
        assert(tests[0] == name);
        let k = choose|k: int|
            0 <= k < broken(tests, sanity).len() && broken(tests, sanity)[k] == name;
        lemma_some_kept(tests, sanity);
    }
}

/// A divergence is never passed over: where the test passed the sanity suite, and no
/// line of the output that begins with `[PASS]` stands under the other suite's header
/// with its name, the function is listed as divergent and the run does not pass.
pub proof fn law_divergence_is_reported(
    r: EquivResult,
    orig_name: Seq<char>,
    opt_name: Seq<char>,
    tests: Seq<Seq<char>>,
    out: ProcessOutput,
    name: Seq<char>,
    count: Seq<char>,
    file: Seq<char>,
    rest: Seq<char>,
    header: int,
    at: int,
)
    requires
        is_test_result(r, orig_name, opt_name, tests, out),
        tests.contains(name),
        ({
            let ls = split::lines_of(out.stdout@);
            &&& shows_pass(ls, count, file, "SanityTest"@, name, rest, header, at)
            &&& forall|h: int, k: int|
                0 <= h < k < ls.len() && announced(#[trigger] ls[h]) == Some("EquivalenceTest"@)
                    && text::has_prefix(#[trigger] ls[k], "[PASS]"@) && (forall|m: int|
                    h < m < k ==> announced(#[trigger] ls[m]) is None) ==> !text::holds(
                    ls[k],
                    "test_eq_"@ + name + "("@,
                )
        }),
    ensures
        text::views(r.failed@).contains(name),
        !r.all_passed,
{
    let ls = split::lines_of(out.stdout@);
    let sanity = sanity_results(out.stdout@);
    let eq = comparison_results(out.stdout@);
    lemma_suite_names();
    lemma_shown_pass(ls, count, file, "SanityTest"@, name, rest, header, at);
    assert forall|i: int| 0 <= i < eq.len() implies !text::has_prefix(
        #[trigger] eq[i],
        "[PASS]"@,
    ) || !text::holds(eq[i], "test_eq_"@ + name + "("@) by {
        let r = law_nothing_else_is_filed(ls, "EquivalenceTest"@, i);
        assert(ls[r.1] == eq[i]);
        assert(announced(ls[r.0]) == Some("EquivalenceTest"@));
    }
    law_only_pass_lines_pass(eq, name);
    lemma_filter_members(tests, |n: Seq<char>| passed(sanity, n) && !passed(eq, n), name);
    assert(text::views(r.failed@).len() == r.failed@.len());
}

/// Why a test is broken is said with its own failure line, where there is one.
pub proof fn law_broken_tests_come_with_their_failure(
    results: Seq<Seq<char>>,
    name: Seq<char>,
    at: int,
)
    requires
        0 <= at < results.len(),
        text::has_prefix(results[at], "[FAIL"@),
        text::holds(results[at], "test_eq_"@ + name + "("@),
        forall|k: int|
            0 <= k < at ==> !(text::has_prefix(#[trigger] results[k], "[FAIL"@) && text::holds(
                results[k],
                "test_eq_"@ + name + "("@,
            )),
    ensures
        failure_reason(results, name) == results[at],
    decreases at,
{
    if at > 0 {
        let rest = results.skip(1);
        assert(!(text::has_prefix(results[0], "[FAIL"@) && text::holds(
            results[0],
            "test_eq_"@ + name + "("@,
        )));
        assert forall|k: int| 0 <= k < at - 1 implies !(text::has_prefix(
            #[trigger] rest[k],
            "[FAIL"@,
        ) && text::holds(rest[k], "test_eq_"@ + name + "("@)) by {
            assert(rest[k] == results[k + 1]);
        }
        law_broken_tests_come_with_their_failure(rest, name, at - 1);
    }
}

/// Every test runs in both suites: its body stands in the file before the sanity suite
/// begins, and again in it.
pub proof fn law_every_test_is_in_both_suites(
    orig: Seq<char>,
    opt: Seq<char>,
    tests: Seq<Seq<char>>,
    args: Seq<char>,
    i: int,
) -> (r: (int, int, int))
    requires
        0 <= i < tests.len(),
    ensures
        text::occurs_at(equivalence_test(orig, opt, tests, args), tests[i], r.0),
        r.0 + tests[i].len() <= r.1,
        text::occurs_at(equivalence_test(orig, opt, tests, args), "contract SanityTest {"@, r.1),
        r.1 < r.2,
        text::occurs_at(equivalence_test(orig, opt, tests, args), tests[i], r.2),
{
    let body = split::joined(tests, "\n\n"@);
    let at = split::lemma_joined_holds(tests, "\n\n"@, i);
    let file = equivalence_test(orig, opt, tests, args);
    let a =
        "// SPDX-License-Identifier: MIT\npragma solidity ^0.8.0;\nimport \"../src/Original.sol\";\nimport \"../src/Optimized.sol\";\n\ncontract EquivalenceTest {\n    "@
        + orig + " o;\n    "@ + opt + " p;\n    function setUp() public { o = new "@ + orig + "("@
        + args + "); p = new "@ + opt + "("@ + args
        + "); }\n    function test_gas_original() external { new "@ + orig + "("@ + args
        + "); }\n    function test_gas_optimized() external { new "@ + opt + "("@ + args
        + "); }\n\n"@;
    let mid = "\n}\n\ncontract SanityTest {\n    "@;
    let b = orig + " o;\n    "@ + orig + " p;\n    function setUp() public { o = new "@ + orig + "("@
        + args + "); p = new "@ + orig + "("@ + args + "); }\n\n"@;
    let end = "\n}\n"@;
    reveal_strlit("\n}\n\ncontract SanityTest {\n    ");
    reveal_strlit("contract SanityTest {");
    assert(file =~= a + body + (mid + b + body + end));
    text::lemma_put_further(a, body, mid + b + body + end, tests[i], at);
    assert(file =~= (a + body) + mid + (b + body + end));
    assert(mid.subrange(4, 25) =~= "contract SanityTest {"@);
    text::lemma_put_further(a + body, mid, b + body + end, "contract SanityTest {"@, 4);
    assert(file =~= (a + body + mid + b) + body + end);
    text::lemma_put_further(a + body + mid + b, body, end, tests[i], at);
    (a.len() + at, (a + body).len() as int + 4, (a + body + mid + b).len() + at)
}

proof fn lemma_holds_across(
    f: Seq<char>,
    h: Seq<char>,
    x: Seq<char>,
    g: Seq<char>,
    t: Seq<char>,
    y: Seq<char>,
)
    ensures
        text::holds((f + h) + x + (g + t) + y, h + x + g),
{
    assert((f + h) + x + (g + t) + y =~= f + (h + x + g) + (t + y));
    text::lemma_put_between(f, h + x + g, t + y);
}

/// What a `setUp` holds between the head of its suite and its end.
spec fn deployment(o: Seq<char>, p: Seq<char>, args: Seq<char>) -> Seq<char> {
    o + " o;\n    "@ + p + " p;\n    function setUp() public { o = new "@ + o + "("@ + args
        + "); p = new "@ + p + "("@ + args
}

proof fn lemma_comparison_deploys(
    orig: Seq<char>,
    opt: Seq<char>,
    tests: Seq<Seq<char>>,
    args: Seq<char>,
)
    ensures
        text::holds(
            equivalence_test(orig, opt, tests, args),
            "contract EquivalenceTest {\n    "@ + deployment(orig, opt, args) + "); }"@,
        ),
{
    let body = split::joined(tests, "\n\n"@);
    let first =
        "// SPDX-License-Identifier: MIT\npragma solidity ^0.8.0;\nimport \"../src/Original.sol\";\nimport \"../src/Optimized.sol\";\n\ncontract EquivalenceTest {\n    "@;
    let gas = "); }\n    function test_gas_original() external { new "@;
    let head = "contract EquivalenceTest {\n    "@;
    let x = deployment(orig, opt, args);
    let p = head + x + "); }"@;
    let c0 = first + orig + " o;\n    "@ + opt + " p;\n    function setUp() public { o = new "@ + orig
        + "("@ + args + "); p = new "@ + opt + "("@ + args + gas;
    assert(c0 =~= first + x + gas + seq![]);
    let n = first.len() - head.len();
    assert(first == first.take(n) + head) by {
        reveal_strlit("// SPDX-License-Identifier: MIT\npragma solidity ^0.8.0;\nimport \"../src/Original.sol\";\nimport \"../src/Optimized.sol\";\n\ncontract EquivalenceTest {\n    ");
        reveal_strlit("contract EquivalenceTest {\n    ");
        assert(first =~= first.take(n) + head);
    }
    assert(gas == "); }"@ + gas.skip(4)) by {
        reveal_strlit("); }\n    function test_gas_original() external { new ");
        reveal_strlit("); }");
        assert(gas =~= "); }"@ + gas.skip(4));
    }
    lemma_holds_across(first.take(n), head, x, "); }"@, gas.skip(4), seq![]);
    let c1 = c0 + orig + "("@ + args;
    text::lemma_goes_on(c0, orig, p);
    text::lemma_goes_on(c0 + orig, "("@, p);
    text::lemma_goes_on(c0 + orig + "("@, args, p);
    let t2 = "); }\n    function test_gas_optimized() external { new "@;
    text::lemma_goes_on(c1, t2, p);
    text::lemma_goes_on(c1 + t2, opt, p);
    text::lemma_goes_on(c1 + t2 + opt, "("@, p);
    text::lemma_goes_on(c1 + t2 + opt + "("@, args, p);
    let c2 = c1 + t2 + opt + "("@ + args;
    let t3 = "); }\n\n"@;
    let t4 = "\n}\n\ncontract SanityTest {\n    "@;
    text::lemma_goes_on(c2, t3, p);
    text::lemma_goes_on(c2 + t3, body, p);
    text::lemma_goes_on(c2 + t3 + body, t4, p);
    let c3 = c2 + t3 + body + t4;
    let t5 = " o;\n    "@;
    let t6 = " p;\n    function setUp() public { o = new "@;
    text::lemma_goes_on(c3, orig, p);
    text::lemma_goes_on(c3 + orig, t5, p);
    text::lemma_goes_on(c3 + orig + t5, orig, p);
    text::lemma_goes_on(c3 + orig + t5 + orig, t6, p);
    let c4 = c3 + orig + t5 + orig + t6;
    text::lemma_goes_on(c4, orig, p);
    text::lemma_goes_on(c4 + orig, "("@, p);
    text::lemma_goes_on(c4 + orig + "("@, args, p);
    let t7 = "); p = new "@;
    text::lemma_goes_on(c4 + orig + "("@ + args, t7, p);
    let c5 = c4 + orig + "("@ + args + t7;
    text::lemma_goes_on(c5, orig, p);
    text::lemma_goes_on(c5 + orig, "("@, p);
    text::lemma_goes_on(c5 + orig + "("@, args, p);
    text::lemma_goes_on(c5 + orig + "("@ + args, t3, p);
    text::lemma_goes_on(c5 + orig + "("@ + args + t3, body, p);
    text::lemma_goes_on(c5 + orig + "("@ + args + t3 + body, "\n}\n"@, p);
}

proof fn lemma_sanity_deploys(
    orig: Seq<char>,
    opt: Seq<char>,
    tests: Seq<Seq<char>>,
    args: Seq<char>,
)
    ensures
        text::holds(
            equivalence_test(orig, opt, tests, args),
            "contract SanityTest {\n    "@ + deployment(orig, orig, args) + "); }"@,
        ),
{
    let body = split::joined(tests, "\n\n"@);
    let before =
        "// SPDX-License-Identifier: MIT\npragma solidity ^0.8.0;\nimport \"../src/Original.sol\";\nimport \"../src/Optimized.sol\";\n\ncontract EquivalenceTest {\n    "@
        + orig + " o;\n    "@ + opt + " p;\n    function setUp() public { o = new "@ + orig + "("@
        + args + "); p = new "@ + opt + "("@ + args
        + "); }\n    function test_gas_original() external { new "@ + orig + "("@ + args
        + "); }\n    function test_gas_optimized() external { new "@ + opt + "("@ + args
        + "); }\n\n"@ + body;
    let mid = "\n}\n\ncontract SanityTest {\n    "@;
    let head = "contract SanityTest {\n    "@;
    let last = "); }\n\n"@;
    let x = deployment(orig, orig, args);
    let y = body + "\n}\n"@;
    assert(equivalence_test(orig, opt, tests, args) =~= (before + mid) + x + last + y);
    assert(mid == mid.take(4) + head) by {
        reveal_strlit("\n}\n\ncontract SanityTest {\n    ");
        reveal_strlit("contract SanityTest {\n    ");
        assert(mid =~= mid.take(4) + head);
    }
    assert(last == "); }"@ + last.skip(4)) by {
        reveal_strlit("); }\n\n");
        reveal_strlit("); }");
        assert(last =~= "); }"@ + last.skip(4));
    }
    assert(before + mid =~= (before + mid.take(4)) + head);
    lemma_holds_across(before + mid.take(4), head, x, "); }"@, last.skip(4), y);
}

/// The comparison suite deploys the original against the optimized contract, the sanity
/// suite the original against itself, all with the same arguments.
pub proof fn law_suites_compare_the_right_contracts(
    orig: Seq<char>,
    opt: Seq<char>,
    tests: Seq<Seq<char>>,
    args: Seq<char>,
)
    ensures
        text::holds(
            equivalence_test(orig, opt, tests, args),
            "contract EquivalenceTest {\n    "@ + (orig + " o;\n    "@ + opt
                + " p;\n    function setUp() public { o = new "@ + orig + "("@ + args
                + "); p = new "@ + opt + "("@ + args) + "); }"@,
        ),
        text::holds(
            equivalence_test(orig, opt, tests, args),
            "contract SanityTest {\n    "@ + (orig + " o;\n    "@ + orig
                + " p;\n    function setUp() public { o = new "@ + orig + "("@ + args
                + "); p = new "@ + orig + "("@ + args) + "); }"@,
        ),
{
    lemma_comparison_deploys(orig, opt, tests, args);
    lemma_sanity_deploys(orig, opt, tests, args);
}

/// A run gives the construction gas that forge printed for the two contracts, each under
/// its own name, and what the rewrite saves by it.
pub proof fn law_the_result_gives_the_measured_gas(
    r: EquivResult,
    orig_name: Seq<char>,
    opt_name: Seq<char>,
    tests: Seq<Seq<char>>,
    out: ProcessOutput,
    original: (int, Seq<char>, nat),
    optimized: (int, Seq<char>, nat),
)
    requires
        is_test_result(r, orig_name, opt_name, tests, out),
        original.2 < 0x8000_0000_0000_0000,
        optimized.2 < 0x8000_0000_0000_0000,
        ({
            let ls = split::lines_of(out.stdout@);
            &&& 0 <= original.0 < ls.len()
            &&& ls[original.0] == original.1 + "gas:"@ + (" "@ + crate::number::decimal(
                original.2,
            ) + ")"@)
            &&& text::holds(original.1, "test_gas_original"@)
            &&& !text::holds(original.1, "gas:"@)
            &&& forall|j: int|
                0 <= j < original.0 ==> !text::holds(#[trigger] ls[j], "test_gas_original"@)
            &&& 0 <= optimized.0 < ls.len()
            &&& ls[optimized.0] == optimized.1 + "gas:"@ + (" "@ + crate::number::decimal(
                optimized.2,
            ) + ")"@)
            &&& text::holds(optimized.1, "test_gas_optimized"@)
            &&& !text::holds(optimized.1, "gas:"@)
            &&& forall|j: int|
                0 <= j < optimized.0 ==> !text::holds(#[trigger] ls[j], "test_gas_optimized"@)
        }),
    ensures
        r.compiles,
        r.gas_original matches Some(g) && g == original.2,
        r.gas_optimized matches Some(g) && g == optimized.2,
        r.gas_saved matches Some(g) && g == original.2 - optimized.2,
{
    let ls = split::lines_of(out.stdout@);
    gas::law_gas_figures_are_read(original.1, "test_gas_original"@, original.2);
    gas::law_the_first_line_of_the_test_counts(ls, "test_gas_original"@, original.0);
    gas::law_gas_figures_are_read(optimized.1, "test_gas_optimized"@, optimized.2);
    gas::law_the_first_line_of_the_test_counts(ls, "test_gas_optimized"@, optimized.0);
    gas::law_saving_is_the_difference(original.2, optimized.2);
}

/// A failed build is reported as one: nothing passed, nothing is measured, and the
/// compiler's errors of either stream are there.
pub proof fn law_a_failed_build_proves_nothing(
    r: EquivResult,
    out: ProcessOutput,
    k: int,
    word: Seq<char>,
)
    requires
        is_build_result(r, out),
    ensures
        !r.compiles && !r.all_passed,
        r.valid_count == 0,
        r.failed@.len() == 0 && r.invalid@.len() == 0,
        r.gas_saved is None && r.gas_original is None && r.gas_optimized is None,
        ({
            let ls = split::lines_of(out.stdout@ + out.stderr@);
            0 <= k < ls.len() && (word == "error"@ || word == "undeclared"@ || word
                == "not found"@) && text::holds(crate::unicode::lowered(ls[k]), word)
                && text::trimmed(ls[k]).len() > 0 && r.errors@.len() < 20 ==> text::views(
                r.errors@,
            ).contains(text::trimmed(ls[k]))
        }),
{
    let all = out.stdout@ + out.stderr@;
    let ls = split::lines_of(all);
    assert(text::views(r.errors@).len() == r.errors@.len());
    if 0 <= k < ls.len() && (word == "error"@ || word == "undeclared"@ || word == "not found"@)
        && text::holds(crate::unicode::lowered(ls[k]), word) && text::trimmed(ls[k]).len() > 0 {
        forge::law_compiler_errors_are_reported(all, k, word);
    }
}

/// A result line anywhere in the output means that the tests ran, and an output without
/// one that they did not.
pub proof fn law_results_show_that_tests_ran(
    before: Seq<char>,
    after: Seq<char>,
    silent: Seq<char>,
)
    requires
        !text::holds(silent, "["@),
    ensures
        ran_tests(before + "[PASS]"@ + after),
        ran_tests(before + "[FAIL"@ + after),
        !ran_tests(silent),
{
    text::lemma_put_between(before, "[PASS]"@, after);
    text::lemma_put_between(before, "[FAIL"@, after);
    reveal_strlit("[PASS]");
    reveal_strlit("[FAIL");
    reveal_strlit("[");
    if text::holds(silent, "[PASS]"@) {
        let i = choose|i: int| text::occurs_at(silent, "[PASS]"@, i);
        assert(silent.subrange(i, i + 6)[0] == silent[i]);
        assert(silent.subrange(i, i + 1) =~= "["@);
        assert(text::occurs_at(silent, "["@, i));
    }
    if text::holds(silent, "[FAIL"@) {
        let i = choose|i: int| text::occurs_at(silent, "[FAIL"@, i);
        assert(silent.subrange(i, i + 5)[0] == silent[i]);
        assert(silent.subrange(i, i + 1) =~= "["@);
        assert(text::occurs_at(silent, "["@, i));
    }
}

/// The functions without proof are those of the two lists, each once.
pub proof fn law_unproven_functions_are_listed_once(r: EquivResult, name: Seq<char>, i: int, j: int)
    ensures
        r.unproven().contains(name) <==> text::views(r.invalid@).contains(name) || text::views(
            r.missing@,
        ).contains(name),
        0 <= i < j < r.unproven().len() ==> r.unproven()[i] != r.unproven()[j],
{
    let a = text::views(r.invalid@);
    let b = text::views(r.missing@);
    order::law_sorting_keeps_every_entry(a + b, name, i, j);
    if a.contains(name) {
        let k = choose|k: int| 0 <= k < a.len() && a[k] == name;
        assert((a + b)[k] == name);
    }
    if b.contains(name) {
        let k = choose|k: int| 0 <= k < b.len() && b[k] == name;
        assert((a + b)[a.len() + k] == name);
    }
    if (a + b).contains(name) {
        let k = choose|k: int| 0 <= k < (a + b).len() && (a + b)[k] == name;
        if k < a.len() {
            assert(a[k] == name);
        } else {
            assert(b[k - a.len()] == name);
        }
    }
}

} // verus!
