//! Forge verification: what the sandbox project holds, how its build and test runs
//! are read, and the construction gas they measure.

use crate::constructor::{self, synthesize_constructor_args};
use crate::gas::{self, gas_saved, parse_test_gas};
use crate::number::{self, read_up_to, show_u64};
use crate::solidity;
use crate::split::{self, join, lines};
use crate::text::{self, chars, contains, starts_with, string_of, strip_prefix, trim};
use crate::unicode;
use vstd::prelude::*;

verus! {

broadcast use vstd::seq::group_seq_axioms;

// ── DTOs ─────────────────────────────────────────────────────────────────────

/// The body of a verification request.
pub struct VerifyRequest {
    pub original_code: String,
    pub optimized_code: String,
}

/// What a sandbox run found.
pub struct VerifyResponse {
    pub compiles: bool,
    pub errors: Vec<String>,
    pub gas_original: Option<u64>,
    pub gas_optimized: Option<u64>,
    pub gas_saved: Option<i64>,
    pub forge_output: String,
}

/// What a finished forge process left behind.
pub struct ProcessOutput {
    pub success: bool,
    pub stdout: String,
    pub stderr: String,
}

// ── settings ─────────────────────────────────────────────────────────────────

/// A setting as text, where it is set.
pub open spec fn setting(var: Option<&str>) -> Option<Seq<char>> {
    match var {
        Some(s) => Some(s@),
        None => None,
    }
}

/// The number that a setting gives, where it is set to one of at most `max`.
pub open spec fn setting_number(var: Option<Seq<char>>, max: nat) -> Option<nat> {
    match var {
        Some(s) => number::number_up_to(s, max),
        None => None,
    }
}

/// The number that a setting gives, `default` where it gives none.
pub open spec fn setting_or(var: Option<Seq<char>>, max: nat, default: nat) -> nat {
    match setting_number(var, max) {
        Some(n) => n,
        None => default,
    }
}

fn read_setting(var: Option<&str>, max: u64, default: u64) -> (r: u64)
    ensures
        r == setting_or(setting(var), max as nat, default as nat),
{
    match var {
        Some(s) => match read_up_to(s, max) {
            Some(n) => n,
            None => default,
        },
        None => default,
    }
}

/// The number of forge sandboxes that may run at once: the setting, 2 without one,
/// and never less than 1.
pub fn forge_permits(var: Option<&str>) -> (r: usize)
    ensures
        r == (if setting_or(setting(var), usize::MAX as nat, 2) == 0 {
            1
        } else {
            setting_or(setting(var), usize::MAX as nat, 2)
        }),
        r >= 1,
{
    let n: u64 = match var {
        Some(s) => match read_up_to(s, usize::MAX as u64) {
            Some(n) => n,
            None => 2,
        },
        None => 2,
    };
    if n == 0 {
        1
    } else {
        n as usize
    }
}

/// Timeout (seconds) for a forge step.
pub fn forge_timeout(var: Option<&str>, default_secs: u64) -> (r: u64)
    ensures
        r == setting_or(setting(var), u64::MAX as nat, default_secs as nat),
{
    read_setting(var, u64::MAX, default_secs)
}

/// How many fuzz runs a parameterized test makes: the setting, 64 without one, and
/// never less than 1.
pub open spec fn fuzz_runs_of(var: Option<Seq<char>>) -> nat {
    let n = setting_or(var, u32::MAX as nat, 64);
    if n == 0 {
        1
    } else {
        n
    }
}

/// The number of fuzz runs.
pub fn fuzz_runs(var: Option<&str>) -> (r: u64)
    ensures
        r == fuzz_runs_of(setting(var)),
        1 <= r <= u32::MAX,
{
    let n = read_setting(var, u32::MAX as u64, 64);
    if n == 0 {
        1
    } else {
        n
    }
}

/// Default timeout of a build, which is local.
pub const BUILD_TIMEOUT_SECS: u64 = 90;

/// Default timeout of a test run, which hits a Mantle fork.
pub const TEST_TIMEOUT_SECS: u64 = 240;

/// The chain that tests fork, where none is configured.
pub const DEFAULT_RPC_URL: &'static str = "https://rpc.mantle.xyz";

/// The RPC endpoint to fork from.
pub fn mantle_rpc(var: Option<&str>) -> (r: String)
    ensures
        r@ == match setting(var) {
            Some(url) => url,
            None => DEFAULT_RPC_URL@,
        },
{
    match var {
        Some(url) => url.to_owned(),
        None => DEFAULT_RPC_URL.to_owned(),
    }
}

/// Where a Foundry installation in the home directory keeps `forge`.
pub fn foundry_path(home: &str) -> (r: String)
    ensures
        r@ == home@ + "/.foundry/bin/forge"@,
{
    let mut out = home.to_owned();
    out.append("/.foundry/bin/forge");
    out
}

/// The `forge` to run: the one of the home directory where it exists, else the one
/// on the search path.
pub fn forge_binary(home: Option<&str>, installed: bool) -> (r: String)
    ensures
        r@ == match setting(home) {
            Some(h) => if installed {
                h + "/.foundry/bin/forge"@
            } else {
                "forge"@
            },
            None => "forge"@,
        },
{
    match home {
        Some(h) => if installed {
            foundry_path(h)
        } else {
            "forge".to_owned()
        },
        None => "forge".to_owned(),
    }
}

/// What to do about a running child process.
#[derive(PartialEq, Eq, Structural, Clone, Copy, Debug)]
pub enum Poll {
    /// It has exited: take its output.
    Finished,
    /// It has run out of time: kill it.
    TimedOut,
    /// Look again later.
    Wait,
}

/// Decides about a child process after looking at it: an exit counts even when the
/// deadline has passed.
pub fn poll_child(exited: bool, elapsed_ms: u64, timeout_ms: u64) -> (r: Poll)
    ensures
        r == (if exited {
            Poll::Finished
        } else if elapsed_ms >= timeout_ms {
            Poll::TimedOut
        } else {
            Poll::Wait
        }),
{
    if exited {
        Poll::Finished
    } else if elapsed_ms >= timeout_ms {
        Poll::TimedOut
    } else {
        Poll::Wait
    }
}

/// The message of a process that was killed for taking too long.
pub fn timeout_message(secs: u64) -> (r: String)
    ensures
        r@ == "forge subprocess timed out after "@ + number::decimal(secs as nat) + "s"@,
{
    let mut out = "forge subprocess timed out after ".to_owned();
    let n = show_u64(secs);
    out.append(n.as_str());
    out.append("s");
    out
}

// ── contract names ───────────────────────────────────────────────────────────

/// A character of a contract's name.
pub open spec fn is_name_char(c: char) -> bool {
    unicode::is_letter_or_digit(c) || c == '_'
}

/// The run of name characters at the start of `s`.
pub open spec fn leading_name(s: Seq<char>) -> Seq<char>
    decreases s.len(),
{
    if s.len() == 0 || !is_name_char(s[0]) {
        seq![]
    } else {
        seq![s[0]] + leading_name(s.skip(1))
    }
}

/// The name that a line declares a contract under.
pub open spec fn declared_name(line: Seq<char>) -> Option<Seq<char>> {
    match text::after_prefix(text::trimmed(line), "contract "@) {
        Some(rest) => if leading_name(rest).len() > 0 {
            Some(leading_name(rest))
        } else {
            None
        },
        None => None,
    }
}

/// The first name that one of the lines declares a contract under.
pub open spec fn first_declared(lines: Seq<Seq<char>>) -> Option<Seq<char>>
    decreases lines.len(),
{
    if lines.len() == 0 {
        None
    } else {
        match declared_name(lines[0]) {
            Some(name) => Some(name),
            None => first_declared(lines.skip(1)),
        }
    }
}

/// The name of the first contract that a source declares.
pub open spec fn contract_name(source: Seq<char>) -> Option<Seq<char>> {
    first_declared(split::lines_of(source))
}

/// The name that the original contract goes by in the sandbox.
pub open spec fn original_name(source: Seq<char>) -> Seq<char> {
    match contract_name(source) {
        Some(name) => name,
        None => "OriginalContract"@,
    }
}

/// The name that the optimized contract goes by in the sandbox.
pub open spec fn optimized_name(source: Seq<char>) -> Seq<char> {
    original_name(source) + "Optimized"@
}

fn read_name(s: &str) -> (r: String)
    ensures
        r@ == leading_name(s@),
{
    let v = chars(s);
    let mut i: usize = 0;
    proof {
        assert(v@.skip(0) =~= v@);
        assert(v@.take(0) + leading_name(v@) =~= leading_name(v@));
    }
    while i < v.len()
        invariant
            i <= v@.len(),
            v@ == s@,
            v@.take(i as int) + leading_name(v@.skip(i as int)) == leading_name(v@),
        decreases v.len() - i,
    {
        let c = v[i];
        proof {
            assert(v@.skip(i as int)[0] == c);
            assert(v@.skip(i as int).skip(1) =~= v@.skip(i + 1));
        }
        if !(c.is_alphanumeric() || c == '_') {
            let out = string_of(&v, 0, i);
            proof {
                assert(out@ =~= v@.take(i as int) + Seq::<char>::empty());
            }
            return out;
        }
        proof {
            assert(v@.take(i + 1) =~= v@.take(i as int) + seq![c]);
            assert(v@.take(i + 1) + leading_name(v@.skip(i + 1)) =~= v@.take(i as int) + (seq![c]
                + leading_name(v@.skip(i + 1))));
        }
        i += 1;
    }
    let out = string_of(&v, 0, v.len());
    proof {
        assert(out@ =~= v@.take(v@.len() as int) + leading_name(v@.skip(v@.len() as int)));
    }
    out
}

/// The name of the first contract that `source` declares, if any.
pub fn extract_sol_contract_name(source: &str) -> (r: Option<String>)
    ensures
        text::opt_view(r) == contract_name(source@),
{
    let all = lines(source);
    let ghost ls = text::views(all@);
    let mut i: usize = 0;
    proof {
        assert(ls.skip(0) =~= ls);
    }
    while i < all.len()
        invariant
            i <= all@.len(),
            ls == text::views(all@),
            ls == split::lines_of(source@),
            first_declared(ls.skip(i as int)) == first_declared(ls),
        decreases all.len() - i,
    {
        proof {
            assert(ls.skip(i as int)[0] == all@[i as int]@);
            assert(ls.skip(i as int).skip(1) =~= ls.skip(i + 1));
        }
        let t = trim(all[i].as_str());
        if let Some(rest) = strip_prefix(t.as_str(), "contract ") {
            let name = read_name(rest.as_str());
            if !name.as_str().is_empty() {
                return Some(name);
            }
        }
        i += 1;
    }
    None
}

/// The names of the two contracts in the sandbox: the original keeps its own, the
/// optimized one is renamed so that one test can import both.
pub fn sandbox_names(original: &str) -> (r: (String, String))
    ensures
        r.0@ == original_name(original@),
        r.1@ == optimized_name(original@),
{
    let orig = match extract_sol_contract_name(original) {
        Some(name) => name,
        None => "OriginalContract".to_owned(),
    };
    let mut opt = orig.clone();
    opt.append("Optimized");
    (orig, opt)
}

/// The two contracts of a sandbox never share a name.
pub proof fn law_sandbox_names_differ(source: Seq<char>)
    ensures
        original_name(source) != optimized_name(source),
{
    reveal_strlit("Optimized");
    assert(original_name(source).len() < optimized_name(source).len());
}

// ── cleaning ─────────────────────────────────────────────────────────────────

/// A line of prose or markdown that a model left in its code: a fence, a bold
/// line, an italic note, or a bullet point that begins with a capital.
pub open spec fn is_markdown(line: Seq<char>) -> bool {
    let t = text::trimmed(line);
    ||| text::has_prefix(t, "```"@)
    ||| text::has_prefix(t, "**"@)
    ||| text::has_prefix(t, "*("@)
    ||| match text::after_prefix(t, "- "@) {
        Some(rest) => text::trimmed(rest).len() > 0 && unicode::is_capital(text::trimmed(rest)[0]),
        None => false,
    }
}

/// The lines that are code.
pub open spec fn code_lines(lines: Seq<Seq<char>>) -> Seq<Seq<char>> {
    lines.filter(|l: Seq<char>| !is_markdown(l))
}

/// The source without markdown.
pub open spec fn cleaned(code: Seq<char>) -> Seq<char> {
    split::joined(code_lines(split::lines_of(code)), "\n"@)
}

fn markdown(line: &str) -> (r: bool)
    ensures
        r == is_markdown(line@),
{
    let t = trim(line);
    if starts_with(t.as_str(), "```") || starts_with(t.as_str(), "**") || starts_with(
        t.as_str(),
        "*(",
    ) {
        return true;
    }
    match strip_prefix(t.as_str(), "- ") {
        Some(rest) => {
            let words = trim(rest.as_str());
            !words.as_str().is_empty() && words.as_str().get_char(0).is_uppercase()
        },
        None => false,
    }
}

/// Strip markdown artifacts that a model sometimes embeds in optimized output:
/// fence markers, bold lines, italic notes, and bullet-point explanations.
pub fn clean_for_forge(code: &str) -> (r: String)
    ensures
        r@ == cleaned(code@),
{
    let all = lines(code);
    let ghost ls = text::views(all@);
    let mut kept: Vec<String> = Vec::new();
    let mut i: usize = 0;
    proof {
        reveal(Seq::filter);
        assert(text::views(kept@) =~= code_lines(ls.take(0)));
    }
    while i < all.len()
        invariant
            i <= all@.len(),
            ls == text::views(all@),
            text::views(kept@) == code_lines(ls.take(i as int)),
        decreases all.len() - i,
    {
        proof {
            reveal(Seq::filter);
            assert(ls.take(i + 1).drop_last() =~= ls.take(i as int));
            assert(ls.take(i + 1).last() == all@[i as int]@);
        }
        if !markdown(all[i].as_str()) {
            let line = all[i].clone();
            proof {
                text::lemma_views_push(kept@, line);
            }
            kept.push(line);
        }
        i += 1;
    }
    proof {
        assert(ls.take(ls.len() as int) =~= ls);
    }
    join(&kept, "\n")
}

// ── compiler errors ──────────────────────────────────────────────────────────

/// A line of compiler output that reports an error.
pub open spec fn reports_error(line: Seq<char>) -> bool {
    let lo = unicode::lowered(line);
    (text::holds(lo, "error"@) || text::holds(lo, "undeclared"@) || text::holds(lo, "not found"@))
        && text::trimmed(line).len() > 0
}

/// The lines that report an error, trimmed.
pub open spec fn error_lines(lines: Seq<Seq<char>>) -> Seq<Seq<char>> {
    lines.filter(|l: Seq<char>| reports_error(l)).map_values(|l: Seq<char>| text::trimmed(l))
}

/// At most this many error lines are reported.
pub const MAX_ERRORS: usize = 20;

/// The first error lines of the compiler's output.
pub open spec fn forge_errors(output: Seq<char>) -> Seq<Seq<char>> {
    let all = error_lines(split::lines_of(output));
    if all.len() > MAX_ERRORS {
        all.take(MAX_ERRORS as int)
    } else {
        all
    }
}

proof fn lemma_error_lines_push(lines: Seq<Seq<char>>, line: Seq<char>)
    ensures
        error_lines(lines.push(line)) == (if reports_error(line) {
            error_lines(lines).push(text::trimmed(line))
        } else {
            error_lines(lines)
        }),
{
    reveal(Seq::filter);
    assert(lines.push(line).drop_last() =~= lines);
    let kept = lines.filter(|l: Seq<char>| reports_error(l));
    assert(kept.push(line).map_values(|l: Seq<char>| text::trimmed(l)) =~= kept.map_values(
        |l: Seq<char>| text::trimmed(l),
    ).push(text::trimmed(line)));
}

proof fn lemma_error_lines_grow(lines: Seq<Seq<char>>, i: int)
    requires
        0 <= i <= lines.len(),
    ensures
        error_lines(lines.take(i)).len() <= error_lines(lines).len(),
        error_lines(lines).take(error_lines(lines.take(i)).len() as int) == error_lines(
            lines.take(i),
        ),
    decreases lines.len() - i,
{
    if i < lines.len() {
        lemma_error_lines_grow(lines, i + 1);
        assert(lines.take(i + 1) =~= lines.take(i).push(lines[i]));
        lemma_error_lines_push(lines.take(i), lines[i]);
        let full = error_lines(lines);
        let here = error_lines(lines.take(i));
        let next = error_lines(lines.take(i + 1));
        assert(full.take(here.len() as int) =~= next.take(here.len() as int));
        assert(next.take(here.len() as int) =~= here);
    } else {
        assert(lines.take(i) =~= lines);
        assert(error_lines(lines).take(error_lines(lines).len() as int) =~= error_lines(lines));
    }
}

/// The lines of compiler output that report an error, trimmed; at most twenty.
pub fn collect_forge_errors(stderr: &str) -> (r: Vec<String>)
    ensures
        text::views(r@) == forge_errors(stderr@),
        r@.len() <= MAX_ERRORS,
{
    let all = lines(stderr);
    let ghost ls = text::views(all@);
    let mut out: Vec<String> = Vec::new();
    let mut i: usize = 0;
    proof {
        reveal(Seq::filter);
        assert(text::views(out@) =~= error_lines(ls.take(0)));
    }
    while i < all.len() && out.len() < MAX_ERRORS
        invariant
            i <= all@.len(),
            ls == text::views(all@),
            text::views(out@) == error_lines(ls.take(i as int)),
            out@.len() <= MAX_ERRORS,
        decreases all.len() - i,
    {
        let line = all[i].as_str();
        proof {
            assert(ls.take(i + 1) =~= ls.take(i as int).push(line@));
            lemma_error_lines_push(ls.take(i as int), line@);
        }
        let lo = line.to_lowercase();
        if contains(lo.as_str(), "error") || contains(lo.as_str(), "undeclared") || contains(
            lo.as_str(),
            "not found",
        ) {
            let t = trim(line);
            if !t.as_str().is_empty() {
                proof {
                    text::lemma_views_push(out@, t);
                }
                out.push(t);
            }
        }
        i += 1;
    }
    proof {
        lemma_error_lines_grow(ls, i as int);
        assert(text::views(out@).len() == out@.len());
        assert(ls.take(ls.len() as int) =~= ls);
    }
    out
}

// ── sandbox project ──────────────────────────────────────────────────────────

/// The files of a sandbox project, and the names of its two contracts.
pub struct SandboxProject {
    pub orig_name: String,
    pub opt_name: String,
    /// `src/Original.sol`
    pub original_sol: String,
    /// `src/Optimized.sol`
    pub optimized_sol: String,
    /// `foundry.toml`
    pub foundry_toml: String,
}

/// A contract is declared at `at`: there stands the declaration `decl`, as a word of
/// its own at either end.
pub open spec fn declares_at(code: Seq<char>, decl: Seq<char>, at: int) -> bool {
    &&& text::occurs_at(code, decl, at)
    &&& solidity::starts_word(code, at)
    &&& at + decl.len() < code.len() ==> !is_name_char(code[at + decl.len()])
}

/// The first place, `from` or later, at which the contract is declared.
pub open spec fn declaration_index(code: Seq<char>, decl: Seq<char>, from: int) -> Option<int>
    decreases code.len() + 1 - from,
{
    if from < 0 || from > code.len() {
        None
    } else if declares_at(code, decl, from) {
        Some(from)
    } else {
        declaration_index(code, decl, from + 1)
    }
}

/// The name of the contract that an optimized source declares, or that of the
/// original where it declares none by itself on a line.
pub open spec fn own_name(original: Seq<char>, optimized: Seq<char>) -> Seq<char> {
    match contract_name(solidity::code_only(optimized)) {
        Some(name) => name,
        None => original_name(original),
    }
}

/// The optimized contract under its sandbox name: the declaration is renamed, and
/// everything else stays. Comments and strings declare nothing.
pub open spec fn renamed(original: Seq<char>, optimized: Seq<char>) -> Seq<char> {
    let decl = "contract "@ + own_name(original, optimized);
    match declaration_index(solidity::code_only(optimized), decl, 0) {
        Some(i) => optimized.take(i) + ("contract "@ + optimized_name(original)) + optimized.skip(
            i + decl.len(),
        ),
        None => optimized,
    }
}

/// [`declaration_index`] gives the least place of a declaration.
proof fn lemma_declaration_index(code: Seq<char>, decl: Seq<char>, from: int)
    requires
        0 <= from,
    ensures
        match declaration_index(code, decl, from) {
            Some(i) => from <= i && declares_at(code, decl, i) && forall|k: int|
                from <= k < i ==> !#[trigger] declares_at(code, decl, k),
            None => forall|k: int| from <= k <= code.len() ==> !#[trigger] declares_at(code, decl, k),
        },
    decreases code.len() + 1 - from,
{
    if from <= code.len() && !declares_at(code, decl, from) {
        lemma_declaration_index(code, decl, from + 1);
    }
}

/// Renaming touches the first declaration of the optimized contract and nothing
/// else: another contract whose name begins alike, or a mention in a comment, stays.
/// A source without such a declaration stays as it is.
pub proof fn law_only_the_declaration_is_renamed(original: Seq<char>, optimized: Seq<char>)
    ensures
        ({
            let code = solidity::code_only(optimized);
            let decl = "contract "@ + own_name(original, optimized);
            let to = "contract "@ + optimized_name(original);
            let r = renamed(original, optimized);
            match declaration_index(code, decl, 0) {
                Some(i) => {
                    &&& 0 <= i && i + decl.len() <= optimized.len()
                    &&& declares_at(code, decl, i)
                    &&& forall|k: int| 0 <= k < i ==> !#[trigger] declares_at(code, decl, k)
                    &&& r.take(i) == optimized.take(i)
                    &&& r.subrange(i, i + to.len()) == to
                    &&& r.skip(i + to.len()) == optimized.skip(i + decl.len())
                },
                None => {
                    &&& forall|k: int|
                        0 <= k <= code.len() ==> !#[trigger] declares_at(code, decl, k)
                    &&& r == optimized
                },
            }
        }),
{
    let code = solidity::code_only(optimized);
    let decl = "contract "@ + own_name(original, optimized);
    let to = "contract "@ + optimized_name(original);
    let r = renamed(original, optimized);
    solidity::lemma_masked(optimized, solidity::Mode::Code);
    lemma_declaration_index(code, decl, 0);
    if let Some(i) = declaration_index(code, decl, 0) {
        assert(r.take(i) =~= optimized.take(i));
        assert(r.subrange(i, i + to.len()) =~= to);
        assert(r.skip(i + to.len()) =~= optimized.skip(i + decl.len()));
    }
}

proof fn lemma_leading_name(s: Seq<char>)
    ensures
        leading_name(s).len() <= s.len(),
        leading_name(s) == s.take(leading_name(s).len() as int),
        leading_name(s).len() < s.len() ==> !is_name_char(s[leading_name(s).len() as int]),
    decreases s.len(),
{
    if s.len() > 0 && is_name_char(s[0]) {
        let rest = s.skip(1);
        let n = leading_name(rest).len() as int;
        lemma_leading_name(rest);
        assert(s.take(n + 1) =~= seq![s[0]] + rest.take(n));
        assert(n < rest.len() ==> rest[n] == s[n + 1]);
    } else {
        assert(s.take(0) =~= seq![]);
    }
}

proof fn lemma_first_declared(lines: Seq<Seq<char>>) -> (k: int)
    requires
        first_declared(lines) is Some,
    ensures
        0 <= k < lines.len(),
        declared_name(lines[k]) == first_declared(lines),
    decreases lines.len(),
{
    if declared_name(lines[0]) is Some {
        0
    } else {
        let k = lemma_first_declared(lines.skip(1));
        assert(lines.skip(1)[k] == lines[k + 1]);
        k + 1
    }
}

/// All white space is ASCII.
pub open spec fn plain_spaces(s: Seq<char>) -> bool {
    forall|i: int| 0 <= i < s.len() && text::is_space(s[i]) ==> (#[trigger] s[i] as u32) < 128
}

/// A contract that is declared at the start of a line is found and renamed.
pub proof fn law_a_declared_contract_is_renamed(original: Seq<char>, optimized: Seq<char>)
    requires
        plain_spaces(optimized),
        contract_name(solidity::code_only(optimized)) is Some,
    ensures
        declaration_index(
            solidity::code_only(optimized),
            "contract "@ + own_name(original, optimized),
            0,
        ) is Some,
{
    let code = solidity::code_only(optimized);
    solidity::lemma_masked(optimized, solidity::Mode::Code);
    reveal_strlit("contract ");
    let ls = split::lines_of(code);
    let k = lemma_first_declared(ls);
    let line = ls[k];
    let (a, b) = split::lemma_line_place(code, k);
    let (p, q) = text::lemma_trimmed_place(line);
    let t = text::trimmed(line);
    let rest = text::after_prefix(t, "contract "@)->0;
    lemma_leading_name(rest);
    let name = leading_name(rest);
    let decl = "contract "@ + name;
    let i = a + p;
    let end = i + decl.len();
    assert(code.subrange(i, end) =~= decl) by {
        assert forall|j: int| 0 <= j < decl.len() implies code[i + j] == decl[j] by {
            assert(code[i + j] == line[p + j]);
            assert(line[p + j] == t[j]);
            if j < 9 {
                assert(t.subrange(0, 9)[j] == "contract "@[j]);
            } else {
                assert(rest[j - 9] == t[j]);
                assert(name[j - 9] == rest[j - 9]);
            }
        }
    }
    assert(p > 0 ==> code[i - 1] == line[p - 1]);
    assert(solidity::starts_word(code, i));
    if end < code.len() {
        if name.len() < rest.len() {
            let m = name.len() as int;
            assert(rest[m] == t[m + 9] == line[p + m + 9] == code[end]);
        } else if q < line.len() {
            assert(line[q] == code[end]);
            assert(code[end] == optimized[end] || code[end] == ' ');
        } else {
            assert(end == b);
        }
        assert(!is_name_char(code[end]));
    }
    assert(declares_at(code, decl, i));
    lemma_declaration_index(code, decl, 0);
}

fn find_declaration(code: &Vec<char>, decl: &Vec<char>) -> (r: Option<usize>)
    requires
        decl@.len() > 0,
    ensures
        match r {
            Some(i) => declaration_index(code@, decl@, 0) == Some(i as int) && i + decl@.len()
                <= code.len(),
            None => declaration_index(code@, decl@, 0) is None,
        },
{
    let mut i: usize = 0;
    while i < code.len()
        invariant
            i <= code@.len(),
            decl@.len() > 0,
            declaration_index(code@, decl@, 0) == declaration_index(code@, decl@, i as int),
        decreases code.len() - i,
    {
        if text::matches_at(code, decl, i) {
            let end: usize = i + decl.len();
            if (i == 0 || !solidity::identifier_char(code[i - 1])) && (end >= code.len() || !(
            code[end].is_alphanumeric() || code[end] == '_')) {
                return Some(i);
            }
        }
        i += 1;
    }
    proof {
        assert(declaration_index(code@, decl@, (code@.len() + 1) as int) is None);
    }
    None
}

/// Renames the contract that the optimized source declares.
fn rename(optimized: &str, own: &str, opt_name: &str) -> (r: String)
    ensures
        r@ == match declaration_index(
            solidity::code_only(optimized@),
            "contract "@ + own@,
            0,
        ) {
            Some(i) => optimized@.take(i) + ("contract "@ + opt_name@) + optimized@.skip(
                i + ("contract "@ + own@).len(),
            ),
            None => optimized@,
        },
{
    let v = chars(optimized);
    let code = solidity::code_chars(optimized);
    let mut from = "contract ".to_owned();
    from.append(own);
    let decl = chars(from.as_str());
    proof {
        reveal_strlit("contract ");
    }
    match find_declaration(&code, &decl) {
        Some(i) => {
            let mut to = "contract ".to_owned();
            to.append(opt_name);
            let mut out = string_of(&v, 0, i);
            let rest = string_of(&v, i + decl.len(), v.len());
            proof {
                assert(out@ =~= optimized@.take(i as int));
                assert(rest@ =~= optimized@.skip(i + decl@.len()));
            }
            out.append(to.as_str());
            out.append(rest.as_str());
            out
        },
        None => optimized.to_owned(),
    }
}

/// The project's configuration file.
pub open spec fn foundry_config(fuzz_runs: nat, rpc: Seq<char>) -> Seq<char> {
    "[profile.default]\nsrc=\"src\"\ntest=\"test\"\nevm_version=\"paris\"\n[fuzz]\nruns="@
        + number::decimal(fuzz_runs) + "\n[rpc_endpoints]\nmantle=\""@ + rpc + "\"\n"@
}

/// The project of an original and an optimized source.
pub open spec fn is_project(
    p: SandboxProject,
    original: Seq<char>,
    optimized: Seq<char>,
    runs: nat,
    rpc: Seq<char>,
) -> bool {
    &&& p.orig_name@ == original_name(original)
    &&& p.opt_name@ == optimized_name(original)
    &&& p.original_sol@ == cleaned(original)
    &&& p.optimized_sol@ == cleaned(renamed(original, optimized))
    &&& p.foundry_toml@ == foundry_config(runs, rpc)
}

/// Lays out the two-contract sandbox project. The optimized contract is renamed
/// `{orig}Optimized` so both can be imported into one test. Shared by the
/// construction-gas and behavioral-equivalence runs.
pub fn sandbox_project(original: &str, optimized: &str, runs: u64, rpc: &str) -> (r: SandboxProject)
    ensures
        is_project(r, original@, optimized@, runs as nat, rpc@),
        r.orig_name@ == original_name(original@),
        r.opt_name@ == optimized_name(original@),
        r.original_sol@ == cleaned(original@),
        r.optimized_sol@ == cleaned(renamed(original@, optimized@)),
        r.foundry_toml@ == foundry_config(runs as nat, rpc@),
{
    let (orig_name, opt_name) = sandbox_names(original);
    let code = solidity::code_chars(optimized);
    let code_text = string_of(&code, 0, code.len());
    proof {
        assert(code_text@ =~= solidity::code_only(optimized@));
    }
    let own = match extract_sol_contract_name(code_text.as_str()) {
        Some(name) => name,
        None => orig_name.clone(),
    };
    // Rename optimized contract to avoid symbol collision with original.
    let opt_code = rename(optimized, own.as_str(), opt_name.as_str());
    let mut toml =
        "[profile.default]\nsrc=\"src\"\ntest=\"test\"\nevm_version=\"paris\"\n[fuzz]\nruns=".to_owned();
    let n = show_u64(runs);
    toml.append(n.as_str());
    toml.append("\n[rpc_endpoints]\nmantle=\"");
    toml.append(rpc);
    toml.append("\"\n");
    SandboxProject {
        orig_name,
        opt_name,
        original_sol: clean_for_forge(original),
        optimized_sol: clean_for_forge(opt_code.as_str()),
        foundry_toml: toml,
    }
}

/// The test contract that constructs both contracts once.
pub open spec fn gas_test(orig: Seq<char>, opt: Seq<char>, args: Seq<char>) -> Seq<char> {
    "// SPDX-License-Identifier: MIT\npragma solidity ^0.8.0;\nimport \"../src/Original.sol\";\nimport \"../src/Optimized.sol\";\n\ncontract GasCompareTest {\nfunction test_original() external { new "@
        + orig + "("@ + args + "); }\nfunction test_optimized() external { new "@ + opt + "("@ + args
        + "); }\n}\n"@
}

/// The test file that measures construction gas: it constructs each contract once,
/// with the same arguments.
pub fn build_gas_test(orig_name: &str, opt_name: &str, ctor_args: &str) -> (r: String)
    ensures
        r@ == gas_test(orig_name@, opt_name@, ctor_args@),
{
    let mut out =
        "// SPDX-License-Identifier: MIT\npragma solidity ^0.8.0;\nimport \"../src/Original.sol\";\nimport \"../src/Optimized.sol\";\n\ncontract GasCompareTest {\nfunction test_original() external { new ".to_owned();
    out.append(orig_name);
    out.append("(");
    out.append(ctor_args);
    out.append("); }\nfunction test_optimized() external { new ");
    out.append(opt_name);
    out.append("(");
    out.append(ctor_args);
    out.append("); }\n}\n");
    out
}

/// The arguments of `forge build`.
pub fn build_args(root: &str) -> (r: Vec<String>)
    ensures
        text::views(r@) == seq!["build"@, "--root"@, root@],
{
    let mut out: Vec<String> = Vec::new();
    out.push("build".to_owned());
    out.push("--root".to_owned());
    out.push(root.to_owned());
    proof {
        assert(text::views(out@) =~= seq!["build"@, "--root"@, root@]);
    }
    out
}

/// The arguments of `forge test` on a fork. With `gas_report`, forge adds a
/// per-function gas table for both contracts.
pub fn test_args(root: &str, rpc: &str, gas_report: bool) -> (r: Vec<String>)
    ensures
        text::views(r@) == if gas_report {
            seq!["test"@, "--root"@, root@, "--fork-url"@, rpc@, "--gas-report"@, "-vv"@]
        } else {
            seq!["test"@, "--root"@, root@, "--fork-url"@, rpc@, "-vv"@]
        },
{
    let mut out: Vec<String> = Vec::new();
    out.push("test".to_owned());
    out.push("--root".to_owned());
    out.push(root.to_owned());
    out.push("--fork-url".to_owned());
    out.push(rpc.to_owned());
    if gas_report {
        out.push("--gas-report".to_owned());
    }
    out.push("-vv".to_owned());
    proof {
        if gas_report {
            assert(text::views(out@) =~= seq![
                "test"@,
                "--root"@,
                root@,
                "--fork-url"@,
                rpc@,
                "--gas-report"@,
                "-vv"@,
            ]);
        } else {
            assert(text::views(out@) =~= seq![
                "test"@,
                "--root"@,
                root@,
                "--fork-url"@,
                rpc@,
                "-vv"@,
            ]);
        }
    }
    out
}

// ── the construction-gas run ─────────────────────────────────────────────────

/// What follows the build of a construction-gas run.
pub enum SandboxStep {
    /// The run cannot go on.
    Fail(String),
    /// The contracts do not compile: answer with what the compiler said.
    Respond(VerifyResponse),
    /// Write `test/GasCompare.t.sol` and run the tests.
    Test(String),
}

/// The two streams of a process, one after the other.
pub fn combined_output(out: &ProcessOutput) -> (r: String)
    ensures
        r@ == out.stdout@ + out.stderr@,
{
    let mut s = out.stdout.clone();
    s.append(out.stderr.as_str());
    s
}

/// The message of a build that could not be run.
pub open spec fn build_failure(reason: Seq<char>) -> Seq<char> {
    "forge build failed (not installed or timed out): "@ + reason
}

/// The message of a test run that could not be made.
pub open spec fn test_failure(reason: Seq<char>) -> Seq<char> {
    "forge test failed or timed out: "@ + reason
}

/// Words a build that could not be run.
pub fn build_failure_message(reason: &str) -> (r: String)
    ensures
        r@ == build_failure(reason@),
{
    let mut out = "forge build failed (not installed or timed out): ".to_owned();
    out.append(reason);
    out
}

/// Words a test run that could not be made.
pub fn test_failure_message(reason: &str) -> (r: String)
    ensures
        r@ == test_failure(reason@),
{
    let mut out = "forge test failed or timed out: ".to_owned();
    out.append(reason);
    out
}

/// The response of a sandbox whose build failed with the given output.
pub open spec fn is_build_response(r: VerifyResponse, out: ProcessOutput) -> bool {
    &&& !r.compiles
    &&& text::views(r.errors@) == forge_errors(out.stderr@)
    &&& r.gas_original is None
    &&& r.gas_optimized is None
    &&& r.gas_saved is None
    &&& r.forge_output@ == out.stdout@ + out.stderr@
}

/// The response of a sandbox whose tests ran with the given output.
pub open spec fn is_test_response(r: VerifyResponse, out: ProcessOutput) -> bool {
    let ls = split::lines_of(out.stdout@);
    &&& r.compiles
    &&& r.errors@.len() == 0
    &&& gas::figure(r.gas_original) == gas::first_gas(ls, "test_original"@)
    &&& gas::figure(r.gas_optimized) == gas::first_gas(ls, "test_optimized"@)
    &&& gas::signed_figure(r.gas_saved) == gas::saving(
        gas::figure(r.gas_original),
        gas::figure(r.gas_optimized),
    )
    &&& r.forge_output@ == out.stdout@ + out.stderr@
}

/// Decides what follows the build of a construction-gas run.
pub fn after_build(
    project: &SandboxProject,
    original: &str,
    build: Result<ProcessOutput, String>,
) -> (r: SandboxStep)
    ensures
        match build {
            Err(e) => r matches SandboxStep::Fail(m) && m@ == build_failure(e@),
            Ok(out) => if out.success {
                r matches SandboxStep::Test(file) && file@ == gas_test(
                    project.orig_name@,
                    project.opt_name@,
                    constructor::constructor_args(original@),
                )
            } else {
                r matches SandboxStep::Respond(resp) && is_build_response(resp, out)
            },
        },
{
    match build {
        Err(e) => SandboxStep::Fail(build_failure_message(e.as_str())),
        Ok(out) => {
            if out.success {
                let args = synthesize_constructor_args(original);
                SandboxStep::Test(
                    build_gas_test(
                        project.orig_name.as_str(),
                        project.opt_name.as_str(),
                        args.as_str(),
                    ),
                )
            } else {
                SandboxStep::Respond(
                    VerifyResponse {
                        compiles: false,
                        errors: collect_forge_errors(out.stderr.as_str()),
                        gas_original: None,
                        gas_optimized: None,
                        gas_saved: None,
                        forge_output: combined_output(&out),
                    },
                )
            }
        },
    }
}

/// Reads the test run of a construction-gas run. Whether the tests passed does not
/// matter: the figures are read from whatever was printed.
pub fn after_test(run: Result<ProcessOutput, String>) -> (r: Result<VerifyResponse, String>)
    ensures
        match run {
            Err(e) => r matches Err(m) && m@ == test_failure(e@),
            Ok(out) => r matches Ok(resp) && is_test_response(resp, out),
        },
{
    match run {
        Err(e) => Err(test_failure_message(e.as_str())),
        Ok(out) => {
            let gas_original = parse_test_gas(out.stdout.as_str(), "test_original");
            let gas_optimized = parse_test_gas(out.stdout.as_str(), "test_optimized");
            Ok(
                VerifyResponse {
                    compiles: true,
                    errors: Vec::new(),
                    gas_original,
                    gas_optimized,
                    gas_saved: gas_saved(gas_original, gas_optimized),
                    forge_output: combined_output(&out),
                },
            )
        },
    }
}

// ── laws on cleaning and errors ──────────────────────────────────────────────

/// A line that is code in any reading: blank, or its first character is none that
/// markdown begins with.
pub open spec fn begins_as_code(line: Seq<char>) -> bool {
    let t = text::trimmed(line);
    t.len() == 0 || (t[0] != '`' && t[0] != '*' && t[0] != '-')
}

proof fn lemma_prefix_char(t: Seq<char>, p: Seq<char>, c: char)
    requires
        p.len() > 0,
        p[0] == c,
        t.len() > 0 ==> t[0] != c,
    ensures
        !text::has_prefix(t, p),
{
    if text::has_prefix(t, p) {
        assert(t.subrange(0, p.len() as int)[0] == t[0]);
    }
}

proof fn lemma_code_is_kept(line: Seq<char>)
    requires
        begins_as_code(line),
    ensures
        !is_markdown(line),
{
    let t = text::trimmed(line);
    reveal_strlit("```");
    reveal_strlit("**");
    reveal_strlit("*(");
    reveal_strlit("- ");
    lemma_prefix_char(t, "```"@, '`');
    lemma_prefix_char(t, "**"@, '*');
    lemma_prefix_char(t, "*("@, '*');
    lemma_prefix_char(t, "- "@, '-');
}

proof fn lemma_all_kept(lines: Seq<Seq<char>>)
    requires
        forall|i: int| 0 <= i < lines.len() ==> !is_markdown(#[trigger] lines[i]),
    ensures
        code_lines(lines) == lines,
    decreases lines.len(),
{
    reveal(Seq::filter);
    if lines.len() > 0 {
        let head = lines.drop_last();
        assert forall|i: int| 0 <= i < head.len() implies !is_markdown(#[trigger] head[i]) by {
            assert(head[i] == lines[i]);
        }
        lemma_all_kept(head);
        assert(!is_markdown(lines[lines.len() - 1]));
        assert(head.push(lines.last()) =~= lines);
    } else {
        assert(code_lines(lines) =~= lines);
    }
}

/// Cleaning keeps code: a source none of whose trimmed lines begins with a backquote, an
/// asterisk or a dash comes out with the same lines in the same order. A line that
/// begins with a letter, an underscore, a brace or a slash is thus always kept.
pub proof fn law_cleaning_keeps_code(code: Seq<char>)
    requires
        forall|i: int|
            0 <= i < split::lines_of(code).len() ==> ({
                let t = text::trimmed(#[trigger] split::lines_of(code)[i]);
                t.len() == 0 || (t[0] != '`' && t[0] != '*' && t[0] != '-')
            }),
    ensures
        cleaned(code) == split::joined(split::lines_of(code), "\n"@),
{
    let ls = split::lines_of(code);
    assert forall|i: int| 0 <= i < ls.len() implies !is_markdown(#[trigger] ls[i]) by {
        lemma_code_is_kept(ls[i]);
    }
    lemma_all_kept(ls);
}

/// Line by line: what is not one of the four forms of markdown is kept, though it begins
/// with one of their characters. A bullet counts only with a capital letter.
pub proof fn law_only_markdown_is_dropped(code: Seq<char>)
    requires
        forall|i: int|
            0 <= i < split::lines_of(code).len() ==> ({
                let t = text::trimmed(#[trigger] split::lines_of(code)[i]);
                &&& !text::has_prefix(t, "```"@)
                &&& !text::has_prefix(t, "**"@)
                &&& !text::has_prefix(t, "*("@)
                &&& !(text::has_prefix(t, "- "@) && text::trimmed(t.skip(2)).len() > 0
                    && unicode::is_capital(text::trimmed(t.skip(2))[0]))
            }),
    ensures
        cleaned(code) == split::joined(split::lines_of(code), "\n"@),
{
    reveal_strlit("- ");
    let ls = split::lines_of(code);
    assert forall|i: int| 0 <= i < ls.len() implies !is_markdown(#[trigger] ls[i]) by {}
    lemma_all_kept(ls);
}

proof fn lemma_kept_members(lines: Seq<Seq<char>>, line: Seq<char>)
    ensures
        code_lines(lines).contains(line) <==> lines.contains(line) && !is_markdown(line),
    decreases lines.len(),
{
    reveal(Seq::filter);
    if lines.len() > 0 {
        let head = lines.drop_last();
        lemma_kept_members(head, line);
        let kept = code_lines(head);
        assert(lines =~= head.push(lines.last()));
        if lines.contains(line) {
            let k = choose|k: int| 0 <= k < lines.len() && lines[k] == line;
            if k < head.len() {
                assert(head[k] == line);
            }
        }
        if head.contains(line) {
            let k = choose|k: int| 0 <= k < head.len() && head[k] == line;
            assert(lines[k] == line);
        }
        assert(lines[lines.len() - 1] == lines.last());
        if !is_markdown(lines.last()) {
            assert(code_lines(lines) == kept.push(lines.last()));
            assert(kept.push(lines.last())[kept.len() as int] == lines.last());
            if kept.contains(line) {
                let k = choose|k: int| 0 <= k < kept.len() && kept[k] == line;
                assert(kept.push(lines.last())[k] == line);
            }
            if kept.push(lines.last()).contains(line) && line != lines.last() {
                let k = choose|k: int|
                    0 <= k < kept.push(lines.last()).len() && kept.push(lines.last())[k] == line;
                assert(kept[k] == line);
            }
        }
    }
}

/// A fence, a bold line, an italic note or a bullet with a capital is dropped, whatever
/// surrounds it, and a line that begins as code is kept among them.
pub proof fn law_markdown_is_dropped(code: Seq<char>, line: Seq<char>)
    requires
        split::lines_of(code).contains(line),
    ensures
        ({
            let t = text::trimmed(line);
            text::has_prefix(t, "```"@) || text::has_prefix(t, "**"@) || text::has_prefix(
                t,
                "*("@,
            ) || (text::has_prefix(t, "- "@) && text::trimmed(t.skip(2)).len() > 0 && (
            'A' <= text::trimmed(t.skip(2))[0] <= 'Z'))
        }) ==> !code_lines(split::lines_of(code)).contains(line),
        ({
            let t = text::trimmed(line);
            t.len() == 0 || (t[0] != '`' && t[0] != '*' && t[0] != '-')
        }) ==> text::holds(cleaned(code), line),
{
    reveal_strlit("- ");
    let ls = split::lines_of(code);
    lemma_kept_members(ls, line);
    if begins_as_code(line) {
        lemma_code_is_kept(line);
        let kept = code_lines(ls);
        let k = choose|k: int| 0 <= k < kept.len() && kept[k] == line;
        let at = split::lemma_joined_holds(kept, "\n"@, k);
    }
}

/// The sandbox runs the submitted code: an original that begins as code on every line
/// comes out with the same lines, and so does the optimized source with its contract
/// renamed. The two contracts go by different names, both from the original.
pub proof fn law_the_sandbox_holds_the_submitted_code(
    p: SandboxProject,
    original: Seq<char>,
    optimized: Seq<char>,
    runs: nat,
    rpc: Seq<char>,
)
    requires
        is_project(p, original, optimized, runs, rpc),
    ensures
        (forall|i: int|
            0 <= i < split::lines_of(original).len() ==> begins_as_code(
                #[trigger] split::lines_of(original)[i],
            )) ==> p.original_sol@ == split::joined(split::lines_of(original), "\n"@),
        (forall|i: int|
            0 <= i < split::lines_of(renamed(original, optimized)).len() ==> begins_as_code(
                #[trigger] split::lines_of(renamed(original, optimized))[i],
            )) ==> p.optimized_sol@ == split::joined(
            split::lines_of(renamed(original, optimized)),
            "\n"@,
        ),
        p.opt_name@ == p.orig_name@ + "Optimized"@,
        text::holds(p.foundry_toml@, "runs="@ + number::decimal(runs)),
        text::holds(p.foundry_toml@, "mantle=\""@ + rpc + "\""@),
{
    if forall|i: int|
        0 <= i < split::lines_of(original).len() ==> begins_as_code(
            #[trigger] split::lines_of(original)[i],
        ) {
        law_cleaning_keeps_code(original);
    }
    let r = renamed(original, optimized);
    if forall|i: int|
        0 <= i < split::lines_of(r).len() ==> begins_as_code(#[trigger] split::lines_of(r)[i]) {
        law_cleaning_keeps_code(r);
    }
    let a =
        "[profile.default]\nsrc=\"src\"\ntest=\"test\"\nevm_version=\"paris\"\n[fuzz]\nruns="@;
    let b = "\n[rpc_endpoints]\nmantle=\""@;
    let d = number::decimal(runs);
    let toml = foundry_config(runs, rpc);
    let n = a.len() - 5;
    assert(n >= 0 && a == a.take(n) + "runs="@) by {
        reveal_strlit("[profile.default]\nsrc=\"src\"\ntest=\"test\"\nevm_version=\"paris\"\n[fuzz]\nruns=");
        reveal_strlit("runs=");
        assert(a =~= a.take(n) + "runs="@);
    }
    assert(toml =~= a.take(n) + ("runs="@ + d) + (b + rpc + "\"\n"@));
    text::lemma_put_between(a.take(n), "runs="@ + d, b + rpc + "\"\n"@);
    let m = b.len() - 8;
    assert(m >= 0 && b == b.take(m) + "mantle=\""@) by {
        reveal_strlit("\n[rpc_endpoints]\nmantle=\"");
        reveal_strlit("mantle=\"");
        assert(b =~= b.take(m) + "mantle=\""@);
    }
    assert("\"\n"@ == "\""@ + "\n"@) by {
        reveal_strlit("\"\n");
        reveal_strlit("\"");
        reveal_strlit("\n");
        assert("\"\n"@ =~= "\""@ + "\n"@);
    }
    assert(toml =~= (a + d + b.take(m)) + ("mantle=\""@ + rpc + "\""@) + "\n"@);
    text::lemma_put_between(a + d + b.take(m), "mantle=\""@ + rpc + "\""@, "\n"@);
}

/// Construction gas is measured on both contracts, with the same arguments.
pub proof fn law_the_gas_test_constructs_both(orig: Seq<char>, opt: Seq<char>, args: Seq<char>)
    ensures
        text::holds(
            gas_test(orig, opt, args),
            "function test_original() external { new "@ + orig + "("@ + args + "); }"@,
        ),
        text::holds(
            gas_test(orig, opt, args),
            "function test_optimized() external { new "@ + opt + "("@ + args + "); }"@,
        ),
{
    let a =
        "// SPDX-License-Identifier: MIT\npragma solidity ^0.8.0;\nimport \"../src/Original.sol\";\nimport \"../src/Optimized.sol\";\n\ncontract GasCompareTest {\nfunction test_original() external { new "@;
    let f = "function test_original() external { new "@;
    let n = a.len() - f.len();
    assert(n >= 0 && a == a.take(n) + f) by {
        reveal_strlit("// SPDX-License-Identifier: MIT\npragma solidity ^0.8.0;\nimport \"../src/Original.sol\";\nimport \"../src/Optimized.sol\";\n\ncontract GasCompareTest {\nfunction test_original() external { new ");
        reveal_strlit("function test_original() external { new ");
        assert(a =~= a.take(n) + f);
    }
    let b = "); }\nfunction test_optimized() external { new "@;
    let g = "function test_optimized() external { new "@;
    let e = "); }"@;
    assert(b == e + "\n"@ + g) by {
        reveal_strlit("); }\nfunction test_optimized() external { new ");
        reveal_strlit("function test_optimized() external { new ");
        reveal_strlit("); }");
        reveal_strlit("\n");
        assert(b =~= e + "\n"@ + g);
    }
    let c = "); }\n}\n"@;
    assert(c == e + "\n}\n"@) by {
        reveal_strlit("); }\n}\n");
        reveal_strlit("); }");
        reveal_strlit("\n}\n");
        assert(c =~= e + "\n}\n"@);
    }
    let x = f + orig + "("@ + args + e;
    let y = g + opt + "("@ + args + e;
    let t = gas_test(orig, opt, args);
    assert(t =~= a.take(n) + x + ("\n"@ + y + "\n}\n"@));
    text::lemma_put_between(a.take(n), x, "\n"@ + y + "\n}\n"@);
    assert(t =~= (a.take(n) + x + "\n"@) + y + "\n}\n"@);
    text::lemma_put_between(a.take(n) + x + "\n"@, y, "\n}\n"@);
}

proof fn lemma_error_kept(lines: Seq<Seq<char>>, k: int)
    requires
        0 <= k < lines.len(),
        reports_error(lines[k]),
    ensures
        error_lines(lines).contains(text::trimmed(lines[k])),
    decreases lines.len(),
{
    let head = lines.drop_last();
    assert(lines =~= head.push(lines.last()));
    lemma_error_lines_push(head, lines.last());
    if k < head.len() {
        assert(head[k] == lines[k]);
        lemma_error_kept(head, k);
        let old = error_lines(head);
        let i = choose|i: int| 0 <= i < old.len() && old[i] == text::trimmed(lines[k]);
        assert(error_lines(lines)[i] == text::trimmed(lines[k]));
    } else {
        let all = error_lines(lines);
        assert(all[all.len() - 1] == text::trimmed(lines[k]));
    }
}

proof fn lemma_error_from(lines: Seq<Seq<char>>, i: int) -> (k: int)
    requires
        0 <= i < error_lines(lines).len(),
    ensures
        0 <= k < lines.len(),
        error_lines(lines)[i] == text::trimmed(lines[k]),
        reports_error(lines[k]),
    decreases lines.len(),
{
    reveal(Seq::filter);
    let head = lines.drop_last();
    assert(lines.len() > 0) by {
        if lines.len() == 0 {
            assert(error_lines(lines).len() == 0);
        }
    }
    assert(lines =~= head.push(lines.last()));
    lemma_error_lines_push(head, lines.last());
    if i < error_lines(head).len() {
        lemma_error_from(head, i)
    } else {
        lines.len() - 1
    }
}

/// Compiler errors are reported: an ASCII line of the output that holds `error`,
/// `undeclared` or `not found`, in any case, is among the errors, trimmed, as long as
/// they are no more than twenty; and there are no others.
pub proof fn law_compiler_errors_are_reported(output: Seq<char>, k: int, word: Seq<char>)
    requires
        0 <= k < split::lines_of(output).len(),
        word == "error"@ || word == "undeclared"@ || word == "not found"@,
        text::holds(unicode::lowered(split::lines_of(output)[k]), word),
        text::trimmed(split::lines_of(output)[k]).len() > 0,
    ensures
        forge_errors(output).len() < 20 ==> forge_errors(output).contains(
            text::trimmed(split::lines_of(output)[k]),
        ),
        forge_errors(output).len() > 0,
{
    let ls = split::lines_of(output);
    lemma_error_kept(ls, k);
}

/// Nothing is reported but lines of the output that name an error.
pub proof fn law_only_errors_are_reported(output: Seq<char>, i: int) -> (k: int)
    requires
        0 <= i < forge_errors(output).len(),
    ensures
        0 <= k < split::lines_of(output).len(),
        forge_errors(output)[i] == text::trimmed(split::lines_of(output)[k]),
        ({
            let lo = unicode::lowered(split::lines_of(output)[k]);
            text::holds(lo, "error"@) || text::holds(lo, "undeclared"@) || text::holds(
                lo,
                "not found"@,
            )
        }),
        forge_errors(output).len() <= 20,
{
    lemma_error_from(split::lines_of(output), i)
}

/// A contract's name is what stands between `contract ` and the next character that no
/// name can hold, on the first line that begins so.
pub proof fn law_names_are_read_from_declarations(
    source: Seq<char>,
    k: int,
    name: Seq<char>,
    rest: Seq<char>,
)
    requires
        0 <= k < split::lines_of(source).len(),
        text::trimmed(split::lines_of(source)[k]) == "contract "@ + name + rest,
        name.len() > 0,
        forall|i: int|
            0 <= i < name.len() ==> text::is_ascii_word(#[trigger] name[i]) || name[i] == '_',
        rest.len() > 0 ==> (rest[0] as u32) < 128 && !text::is_ascii_word(rest[0]) && rest[0] != '_',
        forall|j: int|
            0 <= j < k ==> !text::has_prefix(
                text::trimmed(#[trigger] split::lines_of(source)[j]),
                "contract "@,
            ),
    ensures
        contract_name(source) == Some(name),
        original_name(source) == name,
        optimized_name(source) == name + "Optimized"@,
{
    reveal_strlit("contract ");
    let ls = split::lines_of(source);
    let t = text::trimmed(ls[k]);
    assert(t.subrange(0, 9) =~= "contract "@);
    assert(t.skip(9) =~= name + rest);
    lemma_read_name(name, rest);
    lemma_first_of(ls, k, name);
}

proof fn lemma_read_name(name: Seq<char>, rest: Seq<char>)
    requires
        forall|i: int|
            0 <= i < name.len() ==> text::is_ascii_word(#[trigger] name[i]) || name[i] == '_',
        rest.len() > 0 ==> (rest[0] as u32) < 128 && !text::is_ascii_word(rest[0]) && rest[0] != '_',
    ensures
        leading_name(name + rest) == name,
    decreases name.len(),
{
    let s = name + rest;
    if name.len() > 0 {
        assert(s[0] == name[0]);
        assert(text::is_ascii_word(name[0]) || name[0] == '_');
        assert(s.skip(1) =~= name.skip(1) + rest);
        assert forall|i: int| 0 <= i < name.skip(1).len() implies text::is_ascii_word(
            #[trigger] name.skip(1)[i],
        ) || name.skip(1)[i] == '_' by {
            assert(name.skip(1)[i] == name[i + 1]);
        }
        lemma_read_name(name.skip(1), rest);
        assert(seq![name[0]] + name.skip(1) =~= name);
    } else {
        assert(s =~= rest);
        assert(leading_name(s) =~= name);
    }
}

proof fn lemma_first_of(lines: Seq<Seq<char>>, k: int, name: Seq<char>)
    requires
        0 <= k < lines.len(),
        declared_name(lines[k]) == Some(name),
        forall|j: int|
            0 <= j < k ==> !text::has_prefix(
                text::trimmed(#[trigger] lines[j]),
                "contract "@,
            ),
    ensures
        first_declared(lines) == Some(name),
    decreases k,
{
    if k > 0 {
        let rest = lines.skip(1);
        assert(!text::has_prefix(text::trimmed(lines[0]), "contract "@));
        assert(rest[k - 1] == lines[k]);
        assert forall|j: int| 0 <= j < k - 1 implies !text::has_prefix(
            text::trimmed(#[trigger] rest[j]),
            "contract "@,
        ) by {
            assert(rest[j] == lines[j + 1]);
        }
        lemma_first_of(rest, k - 1, name);
    }
}

/// The response to a run gives the figures that forge printed for the two contracts,
/// each under its own name, and what the rewrite saves by them.
pub proof fn law_the_response_gives_the_measured_gas(
    r: VerifyResponse,
    out: ProcessOutput,
    original: (int, Seq<char>, nat),
    optimized: (int, Seq<char>, nat),
)
    requires
        is_test_response(r, out),
        original.2 < 0x8000_0000_0000_0000,
        optimized.2 < 0x8000_0000_0000_0000,
        ({
            let ls = split::lines_of(out.stdout@);
            &&& 0 <= original.0 < ls.len()
            &&& ls[original.0] == original.1 + "gas:"@ + (" "@ + number::decimal(original.2)
                + ")"@)
            &&& text::holds(original.1, "test_original"@)
            &&& !text::holds(original.1, "gas:"@)
            &&& forall|j: int|
                0 <= j < original.0 ==> !text::holds(#[trigger] ls[j], "test_original"@)
            &&& 0 <= optimized.0 < ls.len()
            &&& ls[optimized.0] == optimized.1 + "gas:"@ + (" "@ + number::decimal(optimized.2)
                + ")"@)
            &&& text::holds(optimized.1, "test_optimized"@)
            &&& !text::holds(optimized.1, "gas:"@)
            &&& forall|j: int|
                0 <= j < optimized.0 ==> !text::holds(#[trigger] ls[j], "test_optimized"@)
        }),
    ensures
        r.compiles,
        r.errors@.len() == 0,
        r.gas_original matches Some(g) && g == original.2,
        r.gas_optimized matches Some(g) && g == optimized.2,
        r.gas_saved matches Some(g) && g == original.2 - optimized.2,
        r.forge_output@ == out.stdout@ + out.stderr@,
{
    let ls = split::lines_of(out.stdout@);
    gas::law_gas_figures_are_read(original.1, "test_original"@, original.2);
    gas::law_the_first_line_of_the_test_counts(ls, "test_original"@, original.0);
    gas::law_gas_figures_are_read(optimized.1, "test_optimized"@, optimized.2);
    gas::law_the_first_line_of_the_test_counts(ls, "test_optimized"@, optimized.0);
    gas::law_saving_is_the_difference(original.2, optimized.2);
}

/// A failed build is reported as one: no figures, and an error wherever the compiler
/// named one.
pub proof fn law_a_failed_build_is_reported(r: VerifyResponse, out: ProcessOutput, k: int, word: Seq<char>)
    requires
        is_build_response(r, out),
    ensures
        !r.compiles,
        r.gas_original is None && r.gas_optimized is None && r.gas_saved is None,
        r.forge_output@ == out.stdout@ + out.stderr@,
        ({
            let ls = split::lines_of(out.stderr@);
            0 <= k < ls.len() && (word == "error"@ || word == "undeclared"@ || word
                == "not found"@) && text::holds(unicode::lowered(ls[k]), word) && text::trimmed(
                ls[k],
            ).len() > 0 && r.errors@.len() < 20 ==> text::views(r.errors@).contains(
                text::trimmed(ls[k]),
            )
        }),
{
    let ls = split::lines_of(out.stderr@);
    assert(text::views(r.errors@).len() == r.errors@.len());
    if 0 <= k < ls.len() && (word == "error"@ || word == "undeclared"@ || word == "not found"@)
        && text::holds(unicode::lowered(ls[k]), word) && text::trimmed(ls[k]).len() > 0 {
        law_compiler_errors_are_reported(out.stderr@, k, word);
    }
}

/// A setting is taken as it is written, a missing or unreadable one by its default, and
/// a test is fuzzed at least once.
pub proof fn law_settings_are_read(n: nat, max: nat, default: nat)
    requires
        n <= max,
    ensures
        setting_or(Some(number::decimal(n)), max, default) == n,
        setting_or(None, max, default) == default,
        1 <= n <= u32::MAX ==> fuzz_runs_of(Some(number::decimal(n))) == n,
        fuzz_runs_of(None) == 64,
        fuzz_runs_of(Some(number::decimal(0))) == 1,
{
    number::law_decimal_reads_back(n as int);
    number::law_decimal_reads_back(0);
}

} // verus!
