//! The core pipeline: cache lookup, parse, route (oneshot/decompose/fallback),
//! optimize functions concurrently, then gate the result on behavioural equivalence
//! + a proven construction-gas win.
//!
//! Every decision of a run is made here, from plain values; the calls to the model,
//! to forge and to the stores are the caller's part.

use crate::analyze::{self, analyze_contract, ContractSkeleton, FunctionInfo, FunctionModel};
use crate::bytes;
use crate::dto::{self, copy_strings, OptimizeResponse};
use crate::equivalence::{self, EquivResult};
use crate::gas::{self, FunctionGas};
use crate::logging::{self, fmt_gas, RunLog};
use crate::number::{self, show_hex16, show_i64, show_usize};
use crate::orchestrator::{Route, Task};
use crate::order::{self, sort_unique};
use crate::split::{self, join};
use crate::splice::{self, FnResult};
use crate::state::{ONESHOT_MAX_BYTES, ONESHOT_MAX_FUNCS};
use crate::text::{self, same};
use crate::utils::{self, strip_code_fences};
use std::collections::hash_map::DefaultHasher;
use std::hash::Hasher;
use vstd::prelude::*;

verus! {

broadcast use vstd::seq::group_seq_axioms;

// ── identity ─────────────────────────────────────────────────────────────────

/// The byte that ends a hashed text.
pub const HASH_END: u8 = 0xff;

/// Non-cryptographic identity hash of the contract source, for the run log: sixteen
/// hexadecimal digits.
pub fn hash_source(src: &str) -> (r: String)
    ensures
        r@ == source_hash(src@),
{
    let mut h = DefaultHasher::new();
    h.write(src.as_bytes());
    let end: [u8; 1] = [HASH_END];
    h.write(&end);
    proof {
        assert(h@ =~= seq![vstd::utf8::encode_utf8(src@), end@]);
        assert(end@ =~= seq![HASH_END]);
    }
    show_hex16(h.finish())
}

// ── planning ─────────────────────────────────────────────────────────────────

/// What a request without a function to optimize is answered.
pub const NO_FUNCTIONS: &'static str =
    "No optimizable functions found \u{2014} ensure the contract parses correctly";

/// Everything that the optimization of a contract works on.
pub struct Plan {
    pub category: Option<&'static str>,
    pub functions: Vec<FunctionInfo>,
    /// Storage context for the agents: raw declarations + the deterministic
    /// per-contract slot-derivation guide, so the model uses THIS layout's slots
    /// rather than a retrieved pattern's incompatible scheme.
    pub storage: String,
    pub file_decls: String,
    /// What the router is shown.
    pub skeleton_text: String,
    /// `(name, signature)` of every function to verify.
    pub targets: Vec<(String, String)>,
}

/// The name and signature of each header.
pub open spec fn target_pairs(sigs: Seq<analyze::SigModel>) -> Seq<(Seq<char>, Seq<char>)> {
    sigs.map_values(|s: analyze::SigModel| (s.name, s.signature))
}

/// The plan for a contract's skeleton.
pub open spec fn is_plan(p: Plan, skeleton: ContractSkeleton) -> bool {
    &&& p.category == skeleton.category
    &&& p.functions == skeleton.functions
    &&& p.storage@ == skeleton.storage_layout@ + "\n\n"@ + skeleton.slot_guide@
    &&& p.file_decls == skeleton.file_decls
    &&& p.skeleton_text@ == skeleton.rendered()
    &&& text::pair_views(p.targets@) == target_pairs(analyze::sig_models(skeleton.signatures@))
}

fn list_targets(sigs: &Vec<analyze::FnSig>) -> (r: Vec<(String, String)>)
    ensures
        text::pair_views(r@) == target_pairs(analyze::sig_models(sigs@)),
{
    let ghost all = target_pairs(analyze::sig_models(sigs@));
    let mut out: Vec<(String, String)> = Vec::new();
    let mut i: usize = 0;
    proof {
        assert(text::pair_views(out@) =~= all.take(0));
    }
    while i < sigs.len()
        invariant
            i <= sigs@.len(),
            all == target_pairs(analyze::sig_models(sigs@)),
            text::pair_views(out@) == all.take(i as int),
        decreases sigs.len() - i,
    {
        let pair = (sigs[i].name.clone(), sigs[i].signature.clone());
        proof {
            assert(all[i as int] == (pair.0@, pair.1@));
            assert(text::pair_views(out@.push(pair)) =~= text::pair_views(out@).push(
                (pair.0@, pair.1@),
            ));
            assert(all.take(i as int).push(all[i as int]) =~= all.take(i + 1));
        }
        out.push(pair);
        i += 1;
    }
    proof {
        assert(all.take(all.len() as int) =~= all);
    }
    out
}

/// The plan for a contract whose skeleton is known. One without functions cannot be
/// optimized.
pub fn plan_from(skeleton: ContractSkeleton) -> (r: Result<Plan, String>)
    ensures
        match r {
            Ok(p) => skeleton.functions@.len() > 0 && is_plan(p, skeleton),
            Err(e) => skeleton.functions@.len() == 0 && e@ == NO_FUNCTIONS@,
        },
{
    if skeleton.functions.len() == 0 {
        return Err(NO_FUNCTIONS.to_owned());
    }
    let skeleton_text = skeleton.render();
    let targets = list_targets(&skeleton.signatures);
    let mut storage = skeleton.storage_layout.clone();
    storage.append("\n\n");
    storage.append(skeleton.slot_guide.as_str());
    Ok(
        Plan {
            category: skeleton.category,
            functions: skeleton.functions,
            storage,
            file_decls: skeleton.file_decls,
            skeleton_text,
            targets,
        },
    )
}

/// The functions that a parsed source has to optimize.
pub open spec fn optimizable(source: Seq<char>) -> Seq<FunctionModel> {
    match analyze::outline(source) {
        Some(units) => analyze::targets(
            source,
            analyze::all_parts(units),
        ),
        None => seq![],
    }
}

/// Plans the optimization of a contract: a source that does not parse, or has no
/// function to optimize, is refused.
pub fn prepare(source: &str) -> (r: Result<Plan, String>)
    ensures
        match r {
            Ok(p) => {
                &&& optimizable(source@).len() > 0
                &&& analyze::function_models(p.functions@) == optimizable(source@)
                &&& exists|skeleton: ContractSkeleton|
                    is_plan(p, skeleton) && #[trigger] analyze::is_skeleton_of(
                        skeleton,
                        source@,
                        analyze::outline(source@)->0,
                    )
            },
            Err(e) => optimizable(source@).len() == 0 && e@ == NO_FUNCTIONS@,
        },
{
    let skeleton = analyze_contract(source);
    proof {
        assert(analyze::function_models(skeleton.functions@).len() == skeleton.functions@.len());
    }
    plan_from(skeleton)
}

// ── routing ──────────────────────────────────────────────────────────────────

/// A contract that is always optimized in one shot.
pub open spec fn is_small(functions: nat, source: Seq<char>) -> bool {
    functions <= ONESHOT_MAX_FUNCS && bytes::byte_len(source) <= ONESHOT_MAX_BYTES
}

/// Whether the router decides about the contract. Small contracts skip the router
/// call entirely: the answer is always oneshot, so a deterministic gate saves the
/// round-trip and removes a failure surface.
pub fn needs_router(plan: &Plan, source: &str) -> (r: bool)
    ensures
        r == !is_small(plan.functions@.len(), source@),
{
    !(plan.functions.len() <= ONESHOT_MAX_FUNCS && bytes::byte_count(source) <= ONESHOT_MAX_BYTES)
}

/// Which path a run takes.
pub enum Dispatch {
    /// The whole contract in one pass.
    Oneshot,
    /// The given functions, one agent each, under the given mode.
    FanOut(&'static str, Vec<FunctionInfo>),
}

/// A task names the function.
pub open spec fn is_wanted(tasks: Seq<Task>, name: Seq<char>) -> bool {
    exists|t: int, k: int|
        0 <= t < tasks.len() && 0 <= k < tasks[t].target_fns@.len()
            && #[trigger] tasks[t].target_fns@[k]@ == name
}

/// The functions that the tasks name.
pub open spec fn wanted(functions: Seq<FunctionModel>, tasks: Seq<Task>) -> Seq<FunctionModel> {
    functions.filter(|f: FunctionModel| is_wanted(tasks, f.name))
}

/// The functions to optimize: those that the tasks name, or all where they name none
/// that is known.
pub open spec fn selected(functions: Seq<FunctionModel>, tasks: Seq<Task>) -> Seq<FunctionModel> {
    if wanted(functions, tasks).len() > 0 {
        wanted(functions, tasks)
    } else {
        functions
    }
}

fn names_function(tasks: &Vec<Task>, name: &str) -> (r: bool)
    ensures
        r == is_wanted(tasks@, name@),
{
    let mut t: usize = 0;
    while t < tasks.len()
        invariant
            t <= tasks@.len(),
            forall|a: int, b: int|
                0 <= a < t && 0 <= b < tasks@[a].target_fns@.len() ==> (
                #[trigger] tasks@[a].target_fns@[b])@ != name@,
        decreases tasks.len() - t,
    {
        let mut k: usize = 0;
        while k < tasks[t as usize].target_fns.len()
            invariant
                t < tasks@.len(),
                k <= tasks@[t as int].target_fns@.len(),
                forall|b: int|
                    0 <= b < k ==> (#[trigger] tasks@[t as int].target_fns@[b])@ != name@,
            decreases tasks@[t as int].target_fns@.len() - k,
        {
            if same(tasks[t].target_fns[k].as_str(), name) {
                proof {
                    assert(tasks@[t as int].target_fns@[k as int]@ == name@);
                }
                return true;
            }
            k += 1;
        }
        t += 1;
    }
    false
}

fn copy_function(f: &FunctionInfo) -> (r: FunctionInfo)
    ensures
        r.model() == f.model(),
{
    FunctionInfo { name: f.name.clone(), source: f.source.clone(), start: f.start, end: f.end }
}

fn select_functions(functions: Vec<FunctionInfo>, tasks: &Vec<Task>) -> (r: Vec<FunctionInfo>)
    ensures
        analyze::function_models(r@) == selected(analyze::function_models(functions@), tasks@),
{
    let ghost all = analyze::function_models(functions@);
    let mut out: Vec<FunctionInfo> = Vec::new();
    let mut i: usize = 0;
    proof {
        reveal(Seq::filter);
        assert(analyze::function_models(out@) =~= wanted(all.take(0), tasks@));
    }
    while i < functions.len()
        invariant
            i <= functions@.len(),
            all == analyze::function_models(functions@),
            analyze::function_models(out@) == wanted(all.take(i as int), tasks@),
        decreases functions.len() - i,
    {
        proof {
            reveal(Seq::filter);
            assert(all.take(i + 1).drop_last() =~= all.take(i as int));
            assert(all.take(i + 1).last() == functions@[i as int].model());
        }
        if names_function(tasks, functions[i].name.as_str()) {
            let f = copy_function(&functions[i]);
            proof {
                assert(analyze::function_models(out@.push(f)) =~= analyze::function_models(
                    out@,
                ).push(f.model()));
            }
            out.push(f);
        }
        i += 1;
    }
    proof {
        assert(all.take(all.len() as int) =~= all);
        assert(analyze::function_models(out@).len() == out@.len());
    }
    if out.len() > 0 {
        out
    } else {
        functions
    }
}

/// Takes the path that was routed. Any routing failure falls back to full
/// per-function fan-out, so robustness never regresses.
pub fn dispatch(functions: Vec<FunctionInfo>, route: Result<Route, String>) -> (r: Dispatch)
    ensures
        match route {
            Ok(Route::Oneshot) => r is Oneshot,
            Ok(Route::Decompose(tasks)) => r matches Dispatch::FanOut(mode, fs) && mode@
                == "decompose"@ && analyze::function_models(fs@) == selected(
                analyze::function_models(functions@),
                tasks@,
            ),
            Err(_) => r matches Dispatch::FanOut(mode, fs) && mode@ == "fallback"@ && fs
                == functions,
        },
{
    match route {
        Ok(Route::Oneshot) => Dispatch::Oneshot,
        Ok(Route::Decompose(tasks)) => {
            let fs = select_functions(functions, &tasks);
            Dispatch::FanOut("decompose", fs)
        },
        Err(_) => Dispatch::FanOut("fallback", functions),
    }
}

// ── the rewrite ──────────────────────────────────────────────────────────────

/// What the agents made of a contract.
pub struct Rewrite {
    pub code: String,
    /// The patterns that were retrieved, in dictionary order, each once.
    pub patterns: Vec<String>,
}

/// The rewrite of a whole contract: the agent's code, or the original where the
/// agent failed.
pub fn oneshot_rewrite(source: &str, answer: Result<String, String>, pattern_ids: &Vec<String>) -> (r:
    Rewrite)
    ensures
        r.code@ == match answer {
            Ok(a) => utils::code_of(a@),
            Err(_) => source@,
        },
        text::views(r.patterns@) == order::sorted_unique(text::views(pattern_ids@)),
{
    let code = match answer {
        Ok(a) => strip_code_fences(a.as_str()),
        Err(_) => source.to_owned(),
    };
    Rewrite { code, patterns: sort_unique(pattern_ids) }
}

/// The rewrite that the per-function agents' results amount to.
pub fn fan_out_rewrite(source: &str, results: &Vec<FnResult>) -> (r: Rewrite)
    requires
        splice::applicable(source@, splice::descending(splice::models(results@))),
    ensures
        r.code@ == splice::applied_all(
            source@,
            splice::descending(splice::models(results@)),
        ),
        text::views(r.patterns@) == order::sorted_unique(
            splice::all_patterns(splice::descending(splice::models(results@))),
        ),
{
    let out = splice::splice_functions(source, results);
    Rewrite { code: out.code, patterns: out.patterns }
}

// ── release ──────────────────────────────────────────────────────────────────

/// What stands between a rewrite and its release.
#[derive(PartialEq, Eq, Structural, Clone, Copy, Debug)]
pub enum Gate {
    /// No rewrite was produced: verifying the original against itself would be a
    /// waste.
    NoRewrite,
    /// Behavioural verification.
    Verify,
    /// Nothing: forge is not available.
    Unchecked,
}

/// Decides how a rewrite is gated.
pub fn gate(source: &str, code: &str, forge_available: bool) -> (r: Gate)
    ensures
        r == (if code@ == source@ {
            Gate::NoRewrite
        } else if forge_available {
            Gate::Verify
        } else {
            Gate::Unchecked
        }),
{
    if same(code, source) {
        Gate::NoRewrite
    } else if forge_available {
        Gate::Verify
    } else {
        Gate::Unchecked
    }
}

/// What is released, and what is said about it.
pub struct Verdict {
    pub code: String,
    pub analysis: String,
    /// Whether the result is worth caching: a real optimization or a clean one-shot.
    /// Transient failures (compile error, regression, forge error) are NOT cached,
    /// so an identical request can be retried.
    pub cacheable: bool,
    /// Whether forge proved the rewrite equivalent on every target function.
    pub proven: bool,
    pub gas_original: Option<u64>,
    pub gas_optimized: Option<u64>,
    pub gas_saved: Option<i64>,
    /// Real per-function runtime gas (set only on an accepted, forge-verified
    /// rewrite).
    pub fn_gas: Vec<FunctionGas>,
}

/// A verdict without figures.
pub open spec fn is_plain(v: Verdict) -> bool {
    &&& !v.proven
    &&& v.gas_original is None
    &&& v.gas_optimized is None
    &&& v.gas_saved is None
    &&& v.fn_gas@.len() == 0
}

/// The original is kept, and the result is not cached.
pub open spec fn keeps_original(v: Verdict, source: Seq<char>) -> bool {
    is_plain(v) && v.code@ == source && !v.cacheable
}

fn keep_original(source: &str, analysis: String) -> (r: Verdict)
    ensures
        keeps_original(r, source@),
        r.analysis == analysis,
{
    Verdict {
        code: source.to_owned(),
        analysis,
        cacheable: false,
        proven: false,
        gas_original: None,
        gas_optimized: None,
        gas_saved: None,
        fn_gas: Vec::new(),
    }
}

/// The verdict where no rewrite was produced.
pub fn no_rewrite(source: &str) -> (r: Verdict)
    ensures
        keeps_original(r, source@),
        r.analysis@ == "No optimized rewrite produced \u{2014} original returned unchanged."@,
{
    keep_original(
        source,
        "No optimized rewrite produced \u{2014} original returned unchanged.".to_owned(),
    )
}

/// The verdict where forge is not available.
pub fn unchecked(code: String) -> (r: Verdict)
    ensures
        is_plain(r),
        r.code == code,
        r.cacheable,
        r.analysis@ == "Optimized one-shot \u{2014} forge unavailable, not verified."@,
{
    Verdict {
        code,
        analysis: "Optimized one-shot \u{2014} forge unavailable, not verified.".to_owned(),
        cacheable: true,
        proven: false,
        gas_original: None,
        gas_optimized: None,
        gas_saved: None,
        fn_gas: Vec::new(),
    }
}

/// Behaviourally equivalent AND a construction-gas win.
pub open spec fn is_accepted(er: EquivResult) -> bool {
    er.compiles && er.all_passed && match er.gas_saved {
        Some(n) => n > 0,
        None => false,
    }
}

/// What is said about the functions without proof; nothing where there are none.
pub open spec fn unverified_note(er: EquivResult) -> Seq<char> {
    if er.unproven().len() == 0 {
        ""@
    } else {
        " (unverified \u{2014} test generation failed: "@ + split::joined(er.unproven(), ", "@)
            + ")"@
    }
}

/// What is said about an accepted rewrite.
pub open spec fn accepted_analysis(er: EquivResult, saved: i64) -> Seq<char> {
    "Behaviourally equivalent to the original on "@ + number::decimal(er.valid_count as nat)
        + " differential test(s) on a Mantle fork"@ + unverified_note(er) + ". Construction gas "@
        + logging::gas_text(er.gas_original) + " \u{2192} "@ + logging::gas_text(er.gas_optimized)
        + " (saved "@ + number::signed_decimal(saved as int) + ")."@
}

/// What is said about a rewrite that was verified and is not accepted.
pub open spec fn rejected_analysis(er: EquivResult) -> Seq<char> {
    if er.compiles && er.all_passed {
        "Rewrite rejected \u{2014} behaviourally equivalent but no construction-gas improvement. Kept original."@
    } else if er.compiles && er.failed@.len() > 0 {
        "Rewrite rejected \u{2014} behavioural mismatch vs original in: "@ + split::joined(
            text::views(er.failed@),
            ", "@,
        ) + ". Kept original."@
    } else if er.compiles {
        "Rewrite rejected \u{2014} equivalence could not be established (test generation produced no valid tests). Kept original."@
    } else {
        "Rewrite rejected \u{2014} did not compile. Kept original. Errors: "@ + split::joined(
            text::views(er.errors@),
            "; "@,
        )
    }
}

/// The entries of the functions that are optimization targets: getters that the
/// differential tests called for assertions are dropped.
pub open spec fn target_gas(
    entries: Seq<(gas::GasRow, Option<i64>)>,
    targets: Seq<Seq<char>>,
) -> Seq<(gas::GasRow, Option<i64>)> {
    entries.filter(|e: (gas::GasRow, Option<i64>)| targets.contains(e.0.name))
}

fn keep_target_gas(list: &Vec<FunctionGas>, targets: &Vec<(String, String)>) -> (r: Vec<FunctionGas>)
    ensures
        dto::gas_entries(r@) == target_gas(
            dto::gas_entries(list@),
            equivalence::names(targets@),
        ),
{
    let ghost all = dto::gas_entries(list@);
    let ghost ts = equivalence::names(targets@);
    let mut out: Vec<FunctionGas> = Vec::new();
    let mut i: usize = 0;
    proof {
        reveal(Seq::filter);
        assert(dto::gas_entries(out@) =~= target_gas(all.take(0), ts));
    }
    while i < list.len()
        invariant
            i <= list@.len(),
            all == dto::gas_entries(list@),
            ts == equivalence::names(targets@),
            dto::gas_entries(out@) == target_gas(all.take(i as int), ts),
        decreases list.len() - i,
    {
        proof {
            reveal(Seq::filter);
            assert(all.take(i + 1).drop_last() =~= all.take(i as int));
            assert(all.take(i + 1).last() == (list@[i as int].row(), list@[i as int].gas_saved));
        }
        if equivalence::has_test(targets, list[i].name.as_str()) {
            let e = list[i].clone();
            proof {
                assert(dto::gas_entries(out@.push(e)) =~= dto::gas_entries(out@).push(
                    (e.row(), e.gas_saved),
                ));
            }
            out.push(e);
        }
        i += 1;
    }
    proof {
        assert(all.take(all.len() as int) =~= all);
    }
    out
}

fn write_accepted(er: &EquivResult, saved: i64, unverified: &Vec<String>) -> (r: String)
    requires
        text::views(unverified@) == er.unproven(),
    ensures
        r@ == accepted_analysis(*er, saved),
{
    proof {
        assert(text::views(unverified@).len() == unverified@.len());
    }
    let count = show_usize(er.valid_count);
    let before = fmt_gas(er.gas_original);
    let after = fmt_gas(er.gas_optimized);
    let amount = show_i64(saved);
    let mut note = "".to_owned();
    if unverified.len() > 0 {
        let list = join(unverified, ", ");
        note = " (unverified \u{2014} test generation failed: ".to_owned();
        note.append(list.as_str());
        note.append(")");
    }
    let mut out = "Behaviourally equivalent to the original on ".to_owned();
    out.append(count.as_str());
    out.append(" differential test(s) on a Mantle fork");
    out.append(note.as_str());
    out.append(". Construction gas ");
    out.append(before.as_str());
    out.append(" \u{2192} ");
    out.append(after.as_str());
    out.append(" (saved ");
    out.append(amount.as_str());
    out.append(").");
    out
}

fn write_rejected(er: &EquivResult) -> (r: String)
    ensures
        r@ == rejected_analysis(*er),
{
    if er.compiles && er.all_passed {
        "Rewrite rejected \u{2014} behaviourally equivalent but no construction-gas improvement. Kept original.".to_owned()
    } else if er.compiles && er.failed.len() > 0 {
        let list = join(&er.failed, ", ");
        let mut out = "Rewrite rejected \u{2014} behavioural mismatch vs original in: ".to_owned();
        out.append(list.as_str());
        out.append(". Kept original.");
        out
    } else if er.compiles {
        "Rewrite rejected \u{2014} equivalence could not be established (test generation produced no valid tests). Kept original.".to_owned()
    } else {
        let list = join(&er.errors, "; ");
        let mut out =
            "Rewrite rejected \u{2014} did not compile. Kept original. Errors: ".to_owned();
        out.append(list.as_str());
        out
    }
}

/// What is said about a rewrite that could not be verified.
pub open spec fn unverifiable_analysis(reason: Seq<char>) -> Seq<char> {
    "Rewrite rejected \u{2014} could not verify ("@ + reason + "). Kept original."@
}

/// The verdict on a rewrite, given its verification.
pub open spec fn is_judged(
    v: Verdict,
    source: Seq<char>,
    code: Seq<char>,
    targets: Seq<Seq<char>>,
    verification: Result<EquivResult, String>,
) -> bool {
    match verification {
        Ok(er) => if is_accepted(er) {
            &&& v.code@ == code
            &&& v.analysis@ == accepted_analysis(er, er.gas_saved->0)
            &&& v.cacheable
            &&& v.proven == (er.unproven().len() == 0)
            &&& v.gas_original == er.gas_original
            &&& v.gas_optimized == er.gas_optimized
            &&& v.gas_saved == er.gas_saved
            &&& dto::gas_entries(v.fn_gas@) == target_gas(
                dto::gas_entries(er.per_function_gas@),
                targets,
            )
        } else {
            keeps_original(v, source) && v.analysis@ == rejected_analysis(er)
        },
        Err(e) => keeps_original(v, source) && v.analysis@ == unverifiable_analysis(e@),
    }
}

/// Final authoritative gate: behavioural equivalence (differential tests vs the
/// original on a Mantle fork) + a proven construction-gas win. Everything else keeps
/// the original.
pub fn judge(
    source: &str,
    code: String,
    targets: &Vec<(String, String)>,
    verification: Result<EquivResult, String>,
) -> (r: Verdict)
    ensures
        is_judged(r, source@, code@, equivalence::names(targets@), verification),
{
    let er = match verification {
        Ok(er) => er,
        Err(e) => {
            let mut m = "Rewrite rejected \u{2014} could not verify (".to_owned();
            m.append(e.as_str());
            m.append("). Kept original.");
            return keep_original(source, m);
        },
    };
    let saved: i64 = match er.gas_saved {
        Some(n) => n,
        None => 0,
    };
    if er.compiles && er.all_passed && saved > 0 {
        let unverified = er.unverified();
        proof {
            assert(text::views(unverified@).len() == unverified@.len());
        }
        let analysis = write_accepted(&er, saved, &unverified);
        Verdict {
            code,
            analysis,
            cacheable: true,
            proven: unverified.len() == 0,
            gas_original: er.gas_original,
            gas_optimized: er.gas_optimized,
            gas_saved: er.gas_saved,
            fn_gas: keep_target_gas(&er.per_function_gas, targets),
        }
    } else {
        let analysis = write_rejected(&er);
        keep_original(source, analysis)
    }
}

// ── the outcome ──────────────────────────────────────────────────────────────

/// How a run ends: the answer, what is recorded about it, and where it is cached.
pub struct Outcome {
    pub response: OptimizeResponse,
    pub run: RunLog,
    /// Cache the answer in memory.
    pub remember: bool,
    /// Store the answer durably.
    pub store: bool,
}

/// The mode of a run that takes the given path.
pub fn mode_of(path: &Dispatch) -> (r: &'static str)
    ensures
        r@ == match path {
            Dispatch::Oneshot => "oneshot"@,
            Dispatch::FanOut(mode, _) => mode@,
        },
{
    match path {
        Dispatch::Oneshot => "oneshot",
        Dispatch::FanOut(mode, _) => mode,
    }
}

/// The identity of a contract source in the run log.
pub open spec fn source_hash(source: Seq<char>) -> Seq<char> {
    number::hex(
        <DefaultHasher as vstd::std_specs::hash::DefaultHasherAdditionalSpecFns>::spec_finish(
            seq![vstd::utf8::encode_utf8(source), seq![HASH_END]],
        ) as nat,
        16,
    )
}

/// The end of a run with the given verdict.
pub open spec fn is_finished(
    r: Outcome,
    source: Seq<char>,
    mode: Seq<char>,
    patterns: Seq<Seq<char>>,
    verdict: Verdict,
    ts: u64,
) -> bool {
    &&& r.response.analysis == verdict.analysis
    &&& text::views(r.response.suggested_patterns@) == patterns
    &&& r.response.optimized_code == verdict.code
    &&& r.response.gas_before == verdict.gas_original
    &&& r.response.gas_after == verdict.gas_optimized
    &&& r.response.gas_saved == verdict.gas_saved
    &&& r.response.per_function_gas == verdict.fn_gas
    &&& r.run.contract_hash@ == source_hash(source)
    &&& r.run.mode@ == mode
    &&& r.run.gas_original == verdict.gas_original
    &&& r.run.gas_optimized == verdict.gas_optimized
    &&& r.run.gas_saved == verdict.gas_saved
    &&& text::views(r.run.pattern_ids@) == patterns
    &&& r.run.ts == ts
    &&& r.remember == verdict.cacheable
    &&& r.store == (verdict.cacheable && verdict.proven)
}

/// Ends a run. A cacheable answer is remembered in memory; the durable store takes
/// only a rewrite that forge proved equivalent on every target function.
pub fn finish(
    source: &str,
    mode: &'static str,
    patterns: Vec<String>,
    verdict: Verdict,
    ts: u64,
) -> (r: Outcome)
    ensures
        is_finished(r, source@, mode@, text::views(patterns@), verdict, ts),
{
    let pattern_ids = copy_strings(&patterns);
    Outcome {
        run: RunLog {
            contract_hash: hash_source(source),
            mode,
            gas_original: verdict.gas_original,
            gas_optimized: verdict.gas_optimized,
            gas_saved: verdict.gas_saved,
            pattern_ids,
            ts,
        },
        remember: verdict.cacheable,
        store: verdict.cacheable && verdict.proven,
        response: OptimizeResponse {
            analysis: verdict.analysis,
            suggested_patterns: patterns,
            optimized_code: verdict.code,
            gas_before: verdict.gas_original,
            gas_after: verdict.gas_optimized,
            gas_saved: verdict.gas_saved,
            per_function_gas: verdict.fn_gas,
        },
    }
}

// ── laws ─────────────────────────────────────────────────────────────────────

/// A verified rewrite is released only where it compiles, every valid test passes
/// and it saves construction gas.
pub proof fn law_released_rewrites_are_verified(
    v: Verdict,
    source: Seq<char>,
    code: Seq<char>,
    targets: Seq<Seq<char>>,
    verification: Result<EquivResult, String>,
)
    requires
        is_judged(v, source, code, targets, verification),
        v.code@ != source,
    ensures
        v.code@ == code,
        verification matches Ok(er) && is_accepted(er),
{
}

/// A rewrite that is rejected, for whatever reason, leaves the contract as it was,
/// and the answer is not cached, so that the request can be retried.
pub proof fn law_rejected_rewrites_keep_the_original(
    v: Verdict,
    source: Seq<char>,
    code: Seq<char>,
    targets: Seq<Seq<char>>,
    verification: Result<EquivResult, String>,
    end: Outcome,
    mode: Seq<char>,
    patterns: Seq<Seq<char>>,
    ts: u64,
)
    requires
        is_judged(v, source, code, targets, verification),
        !(verification matches Ok(er) && is_accepted(er)),
        is_finished(end, source, mode, patterns, v, ts),
    ensures
        end.response.optimized_code@ == source,
        !end.remember,
        !end.store,
        end.response.gas_saved is None,
{
}

/// Only a rewrite that forge proved behaviourally equivalent on every target
/// function is stored durably: each target has a test, and the test passed both the
/// sanity suite and the comparison.
pub proof fn law_stored_rewrites_are_proven(
    v: Verdict,
    source: Seq<char>,
    code: Seq<char>,
    end: Outcome,
    mode: Seq<char>,
    patterns: Seq<Seq<char>>,
    ts: u64,
    er: EquivResult,
    run: EquivResult,
    targets: Seq<(String, String)>,
    tests: Seq<(String, String)>,
    orig_name: Seq<char>,
    opt_name: Seq<char>,
    out: crate::forge::ProcessOutput,
    name: Seq<char>,
)
    requires
        is_judged(v, source, code, equivalence::names(targets), Ok(er)),
        is_finished(end, source, mode, patterns, v, ts),
        end.store,
        crate::verify::is_final(er, run, targets, tests),
        equivalence::is_test_result(run, orig_name, opt_name, equivalence::names(tests), out),
        equivalence::names(targets).contains(name),
    ensures
        equivalence::proven(
            equivalence::names(tests),
            equivalence::sanity_results(out.stdout@),
            equivalence::comparison_results(out.stdout@),
            name,
        ),
{
    let sanity = equivalence::sanity_results(out.stdout@);
    let eq = equivalence::comparison_results(out.stdout@);
    let ts = equivalence::names(targets);
    let ns = equivalence::names(tests);
    crate::verify::law_final_result_lists_are_disjoint(er, run, targets, tests, sanity, name);
    assert(!er.unproven().contains(name)) by {
        assert(er.unproven().len() == 0);
    }
    assert(text::views(run.failed@).len() == run.failed@.len());
    assert(!equivalence::divergent(ns, sanity, eq).contains(name)) by {
        assert(run.failed@.len() == 0);
    }
    equivalence::law_proven_iff_not_listed(ts, ns, sanity, eq, name);
}

/// The functions without proof are never passed over in silence: an accepted
/// rewrite's analysis names each of them.
pub proof fn law_unverified_functions_are_named(er: EquivResult, saved: i64)
    requires
        er.unproven().len() > 0,
    ensures
        text::holds(accepted_analysis(er, saved), split::joined(er.unproven(), ", "@)),
{
    let list = split::joined(er.unproven(), ", "@);
    let intro = "Behaviourally equivalent to the original on "@ + number::decimal(
        er.valid_count as nat,
    ) + " differential test(s) on a Mantle fork"@;
    let open = " (unverified \u{2014} test generation failed: "@;
    let at = intro.len() + open.len();
    let all = accepted_analysis(er, saved);
    assert(all.subrange(at as int, (at + list.len()) as int) =~= list);
    assert(text::occurs_at(all, list, at as int));
}

// ── laws on what is released ─────────────────────────────────────────────────

/// A verified win is released: a rewrite that compiles, passes every valid test and
/// saves construction gas comes out as it is, with the measured figures, and is cached.
/// It counts as proven exactly where no test is broken and none is missing.
pub proof fn law_a_verified_win_is_released(
    v: Verdict,
    source: Seq<char>,
    code: Seq<char>,
    targets: Seq<Seq<char>>,
    er: EquivResult,
    end: Outcome,
    mode: Seq<char>,
    patterns: Seq<Seq<char>>,
    ts: u64,
)
    requires
        is_judged(v, source, code, targets, Ok(er)),
        is_finished(end, source, mode, patterns, v, ts),
        er.compiles,
        er.all_passed,
        er.gas_saved matches Some(n) && n > 0,
    ensures
        end.response.optimized_code@ == code,
        end.response.gas_before == er.gas_original,
        end.response.gas_after == er.gas_optimized,
        end.response.gas_saved == er.gas_saved,
        end.remember,
        end.store == (er.invalid@.len() == 0 && er.missing@.len() == 0),
        end.run.gas_original == er.gas_original,
        end.run.gas_optimized == er.gas_optimized,
        end.run.gas_saved == er.gas_saved,
        text::views(end.response.suggested_patterns@) == patterns,
        text::views(end.run.pattern_ids@) == patterns,
        end.run.mode@ == mode,
        end.run.ts == ts,
{
    lemma_unproven(er);
}

proof fn lemma_unproven(er: EquivResult)
    ensures
        er.unproven().len() == 0 <==> er.invalid@.len() == 0 && er.missing@.len() == 0,
{
    let all = text::views(er.invalid@) + text::views(er.missing@);
    order::law_sorting_keeps_every_entry(all, seq![], 0, 0);
    assert(text::views(er.invalid@).len() == er.invalid@.len());
    assert(text::views(er.missing@).len() == er.missing@.len());
}

/// Nothing else is released: without a build, a passed run or a saving above zero, or
/// where the verification failed, the answer is the contract as it was submitted, with
/// no figures, and it is not cached.
pub proof fn law_nothing_else_is_released(
    v: Verdict,
    source: Seq<char>,
    code: Seq<char>,
    targets: Seq<Seq<char>>,
    verification: Result<EquivResult, String>,
    end: Outcome,
    mode: Seq<char>,
    patterns: Seq<Seq<char>>,
    ts: u64,
)
    requires
        is_judged(v, source, code, targets, verification),
        is_finished(end, source, mode, patterns, v, ts),
        match verification {
            Ok(er) => !er.compiles || !er.all_passed || er.gas_saved is None || er.gas_saved->0
                <= 0,
            Err(_) => true,
        },
    ensures
        end.response.optimized_code@ == source,
        end.response.gas_before is None,
        end.response.gas_after is None,
        end.response.gas_saved is None,
        end.response.per_function_gas@.len() == 0,
        !end.remember,
        !end.store,
{
}

/// A divergence is named: where a rewrite compiles and functions diverge, the answer
/// names each of them; and where it does not compile, it cites each error.
pub proof fn law_the_reason_is_given(
    v: Verdict,
    source: Seq<char>,
    code: Seq<char>,
    targets: Seq<Seq<char>>,
    er: EquivResult,
    i: int,
)
    requires
        is_judged(v, source, code, targets, Ok(er)),
    ensures
        er.compiles && !er.all_passed && 0 <= i < er.failed@.len() ==> text::holds(
            v.analysis@,
            er.failed@[i]@,
        ),
        !er.compiles && 0 <= i < er.errors@.len() ==> text::holds(v.analysis@, er.errors@[i]@),
{
    if er.compiles && !er.all_passed && 0 <= i < er.failed@.len() {
        let names = text::views(er.failed@);
        assert(names[i] == er.failed@[i]@);
        let list = split::joined(names, ", "@);
        let at = split::lemma_joined_holds(names, ", "@, i);
        let a = "Rewrite rejected \u{2014} behavioural mismatch vs original in: "@;
        text::lemma_put_further(a, list, ". Kept original."@, names[i], at);
        assert(text::occurs_at(v.analysis@, names[i], a.len() + at));
    }
    if !er.compiles && 0 <= i < er.errors@.len() {
        let names = text::views(er.errors@);
        assert(names[i] == er.errors@[i]@);
        let list = split::joined(names, "; "@);
        let at = split::lemma_joined_holds(names, "; "@, i);
        let a = "Rewrite rejected \u{2014} did not compile. Kept original. Errors: "@;
        text::lemma_put_further(a, list, seq![], names[i], at);
        assert(a + list + seq![] =~= v.analysis@);
        assert(text::occurs_at(v.analysis@, names[i], a.len() + at));
    }
}

/// Every function without proof is named in the answer, one by one.
pub proof fn law_every_unverified_function_is_named(er: EquivResult, saved: i64, name: Seq<char>)
    requires
        text::views(er.invalid@).contains(name) || text::views(er.missing@).contains(name),
    ensures
        text::holds(accepted_analysis(er, saved), name),
{
    let all = text::views(er.invalid@) + text::views(er.missing@);
    if text::views(er.invalid@).contains(name) {
        let k = choose|k: int|
            0 <= k < text::views(er.invalid@).len() && text::views(er.invalid@)[k] == name;
        assert(all[k] == name);
    } else {
        let k = choose|k: int|
            0 <= k < text::views(er.missing@).len() && text::views(er.missing@)[k] == name;
        assert(all[er.invalid@.len() + k] == name);
    }
    assert(all.contains(name));
    order::law_sorting_keeps_every_entry(all, name, 0, 0);
    let list = er.unproven();
    let k = choose|k: int| 0 <= k < list.len() && list[k] == name;
    let at = split::lemma_joined_holds(list, ", "@, k);
    law_unverified_functions_are_named(er, saved);
    let joined = split::joined(list, ", "@);
    let analysis = accepted_analysis(er, saved);
    let place = choose|place: int| text::occurs_at(analysis, joined, place);
    assert(analysis.subrange(place + at, place + at + name.len()) =~= joined.subrange(
        at,
        at + name.len(),
    ));
    assert(text::occurs_at(analysis, name, place + at));
}

/// The measured savings are reported for the target functions, and for no others.
pub proof fn law_gas_is_reported_for_the_targets(
    v: Verdict,
    source: Seq<char>,
    code: Seq<char>,
    targets: Seq<Seq<char>>,
    er: EquivResult,
    entry: (gas::GasRow, Option<i64>),
)
    requires
        is_judged(v, source, code, targets, Ok(er)),
        er.compiles,
        er.all_passed,
        er.gas_saved matches Some(n) && n > 0,
    ensures
        dto::gas_entries(v.fn_gas@).contains(entry) <==> dto::gas_entries(
            er.per_function_gas@,
        ).contains(entry) && targets.contains(entry.0.name),
{
    order::lemma_filter_members(
        dto::gas_entries(er.per_function_gas@),
        |e: (gas::GasRow, Option<i64>)| targets.contains(e.0.name),
        entry,
    );
}

/// Every function that a task names is optimized, and where the tasks name none that is
/// known, all of them are.
pub proof fn law_named_functions_are_optimized(
    functions: Seq<FunctionModel>,
    tasks: Seq<Task>,
    f: FunctionModel,
    t: int,
    k: int,
)
    requires
        functions.contains(f),
    ensures
        0 <= t < tasks.len() && 0 <= k < tasks[t].target_fns@.len() && tasks[t].target_fns@[k]@
            == f.name ==> selected(functions, tasks).contains(f),
        tasks.len() == 0 ==> selected(functions, tasks) == functions,
        selected(functions, tasks).len() > 0,
{
    let p = |f: FunctionModel| is_wanted(tasks, f.name);
    order::lemma_filter_members(functions, p, f);
    assert(functions.len() > 0);
    if tasks.len() == 0 {
        let w = wanted(functions, tasks);
        if w.len() > 0 {
            assert(w.contains(w[0]));
            order::lemma_filter_members(functions, p, w[0]);
        }
    }
}

/// Small contracts skip the router: at most four functions and 4096 bytes. A larger one
/// in either respect does not.
pub proof fn law_only_small_contracts_skip_the_router(functions: nat, source: Seq<char>)
    ensures
        is_small(functions, source) <==> functions <= 4 && bytes::byte_len(source) <= 4096,
{
}

/// The plan lists every function to verify, and shows the agents the storage with its
/// recipes.
pub proof fn law_the_plan_covers_the_contract(p: Plan, skeleton: ContractSkeleton, i: int)
    requires
        is_plan(p, skeleton),
    ensures
        p.targets@.len() == skeleton.signatures@.len(),
        0 <= i < p.targets@.len() ==> p.targets@[i].0@ == skeleton.signatures@[i].name@
            && p.targets@[i].1@ == skeleton.signatures@[i].signature@,
        p.functions == skeleton.functions,
        text::holds(p.storage@, skeleton.storage_layout@),
        text::holds(p.storage@, skeleton.slot_guide@),
        p.file_decls == skeleton.file_decls,
        p.category == skeleton.category,
{
    let pairs = text::pair_views(p.targets@);
    let sigs = analyze::sig_models(skeleton.signatures@);
    assert(pairs.len() == p.targets@.len());
    assert(sigs.len() == skeleton.signatures@.len());
    assert(target_pairs(sigs).len() == sigs.len());
    if 0 <= i < p.targets@.len() {
        assert(pairs[i] == (p.targets@[i].0@, p.targets@[i].1@));
        assert(sigs[i] == skeleton.signatures@[i].model());
        assert(target_pairs(sigs)[i] == (sigs[i].name, sigs[i].signature));
    }
    let a = skeleton.storage_layout@;
    text::lemma_put_between(seq![], a, "\n\n"@ + skeleton.slot_guide@);
    assert(seq![] + a + ("\n\n"@ + skeleton.slot_guide@) =~= p.storage@);
    text::lemma_ends(a + "\n\n"@, skeleton.slot_guide@);
}

} // verus!
