//! The course of an optimize request, from the lookup in the caches to the answer.
//!
//! A request is a state, what happens to it is an event, and each event leads to the
//! next state and to the action that the caller performs. The caller hands the
//! action's outcome back as the next event.

use crate::analyze::{self, FunctionInfo};
use crate::dto::OptimizeResponse;
use crate::equivalence::{self, EquivResult};
use crate::normalize::{self, lexical_key};
use crate::optimize::{self, Dispatch, Gate, Outcome, Plan, Rewrite, Verdict};
use crate::orchestrator::Route;
use crate::order;
use crate::splice::{self, FnResult};
use crate::state::{self, CACHE_CAPACITY};
use crate::text;
use crate::utils;
use vstd::prelude::*;

verus! {

broadcast use vstd::seq::group_seq_axioms;

/// What a request keeps once its functions have been handed out.
pub struct Context {
    pub category: Option<&'static str>,
    pub storage: String,
    pub file_decls: String,
    pub targets: Vec<(String, String)>,
}

/// What a request waits for.
pub enum Stage {
    /// The in-memory cache.
    Memory,
    /// The durable cache.
    Store,
    /// The router.
    Routed(Plan),
    /// The agent that optimizes the whole contract.
    Answer(Context),
    /// The agents that optimize the functions, in the given mode.
    Functions(&'static str, Context),
    /// The verification of a rewrite.
    Verified(&'static str, Context, Rewrite),
    /// Nothing: it is over.
    Over,
}

/// An optimize request under way.
pub struct Request {
    pub source: String,
    /// The normalized source, under which answers are cached.
    pub key: String,
    pub forge_available: bool,
    pub stage: Stage,
}

/// What to do next.
pub enum Action {
    /// Look the key up in the in-memory cache.
    AskMemory,
    /// Look the key up in the durable cache.
    AskStore,
    /// Answer from the in-memory cache.
    Reply(OptimizeResponse),
    /// Put the answer of the durable cache into the in-memory cache, and answer.
    WarmAndReply(OptimizeResponse),
    /// Refuse the request, and why.
    Refuse(String),
    /// Ask the router about the plan's skeleton.
    AskRouter,
    /// Have the whole contract optimized.
    OptimizeContract,
    /// Have the functions optimized, one agent each.
    OptimizeFunctions(Vec<FunctionInfo>),
    /// Have the rewrite verified.
    Verify,
    /// Record the run, cache the answer as told, and answer.
    Finish(Outcome),
}

impl Request {
    /// Everything but the stage is as in another request.
    pub open spec fn same_request(self, other: Request) -> bool {
        &&& self.source == other.source
        &&& self.key == other.key
        &&& self.forge_available == other.forge_available
    }
}

/// The context of a plan.
pub open spec fn is_context(c: Context, p: Plan) -> bool {
    &&& c.category == p.category
    &&& c.storage == p.storage
    &&& c.file_decls == p.file_decls
    &&& c.targets == p.targets
}

/// The step that takes a routed path.
pub open spec fn takes_path(
    stage: Stage,
    action: Action,
    plan: Plan,
    route: Result<Route, String>,
) -> bool {
    match route {
        Ok(Route::Oneshot) => {
            &&& stage matches Stage::Answer(c) && is_context(c, plan)
            &&& action is OptimizeContract
        },
        Ok(Route::Decompose(tasks)) => {
            &&& stage matches Stage::Functions(mode, c) && mode@ == "decompose"@ && is_context(
                c,
                plan,
            )
            &&& action matches Action::OptimizeFunctions(fs) && analyze::function_models(fs@)
                == optimize::selected(analyze::function_models(plan.functions@), tasks@)
        },
        Err(_) => {
            &&& stage matches Stage::Functions(mode, c) && mode@ == "fallback"@ && is_context(
                c,
                plan,
            )
            &&& action == Action::OptimizeFunctions(plan.functions)
        },
    }
}

/// The plan of a request: that of the skeleton of its source.
pub open spec fn is_plan_of(p: Plan, source: Seq<char>) -> bool {
    &&& optimize::optimizable(source).len() > 0
    &&& analyze::function_models(p.functions@) == optimize::optimizable(source)
    &&& exists|skeleton: analyze::ContractSkeleton|
        optimize::is_plan(p, skeleton) && #[trigger] analyze::is_skeleton_of(
            skeleton,
            source,
            analyze::outline(source)->0,
        )
}

/// The key under which the answer to a source is cached.
pub open spec fn cache_key(source: Seq<char>) -> Seq<char> {
    normalize::key_text(normalize::canonical(normalize::lexed(source), false))
}

/// Begins a request: the caches are asked first, under the NORMALIZED source
/// (comments/whitespace stripped), so formatting-only differences still hit.
pub fn begin(source: String, forge_available: bool) -> (r: (Request, Action))
    ensures
        r.0.source == source,
        r.0.key@ == cache_key(source@),
        r.0.forge_available == forge_available,
        r.0.stage is Memory,
        r.1 is AskMemory,
{
    let key = lexical_key(source.as_str());
    (Request { source, key, forge_available, stage: Stage::Memory }, Action::AskMemory)
}

/// The in-memory cache has answered.
pub fn on_memory(req: Request, hit: Option<OptimizeResponse>) -> (r: (Request, Action))
    requires
        req.stage is Memory,
    ensures
        r.0.same_request(req),
        match hit {
            Some(resp) => r.0.stage is Over && r.1 == Action::Reply(resp),
            None => r.0.stage is Store && r.1 is AskStore,
        },
{
    let mut out = req;
    match hit {
        Some(resp) => {
            out.stage = Stage::Over;
            (out, Action::Reply(resp))
        },
        None => {
            out.stage = Stage::Store;
            (out, Action::AskStore)
        },
    }
}

/// Takes the path that was routed.
fn take_path(plan: Plan, route: Result<Route, String>) -> (r: (Stage, Action))
    ensures
        takes_path(r.0, r.1, plan, route),
{
    let context = Context {
        category: plan.category,
        storage: plan.storage,
        file_decls: plan.file_decls,
        targets: plan.targets,
    };
    match optimize::dispatch(plan.functions, route) {
        Dispatch::Oneshot => (Stage::Answer(context), Action::OptimizeContract),
        Dispatch::FanOut(mode, functions) => (
            Stage::Functions(mode, context),
            Action::OptimizeFunctions(functions),
        ),
    }
}

/// The durable cache has answered. Without a hit the contract is parsed: one without
/// functions is refused, a small one is optimized in one shot, and the router
/// decides about any other.
pub fn on_store(req: Request, hit: Option<OptimizeResponse>) -> (r: (Request, Action))
    requires
        req.stage is Store,
    ensures
        r.0.same_request(req),
        match hit {
            Some(resp) => r.0.stage is Over && r.1 == Action::WarmAndReply(resp),
            None => if optimize::optimizable(req.source@).len() == 0 {
                &&& r.0.stage is Over
                &&& r.1 matches Action::Refuse(e) && e@ == optimize::NO_FUNCTIONS@
            } else if optimize::is_small(
                optimize::optimizable(req.source@).len(),
                req.source@,
            ) {
                exists|p: Plan| #[trigger]
                    is_plan_of(p, req.source@) && takes_path(
                        r.0.stage,
                        r.1,
                        p,
                        Ok(Route::Oneshot),
                    )
            } else {
                &&& r.0.stage matches Stage::Routed(p) && is_plan_of(p, req.source@)
                &&& r.1 is AskRouter
            },
        },
{
    let mut out = req;
    if let Some(resp) = hit {
        out.stage = Stage::Over;
        return (out, Action::WarmAndReply(resp));
    }
    match optimize::prepare(out.source.as_str()) {
        Err(e) => {
            out.stage = Stage::Over;
            (out, Action::Refuse(e))
        },
        Ok(plan) => {
            proof {
                assert(analyze::function_models(plan.functions@).len() == plan.functions@.len());
                assert(is_plan_of(plan, req.source@));
            }
            if optimize::needs_router(&plan, out.source.as_str()) {
                out.stage = Stage::Routed(plan);
                (out, Action::AskRouter)
            } else {
                let (stage, action) = take_path(plan, Ok(Route::Oneshot));
                out.stage = stage;
                (out, action)
            }
        },
    }
}

/// The router has decided, or failed to.
pub fn on_routed(req: Request, route: Result<Route, String>) -> (r: (Request, Action))
    requires
        req.stage is Routed,
    ensures
        r.0.same_request(req),
        req.stage matches Stage::Routed(plan) && takes_path(r.0.stage, r.1, plan, route),
{
    let source = req.source;
    let key = req.key;
    let forge_available = req.forge_available;
    match req.stage {
        Stage::Routed(plan) => {
            let (stage, action) = take_path(plan, route);
            (Request { source, key, forge_available, stage }, action)
        },
        other => (Request { source, key, forge_available, stage: other }, Action::AskRouter),
    }
}

/// The step that a rewrite leads to: verification where forge is there to do it,
/// the end of the run otherwise.
pub open spec fn gates(
    req: Request,
    action: Action,
    source: Seq<char>,
    forge_available: bool,
    mode: Seq<char>,
    context: Context,
    code: Seq<char>,
    patterns: Seq<Seq<char>>,
    ts: u64,
) -> bool {
    if code == source {
        &&& req.stage is Over
        &&& action matches Action::Finish(end) && exists|v: Verdict| #[trigger]
            optimize::is_finished(end, source, mode, patterns, v, ts)
                && optimize::keeps_original(v, source) && v.analysis@
                == "No optimized rewrite produced \u{2014} original returned unchanged."@
    } else if forge_available {
        &&& req.stage matches Stage::Verified(m, c, rw) && m@ == mode && c == context && rw.code@
            == code && text::views(rw.patterns@) == patterns
        &&& action is Verify
    } else {
        &&& req.stage is Over
        &&& action matches Action::Finish(end) && exists|v: Verdict| #[trigger]
            optimize::is_finished(end, source, mode, patterns, v, ts) && optimize::is_plain(v)
                && v.code@ == code && v.cacheable && v.analysis@
                == "Optimized one-shot \u{2014} forge unavailable, not verified."@
    }
}

fn pass_gate(
    source: String,
    key: String,
    forge_available: bool,
    mode: &'static str,
    context: Context,
    rewrite: Rewrite,
    ts: u64,
) -> (r: (Request, Action))
    ensures
        r.0.source == source,
        r.0.key == key,
        r.0.forge_available == forge_available,
        gates(
            r.0,
            r.1,
            source@,
            forge_available,
            mode@,
            context,
            rewrite.code@,
            text::views(rewrite.patterns@),
            ts,
        ),
{
    match optimize::gate(source.as_str(), rewrite.code.as_str(), forge_available) {
        Gate::NoRewrite => {
            let v = optimize::no_rewrite(source.as_str());
            let ghost verdict = v;
            let end = optimize::finish(source.as_str(), mode, rewrite.patterns, v, ts);
            proof {
                assert(optimize::is_finished(
                    end,
                    source@,
                    mode@,
                    text::views(rewrite.patterns@),
                    verdict,
                    ts,
                ));
            }
            (Request { source, key, forge_available, stage: Stage::Over }, Action::Finish(end))
        },
        Gate::Verify => (
            Request {
                source,
                key,
                forge_available,
                stage: Stage::Verified(mode, context, rewrite),
            },
            Action::Verify,
        ),
        Gate::Unchecked => {
            let v = optimize::unchecked(rewrite.code);
            let ghost verdict = v;
            let end = optimize::finish(source.as_str(), mode, rewrite.patterns, v, ts);
            proof {
                assert(optimize::is_finished(
                    end,
                    source@,
                    mode@,
                    text::views(rewrite.patterns@),
                    verdict,
                    ts,
                ));
            }
            (Request { source, key, forge_available, stage: Stage::Over }, Action::Finish(end))
        },
    }
}

/// The code of a one-shot answer: the agent's, or the original where it failed.
pub open spec fn oneshot_code(source: Seq<char>, answer: Result<String, String>) -> Seq<char> {
    match answer {
        Ok(a) => utils::code_of(a@),
        Err(_) => source,
    }
}

/// The agent that optimizes the whole contract has answered, or failed.
pub fn on_answered(
    req: Request,
    answer: Result<String, String>,
    pattern_ids: &Vec<String>,
    ts: u64,
) -> (r: (Request, Action))
    requires
        req.stage is Answer,
    ensures
        r.0.same_request(req),
        req.stage matches Stage::Answer(context) && gates(
            r.0,
            r.1,
            req.source@,
            req.forge_available,
            "oneshot"@,
            context,
            oneshot_code(req.source@, answer),
            order::sorted_unique(text::views(pattern_ids@)),
            ts,
        ),
{
    let source = req.source;
    let key = req.key;
    let forge_available = req.forge_available;
    match req.stage {
        Stage::Answer(context) => {
            let rewrite = optimize::oneshot_rewrite(source.as_str(), answer, pattern_ids);
            pass_gate(source, key, forge_available, "oneshot", context, rewrite, ts)
        },
        other => (
            Request { source, key, forge_available, stage: other },
            Action::OptimizeContract,
        ),
    }
}

/// The agents that optimize the functions are done.
pub fn on_functions(req: Request, results: &Vec<FnResult>, ts: u64) -> (r: (Request, Action))
    requires
        req.stage is Functions,
        splice::applicable(req.source@, splice::descending(splice::models(results@))),
    ensures
        r.0.same_request(req),
        req.stage matches Stage::Functions(mode, context) && gates(
            r.0,
            r.1,
            req.source@,
            req.forge_available,
            mode@,
            context,
            splice::applied_all(
                req.source@,
                splice::descending(splice::models(results@)),
            ),
            order::sorted_unique(
                splice::all_patterns(splice::descending(splice::models(results@))),
            ),
            ts,
        ),
{
    let source = req.source;
    let key = req.key;
    let forge_available = req.forge_available;
    match req.stage {
        Stage::Functions(mode, context) => {
            let rewrite = optimize::fan_out_rewrite(source.as_str(), results);
            pass_gate(source, key, forge_available, mode, context, rewrite, ts)
        },
        other => (
            Request { source, key, forge_available, stage: other },
            Action::OptimizeFunctions(Vec::new()),
        ),
    }
}

/// The rewrite has been verified, or could not be.
pub fn on_verified(req: Request, verification: Result<EquivResult, String>, ts: u64) -> (r: (
    Request,
    Action,
))
    requires
        req.stage is Verified,
    ensures
        r.0.same_request(req),
        r.0.stage is Over,
        req.stage matches Stage::Verified(mode, context, rewrite) && r.1 matches Action::Finish(end)
            && exists|v: Verdict| #[trigger]
            optimize::is_finished(
                end,
                req.source@,
                mode@,
                text::views(rewrite.patterns@),
                v,
                ts,
            ) && optimize::is_judged(
                v,
                req.source@,
                rewrite.code@,
                equivalence::names(context.targets@),
                verification,
            ),
{
    let source = req.source;
    let key = req.key;
    let forge_available = req.forge_available;
    match req.stage {
        Stage::Verified(mode, context, rewrite) => {
            let v = optimize::judge(
                source.as_str(),
                rewrite.code,
                &context.targets,
                verification,
            );
            let ghost verdict = v;
            let end = optimize::finish(source.as_str(), mode, rewrite.patterns, v, ts);
            proof {
                assert(optimize::is_finished(
                    end,
                    source@,
                    mode@,
                    text::views(rewrite.patterns@),
                    verdict,
                    ts,
                ));
            }
            (Request { source, key, forge_available, stage: Stage::Over }, Action::Finish(end))
        },
        other => (Request { source, key, forge_available, stage: other }, Action::Verify),
    }
}

// ── laws ─────────────────────────────────────────────────────────────────────

/// A remembered answer is served to every later request whose source has the same
/// tokens, whatever its comments and layout.
pub proof fn law_remembered_answers_are_served(
    entries: Map<Seq<char>, OptimizeResponse>,
    first: Seq<char>,
    resp: OptimizeResponse,
    second: Seq<char>,
)
    requires
        entries.len() < CACHE_CAPACITY,
        normalize::lexed(first) == normalize::lexed(second),
    ensures
        state::bounded_insert(entries, cache_key(first), resp).contains_key(cache_key(second)),
        state::bounded_insert(entries, cache_key(first), resp)[cache_key(second)] == resp,
{
    normalize::law_key_ignores_layout(first, second);
}

/// Where forge is available, no rewrite leaves without verification: a run that ends
/// before it answers with the contract as it was.
pub proof fn law_rewrites_are_held_for_verification(
    req: Request,
    end: Outcome,
    source: Seq<char>,
    mode: Seq<char>,
    context: Context,
    code: Seq<char>,
    patterns: Seq<Seq<char>>,
    ts: u64,
)
    requires
        gates(req, Action::Finish(end), source, true, mode, context, code, patterns, ts),
    ensures
        code == source,
        end.response.optimized_code@ == source,
        !end.remember,
        !end.store,
{
}

/// An answer that follows a verification and is not the contract as it was is the
/// rewrite that was verified: it compiles, every valid test passes and it saves
/// construction gas.
pub proof fn law_released_answers_are_verified(
    end: Outcome,
    source: Seq<char>,
    mode: Seq<char>,
    patterns: Seq<Seq<char>>,
    v: Verdict,
    ts: u64,
    code: Seq<char>,
    targets: Seq<Seq<char>>,
    verification: Result<EquivResult, String>,
)
    requires
        optimize::is_finished(end, source, mode, patterns, v, ts),
        optimize::is_judged(v, source, code, targets, verification),
        end.response.optimized_code@ != source,
    ensures
        end.response.optimized_code@ == code,
        verification matches Ok(er) && optimize::is_accepted(er),
{
    optimize::law_released_rewrites_are_verified(v, source, code, targets, verification);
}

/// An answer is never served to another contract: where the tokens of two sources have
/// no blanks in them and differ anywhere, what is remembered for the one leaves the
/// cache as it was for the other.
pub proof fn law_answers_are_not_served_to_other_contracts(
    entries: Map<Seq<char>, OptimizeResponse>,
    first: Seq<char>,
    resp: OptimizeResponse,
    second: Seq<char>,
)
    requires
        forall|i: int|
            0 <= i < normalize::lexed(first).len() ==> normalize::is_solid(
                (#[trigger] normalize::lexed(first)[i]).1,
            ),
        forall|i: int|
            0 <= i < normalize::lexed(second).len() ==> normalize::is_solid(
                (#[trigger] normalize::lexed(second)[i]).1,
            ),
        normalize::lexed(first).len() != normalize::lexed(second).len() || exists|i: int|
            0 <= i < normalize::lexed(first).len() && (#[trigger] normalize::lexed(first)[i]).1
                != normalize::lexed(second)[i].1,
    ensures
        cache_key(first) != cache_key(second),
        state::bounded_insert(entries, cache_key(first), resp).contains_key(cache_key(second))
            == entries.contains_key(cache_key(second)),
        entries.contains_key(cache_key(second)) ==> state::bounded_insert(
            entries,
            cache_key(first),
            resp,
        )[cache_key(second)] == entries[cache_key(second)],
{
    normalize::law_different_tokens_have_different_keys(first, second);
}

/// A rewrite goes where it must: to verification where forge is there, with its code and
/// its patterns as they are; and without forge it is answered as it is, remembered, and
/// never stored durably.
pub proof fn law_rewrites_go_to_verification(
    req: Request,
    action: Action,
    source: Seq<char>,
    forge_available: bool,
    mode: Seq<char>,
    context: Context,
    code: Seq<char>,
    patterns: Seq<Seq<char>>,
    ts: u64,
)
    requires
        gates(req, action, source, forge_available, mode, context, code, patterns, ts),
        code != source,
    ensures
        forge_available ==> action is Verify && (req.stage matches Stage::Verified(m, c, rw)
            && rw.code@ == code && text::views(rw.patterns@) == patterns && c.targets
            == context.targets && m@ == mode),
        !forge_available ==> (action matches Action::Finish(end)
            && end.response.optimized_code@ == code && end.remember && !end.store
            && end.response.gas_saved is None && end.run.gas_saved is None && text::views(
            end.response.suggested_patterns@,
        ) == patterns),
{
}

/// A failed agent leaves the contract as it was: the run ends with the source, and
/// nothing is cached.
pub proof fn law_failed_agents_change_nothing(
    req: Request,
    action: Action,
    source: Seq<char>,
    forge_available: bool,
    context: Context,
    error: String,
    patterns: Seq<Seq<char>>,
    ts: u64,
)
    requires
        gates(
            req,
            action,
            source,
            forge_available,
            "oneshot"@,
            context,
            oneshot_code(source, Err(error)),
            patterns,
            ts,
        ),
    ensures
        req.stage is Over,
        action matches Action::Finish(end) && end.response.optimized_code@ == source
            && !end.remember && !end.store && end.response.gas_saved is None,
{
}

/// The path that is taken keeps what verification needs: the targets are those of the
/// plan, and where the router fails every function is optimized.
pub proof fn law_paths_keep_the_targets(
    stage: Stage,
    action: Action,
    plan: Plan,
    route: Result<Route, String>,
)
    requires
        takes_path(stage, action, plan, route),
    ensures
        match stage {
            Stage::Answer(c) => route == Ok::<Route, String>(Route::Oneshot) && c.targets
                == plan.targets && c.storage == plan.storage && c.file_decls == plan.file_decls
                && c.category == plan.category && action is OptimizeContract,
            Stage::Functions(mode, c) => c.targets == plan.targets && c.storage == plan.storage
                && c.file_decls == plan.file_decls && c.category == plan.category
                && action is OptimizeFunctions,
            _ => false,
        },
        route is Err ==> action == Action::OptimizeFunctions(plan.functions),
        route matches Ok(Route::Decompose(tasks)) ==> (action matches Action::OptimizeFunctions(fs)
            && (plan.functions@.len() > 0 ==> fs@.len() > 0)),
{
    if let Ok(Route::Decompose(tasks)) = route {
        if let Action::OptimizeFunctions(fs) = action {
            let all = analyze::function_models(plan.functions@);
            let some = analyze::function_models(fs@);
            assert(all.len() == plan.functions@.len());
            assert(some.len() == fs@.len());
            if plan.functions@.len() > 0 {
                assert(all.contains(all[0]));
                optimize::law_named_functions_are_optimized(all, tasks@, all[0], 0, 0);
            }
        }
    }
}

/// Every function of the contract is a target of its verification: the plan lists the
/// name of each function to optimize, in the same order.
pub proof fn law_every_function_is_a_target(p: Plan, source: Seq<char>, i: int)
    requires
        is_plan_of(p, source),
    ensures
        p.targets@.len() == p.functions@.len(),
        0 <= i < p.functions@.len() ==> p.targets@[i].0@ == p.functions@[i].name@,
{
    let skeleton = choose|skeleton: analyze::ContractSkeleton|
        optimize::is_plan(p, skeleton) && #[trigger] analyze::is_skeleton_of(
            skeleton,
            source,
            analyze::outline(source)->0,
        );
    optimize::law_the_plan_covers_the_contract(p, skeleton, i);
    let fs = analyze::function_models(skeleton.functions@);
    let sigs = analyze::sig_models(skeleton.signatures@);
    assert(fs.len() == skeleton.functions@.len());
    assert(sigs.len() == skeleton.signatures@.len());
    assert(analyze::headers(fs).len() == fs.len());
    if 0 <= i < p.functions@.len() {
        assert(sigs[i] == skeleton.signatures@[i].model());
        assert(fs[i] == skeleton.functions@[i].model());
        assert(analyze::headers(fs)[i].name == fs[i].name);
    }
}

} // verus!
