//! The routing orchestrator. A single, lightweight model call decides, from the
//! contract *skeleton* only (signatures + sizes + declarations, NO bodies), whether
//! to optimize the whole contract in one shot or to decompose it into scoped
//! semantic tasks.
//!
//! The decision is delivered via native tool-calling (`submit_plan`), never raw JSON
//! holding code: the only data crossing the wire is short routing metadata (a mode
//! string and, for decompose, task names + function names). The tool-call arguments
//! are captured and the loop is terminated immediately: the tool body never has to
//! run.

use crate::dto::copy_strings;
use crate::text;
use vstd::prelude::*;

verus! {

/// The name the routing tool is offered under.
pub const PLAN_TOOL_NAME: &'static str = "submit_plan";

/// What the model is told about the routing tool.
pub const PLAN_TOOL_DESCRIPTION: &'static str =
    "Submit the optimization routing decision for this contract.";

/// What the router is asked.
pub const ROUTER_QUESTION: &'static str =
    "Analyze the contract skeleton and call submit_plan with your routing decision.";

/// The router's instructions.
pub const ROUTER_PROMPT: &'static str =
    "You are the routing planner for a Solidity gas optimizer.\nYou are given only a STRUCTURAL SKELETON of a contract (function signatures, body sizes, state variables, and declarations) \u{2014} never the function bodies.\n\nDecide how to optimize it and call the `submit_plan` tool with your decision:\n- mode = \"oneshot\": optimize the whole contract in a single pass. PREFER THIS for small or simple contracts (few functions, small bodies). It is the fast path.\n- mode = \"decompose\": only for large/complex contracts. Provide `tasks`, each grouping related functions (by exact name from the skeleton) into one unit of work.\n\nWhen in doubt, choose oneshot. Always call submit_plan exactly once; do not write prose.";

/// Why the loop is ended once the plan is there.
pub const PLAN_CAPTURED: &'static str = "plan captured";

/// A scoped unit of work for the decompose path.
#[derive(Debug)]
pub struct Task {
    pub title: String,
    /// Exact function names (from the skeleton) that belong to it.
    pub target_fns: Vec<String>,
    /// Optional pattern-id hints to seed retrieval. Reserved: parsed from the router
    /// but not yet threaded into per-function retrieval (fan-out retrieves per
    /// function from its own source). Kept so the router contract stays stable.
    pub pattern_hints: Vec<String>,
}

impl Clone for Task {
    fn clone(&self) -> (r: Self)
        ensures
            r.title@ == self.title@,
            text::views(r.target_fns@) == text::views(self.target_fns@),
            text::views(r.pattern_hints@) == text::views(self.pattern_hints@),
    {
        Task {
            title: self.title.clone(),
            target_fns: copy_strings(&self.target_fns),
            pattern_hints: copy_strings(&self.pattern_hints),
        }
    }
}

/// The routing decision parsed from the `submit_plan` tool call.
#[derive(Debug)]
pub enum Route {
    Oneshot,
    Decompose(Vec<Task>),
}

/// The shape of the `submit_plan` arguments.
pub struct PlanArgs {
    pub mode: String,
    pub tasks: Vec<Task>,
}

/// Why the routing tool failed.
#[derive(Debug)]
pub struct PlanError(pub String);

impl PlanError {
    /// The error in words.
    pub fn message(&self) -> (r: String)
        ensures
            r@ == "submit_plan error: "@ + self.0@,
    {
        let mut out = "submit_plan error: ".to_owned();
        out.append(self.0.as_str());
        out
    }
}

/// The router asks for decomposition, and says into what.
pub open spec fn decomposes(plan: PlanArgs) -> bool {
    text::same_ignoring_ascii_case(plan.mode@, "decompose"@) && plan.tasks@.len() > 0
}

/// The route that a plan describes: anything but a decomposition with tasks is
/// done in one shot.
pub fn plan_route(plan: PlanArgs) -> (r: Route)
    ensures
        r == (if decomposes(plan) {
            Route::Decompose(plan.tasks)
        } else {
            Route::Oneshot
        }),
{
    if text::same_ascii_case_insensitive(plan.mode.as_str(), "decompose") && plan.tasks.len() > 0 {
        Route::Decompose(plan.tasks)
    } else {
        Route::Oneshot
    }
}

/// What the router's call came to: the arguments it submitted, if any, as far as
/// they could be read.
pub enum Submission {
    /// The tool was not called.
    Nothing,
    /// The arguments could not be read, and why.
    Unreadable(String),
    /// The arguments.
    Plan(PlanArgs),
}

/// The routing decision. On any failure (no tool call, unparseable args) an error,
/// so the caller can fall back to full per-function fan-out.
pub fn route(submitted: Submission) -> (r: Result<Route, String>)
    ensures
        match submitted {
            Submission::Nothing => r matches Err(e) && e@ == "router did not call submit_plan"@,
            Submission::Unreadable(why) => r matches Err(e) && e@ == "router args parse failed: "@
                + why@,
            Submission::Plan(plan) => r == Ok::<Route, String>(
                if decomposes(plan) {
                    Route::Decompose(plan.tasks)
                } else {
                    Route::Oneshot
                },
            ),
        },
{
    match submitted {
        Submission::Nothing => Err("router did not call submit_plan".to_owned()),
        Submission::Unreadable(why) => {
            let mut m = "router args parse failed: ".to_owned();
            m.append(why.as_str());
            Err(m)
        },
        Submission::Plan(plan) => Ok(plan_route(plan)),
    }
}

/// A contract is decomposed exactly where the mode says so, in letters of any case, and
/// there are tasks.
pub proof fn law_plans_are_followed(plan: PlanArgs)
    ensures
        decomposes(plan) <==> plan.tasks@.len() > 0 && plan.mode@.map_values(
            |c: char| text::ascii_lower(c),
        ) == "decompose"@,
{
    reveal_strlit("decompose");
    let d = "decompose"@;
    assert(d.map_values(|c: char| text::ascii_lower(c)) =~= d);
}

} // verus!
