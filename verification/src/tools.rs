//! `FunctionForgeTool`: the tool the per-function agent calls to verify a single
//! optimized function. It splices the candidate function into the original
//! contract at the function's byte range and compiles the result, so the agent can
//! refine non-compiling YUL in its loop. Verification is compile-level.

use crate::bytes;
use crate::forge::VerifyResponse;
use crate::split::{self, take_chars};
use crate::text;
use crate::utils::{self, strip_code_fences};
use std::sync::Arc;
use vstd::prelude::*;

verus! {

broadcast use vstd::seq::group_seq_axioms;

/// The name the tool is offered under.
pub const TOOL_NAME: &'static str = "forge_verify";

/// What the model is told about the tool.
pub const TOOL_DESCRIPTION: &'static str =
    "Compile-check your optimized function. Pass ONLY the complete optimized function (signature + body); it is spliced into the original contract and compiled on a Mantle fork. Returns whether it compiles and any compiler errors. If it does not compile, fix the function using the errors and call again.";

/// What the model is told about the tool's argument.
pub const TOOL_ARGUMENT: &'static str = "The complete optimized function, no contract wrapper";

/// How much of forge's output the model is shown, in characters.
pub const EXCERPT_CHARS: usize = 2000;

/// The arguments of a call.
pub struct FnForgeArgs {
    /// The complete optimized function (signature + body), no contract wrapper.
    pub optimized_function: String,
}

/// What a call returns.
pub struct ForgeResult {
    pub compiles: bool,
    /// True only when it compiled AND a construction-gas number was parsed.
    /// NOTE: not a behavioural-equivalence check, and the gas is whole-contract
    /// *construction* gas, not this function's runtime gas.
    pub gas_measured: bool,
    pub gas_original: Option<u64>,
    pub gas_optimized: Option<u64>,
    pub gas_saved: Option<i64>,
    pub errors: Vec<String>,
    /// Truncated forge stdout/stderr so it fits the model's context window.
    pub forge_excerpt: String,
}

/// Why a call failed.
#[derive(Debug)]
pub struct ForgeError(pub String);

impl ForgeError {
    /// The error in words.
    pub fn message(&self) -> (r: String)
        ensures
            r@ == "forge tool error: "@ + self.0@,
    {
        let mut out = "forge tool error: ".to_owned();
        out.append(self.0.as_str());
        out
    }
}

/// Verifies one optimized function by splicing it into the original contract.
pub struct FunctionForgeTool {
    /// The full original contract source.
    pub original: Arc<str>,
    /// Byte range of the target function within `original`.
    pub start: usize,
    pub end: usize,
}

impl FunctionForgeTool {
    /// A tool for the function at the given byte range.
    pub fn new(original: Arc<str>, start: usize, end: usize) -> (r: Self)
        ensures
            r.original == original,
            r.start == start,
            r.end == end,
    {
        FunctionForgeTool { original, start, end }
    }

    /// The byte range lies in the contract.
    pub open spec fn in_bounds(self) -> bool {
        self.end <= bytes::byte_len(self.original@)
    }

    /// The byte range can be cut out: it begins before it ends, and both ends lie on
    /// character boundaries.
    pub open spec fn can_cut(self) -> bool {
        bytes::byte_range(self.original@, self.start as int, self.end as int) is Some
    }

    /// Whether the byte range can be cut out of the contract.
    pub fn is_cuttable(&self) -> (r: bool)
        ensures
            r == self.can_cut(),
    {
        bytes::slice(&self.original, self.start, self.end).is_some()
    }

    /// The contract to compile: the original with the candidate in the place of the
    /// function. Fails where the byte range is out of bounds.
    pub fn candidate(&self, args: &FnForgeArgs) -> (r: Result<String, ForgeError>)
        requires
            self.in_bounds() ==> self.can_cut(),
        ensures
            match r {
                Ok(code) => self.in_bounds() && code@ == bytes::spliced(
                    self.original@,
                    self.start as int,
                    self.end as int,
                    utils::code_of(args.optimized_function@),
                ),
                Err(e) => !self.in_bounds() && e.0@ == "function byte range out of bounds"@,
            },
    {
        let optimized = strip_code_fences(args.optimized_function.as_str());
        if self.end <= bytes::byte_count(&self.original) {
            Ok(bytes::splice(&self.original, self.start, self.end, optimized.as_str()))
        } else {
            Err(ForgeError("function byte range out of bounds".to_owned()))
        }
    }
}

/// What the tool makes of a sandbox run.
pub fn forge_result(run: Result<VerifyResponse, String>) -> (r: Result<ForgeResult, ForgeError>)
    ensures
        match (run, r) {
            (Ok(res), Ok(out)) => {
                &&& out.compiles == res.compiles
                &&& out.gas_measured == (res.compiles && res.gas_optimized is Some)
                &&& out.gas_original == res.gas_original
                &&& out.gas_optimized == res.gas_optimized
                &&& out.gas_saved == res.gas_saved
                &&& out.errors == res.errors
                &&& out.forge_excerpt@ == split::prefix_of(res.forge_output@, EXCERPT_CHARS as nat)
            },
            (Err(m), Err(e)) => e.0 == m,
            _ => false,
        },
{
    match run {
        Ok(res) => {
            let gas_measured = res.compiles && res.gas_optimized.is_some();
            let forge_excerpt = take_chars(res.forge_output.as_str(), EXCERPT_CHARS);
            Ok(
                ForgeResult {
                    compiles: res.compiles,
                    gas_measured,
                    gas_original: res.gas_original,
                    gas_optimized: res.gas_optimized,
                    gas_saved: res.gas_saved,
                    errors: res.errors,
                    forge_excerpt,
                },
            )
        },
        Err(m) => Err(ForgeError(m)),
    }
}

/// What the model is shown never exceeds the limit, and is a beginning of forge's
/// output.
pub proof fn law_excerpt_is_bounded(output: Seq<char>)
    ensures
        split::prefix_of(output, EXCERPT_CHARS as nat).len() <= EXCERPT_CHARS,
        text::has_prefix(output, split::prefix_of(output, EXCERPT_CHARS as nat)),
{
    let p = split::prefix_of(output, EXCERPT_CHARS as nat);
    assert(output.subrange(0, p.len() as int) =~= p);
}

/// A short output is shown whole, and of a long one the first two thousand characters.
pub proof fn law_short_outputs_are_shown_whole(output: Seq<char>)
    ensures
        output.len() <= 2000 ==> split::prefix_of(output, EXCERPT_CHARS as nat) == output,
        output.len() > 2000 ==> split::prefix_of(output, EXCERPT_CHARS as nat) == output.take(
            2000,
        ),
{
    assert(output.len() <= 2000 ==> output.take(output.len() as int) =~= output);
}

} // verus!
