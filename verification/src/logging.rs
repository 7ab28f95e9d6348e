//! Audit-log sink for optimization runs.
//!
//! This is the seam for "log optimization results on the Mantle network". For now
//! only a [`NoopSink`] exists (it words the run for the log). A real on-chain impl
//! (a funded signer and a deployed logging contract) is a separate, larger piece of
//! work. New sinks implement [`LoggingSink`], so the place where a run is recorded
//! never changes when a chain sink lands.

use crate::dto::copy_strings;
use crate::number::{self, show_i64, show_u64, show_usize};
use crate::text;
use vstd::prelude::*;

verus! {

/// One optimization run, the unit we'd anchor on-chain.
#[derive(Debug)]
pub struct RunLog {
    /// Non-cryptographic hash of the original contract source (run identity).
    pub contract_hash: String,
    /// Which path produced the result: "oneshot" | "decompose" | "fallback".
    pub mode: &'static str,
    pub gas_original: Option<u64>,
    pub gas_optimized: Option<u64>,
    pub gas_saved: Option<i64>,
    pub pattern_ids: Vec<String>,
    /// Unix seconds.
    pub ts: u64,
}

impl Clone for RunLog {
    fn clone(&self) -> (r: Self)
        ensures
            r.contract_hash@ == self.contract_hash@,
            r.mode == self.mode,
            r.gas_original == self.gas_original,
            r.gas_optimized == self.gas_optimized,
            r.gas_saved == self.gas_saved,
            text::views(r.pattern_ids@) == text::views(self.pattern_ids@),
            r.ts == self.ts,
    {
        RunLog {
            contract_hash: self.contract_hash.clone(),
            mode: self.mode,
            gas_original: self.gas_original,
            gas_optimized: self.gas_optimized,
            gas_saved: self.gas_saved,
            pattern_ids: copy_strings(&self.pattern_ids),
            ts: self.ts,
        }
    }
}

/// Where a finished run is recorded. Today: the log. Tomorrow: Mantle.
pub trait LoggingSink: Send + Sync {
    /// Records the run; hands back what there is to say about it.
    fn log_run(&self, run: &RunLog) -> Result<String, String>;
}

/// Default sink: words the run, performs no I/O.
pub struct NoopSink;

/// An optional gas figure in words: `n/a` when absent.
pub open spec fn gas_text(g: Option<u64>) -> Seq<char> {
    match g {
        Some(v) => number::decimal(v as nat),
        None => "n/a"@,
    }
}

/// An optional saving in words: `n/a` when absent.
pub open spec fn saved_text(g: Option<i64>) -> Seq<char> {
    match g {
        Some(v) => number::signed_decimal(v as int),
        None => "n/a"@,
    }
}

/// Render an optional gas figure for user-facing strings ("n/a" when absent).
pub fn fmt_gas(g: Option<u64>) -> (r: String)
    ensures
        r@ == gas_text(g),
{
    match g {
        Some(v) => show_u64(v),
        None => "n/a".to_owned(),
    }
}

/// Render an optional saving for user-facing strings ("n/a" when absent).
pub fn fmt_saved(g: Option<i64>) -> (r: String)
    ensures
        r@ == saved_text(g),
{
    match g {
        Some(v) => show_i64(v),
        None => "n/a".to_owned(),
    }
}

/// The line that the default sink logs for a run.
pub open spec fn run_line(run: RunLog) -> Seq<char> {
    "  run-log (noop): mode="@ + run.mode@ + " hash="@ + run.contract_hash@ + " gas "@ + gas_text(
        run.gas_original,
    ) + "\u{2192}"@ + gas_text(run.gas_optimized) + " saved="@ + saved_text(run.gas_saved)
        + " patterns="@ + number::decimal(run.pattern_ids@.len()) + " ts="@ + number::decimal(
        run.ts as nat,
    )
}

impl LoggingSink for NoopSink {
    fn log_run(&self, run: &RunLog) -> (r: Result<String, String>)
        ensures
            r matches Ok(line) && line@ == run_line(*run),
    {
        let before = fmt_gas(run.gas_original);
        let after = fmt_gas(run.gas_optimized);
        let saved = fmt_saved(run.gas_saved);
        let patterns = show_usize(run.pattern_ids.len());
        let ts = show_u64(run.ts);
        let mut out = "  run-log (noop): mode=".to_owned();
        out.append(run.mode);
        out.append(" hash=");
        out.append(run.contract_hash.as_str());
        out.append(" gas ");
        out.append(before.as_str());
        out.append("\u{2192}");
        out.append(after.as_str());
        out.append(" saved=");
        out.append(saved.as_str());
        out.append(" patterns=");
        out.append(patterns.as_str());
        out.append(" ts=");
        out.append(ts.as_str());
        Ok(out)
    }
}

/// The line tells a run apart: it holds its mode, its contract and its figures.
pub proof fn law_the_line_holds_the_run(run: RunLog)
    ensures
        text::holds(run_line(run), " hash="@ + run.contract_hash@),
        text::holds(run_line(run), "mode="@ + run.mode@),
        run.gas_saved matches Some(n) ==> text::holds(
            run_line(run),
            " saved="@ + number::signed_decimal(n as int),
        ),
        text::holds(run_line(run), " ts="@ + number::decimal(run.ts as nat)),
{
    let a = "  run-log (noop): mode="@;
    assert(a == "  run-log (noop): "@ + "mode="@) by {
        reveal_strlit("  run-log (noop): mode=");
        reveal_strlit("  run-log (noop): ");
        reveal_strlit("mode=");
        assert(a =~= "  run-log (noop): "@ + "mode="@);
    }
    let s1 = a + run.mode@;
    let mode = "mode="@ + run.mode@;
    text::lemma_ends("  run-log (noop): "@, mode);
    assert(s1 =~= "  run-log (noop): "@ + mode);
    let hash = " hash="@ + run.contract_hash@;
    let s2 = s1 + " hash="@ + run.contract_hash@;
    assert(s2 =~= s1 + hash);
    text::lemma_goes_on(s1, hash, mode);
    text::lemma_ends(s1, hash);
    let figures = " gas "@ + gas_text(run.gas_original) + "\u{2192}"@ + gas_text(run.gas_optimized);
    let s3 = s2 + " gas "@ + gas_text(run.gas_original) + "\u{2192}"@ + gas_text(
        run.gas_optimized,
    );
    assert(s3 =~= s2 + figures);
    text::lemma_goes_on(s2, figures, mode);
    text::lemma_goes_on(s2, figures, hash);
    let saved = " saved="@ + saved_text(run.gas_saved);
    let s4 = s3 + " saved="@ + saved_text(run.gas_saved);
    assert(s4 =~= s3 + saved);
    text::lemma_goes_on(s3, saved, mode);
    text::lemma_goes_on(s3, saved, hash);
    text::lemma_ends(s3, saved);
    let count = " patterns="@ + number::decimal(run.pattern_ids@.len());
    let s5 = s4 + " patterns="@ + number::decimal(run.pattern_ids@.len());
    assert(s5 =~= s4 + count);
    text::lemma_goes_on(s4, count, mode);
    text::lemma_goes_on(s4, count, hash);
    text::lemma_goes_on(s4, count, saved);
    let ts = " ts="@ + number::decimal(run.ts as nat);
    assert(run_line(run) =~= s5 + ts);
    text::lemma_goes_on(s5, ts, mode);
    text::lemma_goes_on(s5, ts, hash);
    text::lemma_goes_on(s5, ts, saved);
    text::lemma_ends(s5, ts);
}

} // verus!
