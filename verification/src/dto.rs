//! Request/response payloads of the API.

use crate::equivalence::append_copies;
use crate::gas::{self, FunctionGas, GasRow};
use crate::text;
use vstd::prelude::*;

verus! {

broadcast use vstd::seq::group_seq_axioms;

/// A request to optimize a contract.
pub struct OptimizeRequest {
    pub contract_source: String,
}

/// The answer to an optimize request.
pub struct OptimizeResponse {
    pub analysis: String,
    pub suggested_patterns: Vec<String>,
    pub optimized_code: String,
    /// Construction gas of the original contract (set only when forge verified).
    pub gas_before: Option<u64>,
    /// Construction gas of the optimized contract (set only when forge verified).
    pub gas_after: Option<u64>,
    /// Gas saved (original - optimized). Positive = improvement.
    pub gas_saved: Option<i64>,
    /// Real per-function runtime gas (original vs optimized), from forge's gas
    /// report. Empty when forge is unavailable or no rewrite was verified.
    pub per_function_gas: Vec<FunctionGas>,
}

/// An answer as a value.
pub struct ResponseModel {
    pub analysis: Seq<char>,
    pub patterns: Seq<Seq<char>>,
    pub code: Seq<char>,
    pub gas_before: Option<u64>,
    pub gas_after: Option<u64>,
    pub gas_saved: Option<i64>,
    pub functions: Seq<(GasRow, Option<i64>)>,
}

/// The figures and savings of each function.
pub open spec fn gas_entries(list: Seq<FunctionGas>) -> Seq<(GasRow, Option<i64>)> {
    Seq::new(list.len(), |i: int| (list[i].row(), list[i].gas_saved))
}

impl OptimizeResponse {
    /// The answer as a value.
    pub open spec fn model(self) -> ResponseModel {
        ResponseModel {
            analysis: self.analysis@,
            patterns: text::views(self.suggested_patterns@),
            code: self.optimized_code@,
            gas_before: self.gas_before,
            gas_after: self.gas_after,
            gas_saved: self.gas_saved,
            functions: gas_entries(self.per_function_gas@),
        }
    }
}

/// Copies a list of gas entries.
pub fn copy_gas(list: &Vec<FunctionGas>) -> (r: Vec<FunctionGas>)
    ensures
        gas_entries(r@) == gas_entries(list@),
{
    let mut out: Vec<FunctionGas> = Vec::new();
    let mut i: usize = 0;
    proof {
        assert(gas_entries(out@) =~= gas_entries(list@).take(0));
    }
    while i < list.len()
        invariant
            i <= list@.len(),
            gas_entries(out@) == gas_entries(list@).take(i as int),
        decreases list.len() - i,
    {
        let e = list[i].clone();
        proof {
            assert(gas_entries(out@.push(e)) =~= gas_entries(out@).push((e.row(), e.gas_saved)));
            assert(gas_entries(list@).take(i as int).push((e.row(), e.gas_saved)) =~= gas_entries(
                list@,
            ).take(i + 1));
        }
        out.push(e);
        i += 1;
    }
    proof {
        assert(gas_entries(list@).take(list@.len() as int) =~= gas_entries(list@));
    }
    out
}

/// Copies a list of strings.
pub fn copy_strings(list: &Vec<String>) -> (r: Vec<String>)
    ensures
        text::views(r@) == text::views(list@),
{
    let mut out: Vec<String> = Vec::new();
    append_copies(&mut out, list);
    proof {
        assert(text::views(out@) =~= text::views(list@));
    }
    out
}

impl Clone for OptimizeResponse {
    fn clone(&self) -> (r: Self)
        ensures
            r.model() == self.model(),
    {
        OptimizeResponse {
            analysis: self.analysis.clone(),
            suggested_patterns: copy_strings(&self.suggested_patterns),
            optimized_code: self.optimized_code.clone(),
            gas_before: self.gas_before,
            gas_after: self.gas_after,
            gas_saved: self.gas_saved,
            per_function_gas: copy_gas(&self.per_function_gas),
        }
    }
}

/// A request to ingest pattern files.
pub struct IngestLocalRequest {
    pub directory_paths: Vec<String>,
}

} // verus!
