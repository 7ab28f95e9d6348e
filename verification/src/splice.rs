//! Putting optimized functions back into the contract they came from.

use crate::bytes;
use crate::equivalence::append_copies;
use crate::order::{self, sort_unique};
use crate::text;
use crate::utils::{self, strip_code_fences};
use vstd::prelude::*;

verus! {

broadcast use vstd::seq::group_seq_axioms;

/// Per-function optimization result.
pub struct FnResult {
    /// Byte range of the function in the contract.
    pub start: usize,
    pub end: usize,
    /// The function as it was.
    pub source: String,
    /// The agent's answer, or why there is none.
    pub optimized: Result<String, String>,
    /// The patterns that were retrieved for the function.
    pub pattern_ids: Vec<String>,
}

/// A result as a value; a failed agent gives no answer.
pub struct ResultModel {
    pub start: int,
    pub end: int,
    pub source: Seq<char>,
    pub answer: Option<Seq<char>>,
    pub patterns: Seq<Seq<char>>,
}

impl FnResult {
    /// The result as a value.
    pub open spec fn model(self) -> ResultModel {
        ResultModel {
            start: self.start as int,
            end: self.end as int,
            source: self.source@,
            answer: match self.optimized {
                Ok(s) => Some(s@),
                Err(_) => None,
            },
            patterns: text::views(self.pattern_ids@),
        }
    }
}

/// Each result as a value.
pub open spec fn models(list: Seq<FnResult>) -> Seq<ResultModel> {
    Seq::new(list.len(), |i: int| list[i].model())
}

/// Each referenced result as a value.
pub open spec fn ref_models(list: Seq<&FnResult>) -> Seq<ResultModel> {
    Seq::new(list.len(), |i: int| list[i].model())
}

// ── order ────────────────────────────────────────────────────────────────────

/// How many results at the front begin at `start` or later.
pub open spec fn place(list: Seq<ResultModel>, start: int) -> nat
    decreases list.len(),
{
    if list.len() == 0 || list[0].start < start {
        0
    } else {
        1 + place(list.skip(1), start)
    }
}

/// The results by descending start; those that begin at the same place keep their
/// order.
pub open spec fn descending(list: Seq<ResultModel>) -> Seq<ResultModel>
    decreases list.len(),
{
    if list.len() == 0 {
        seq![]
    } else {
        let head = descending(list.drop_last());
        head.insert(place(head, list.last().start) as int, list.last())
    }
}

proof fn lemma_place(list: Seq<ResultModel>, start: int)
    ensures
        place(list, start) <= list.len(),
        forall|k: int| 0 <= k < place(list, start) ==> (#[trigger] list[k]).start >= start,
        place(list, start) < list.len() ==> list[place(list, start) as int].start < start,
    decreases list.len(),
{
    if list.len() > 0 && list[0].start >= start {
        let rest = list.skip(1);
        lemma_place(rest, start);
        assert forall|k: int| 0 <= k < place(list, start) implies (#[trigger] list[k]).start
            >= start by {
            if k > 0 {
                assert(list[k] == rest[k - 1]);
            }
        }
        if place(list, start) < list.len() {
            assert(list[place(list, start) as int] == rest[place(list, start) - 1]);
        }
    }
}

proof fn lemma_place_is(list: Seq<ResultModel>, start: int, i: int)
    requires
        0 <= i <= list.len(),
        forall|k: int| 0 <= k < i ==> (#[trigger] list[k]).start >= start,
        i < list.len() ==> list[i].start < start,
    ensures
        place(list, start) == i,
{
    lemma_place(list, start);
    if place(list, start) < i {
        assert(list[place(list, start) as int].start >= start);
    } else if place(list, start) > i {
        assert(list[i].start >= start);
    }
}

/// The results by descending start.
fn sort_descending(list: &Vec<FnResult>) -> (r: Vec<&FnResult>)
    ensures
        ref_models(r@) == descending(models(list@)),
{
    let ghost all = models(list@);
    let mut out: Vec<&FnResult> = Vec::new();
    let mut n: usize = 0;
    proof {
        assert(ref_models(out@) =~= descending(all.take(0)));
    }
    while n < list.len()
        invariant
            n <= list@.len(),
            all == models(list@),
            ref_models(out@) == descending(all.take(n as int)),
        decreases list.len() - n,
    {
        let x = &list[n];
        let ghost so_far = ref_models(out@);
        let mut i: usize = 0;
        while i < out.len() && out[i].start >= x.start
            invariant
                i <= out@.len(),
                so_far == ref_models(out@),
                forall|k: int| 0 <= k < i ==> (#[trigger] so_far[k]).start >= x.start,
            decreases out.len() - i,
        {
            i += 1;
        }
        proof {
            assert(i < out@.len() ==> so_far[i as int].start == out@[i as int].start);
            lemma_place_is(so_far, x.start as int, i as int);
            assert(all.take(n + 1).drop_last() =~= all.take(n as int));
            assert(all.take(n + 1).last() == x.model());
            assert(ref_models(out@.insert(i as int, x)) =~= so_far.insert(i as int, x.model()));
        }
        out.insert(i, x);
        n += 1;
    }
    proof {
        assert(all.take(all.len() as int) =~= all);
    }
    out
}

// ── splicing ─────────────────────────────────────────────────────────────────

/// The result changes the code: the agent answered with something else than the
/// function itself, and the byte range lies in the code.
pub open spec fn changes(code: Seq<char>, r: ResultModel) -> bool {
    match r.answer {
        Some(a) => utils::code_of(a) != r.source && r.end <= bytes::byte_len(code),
        None => false,
    }
}

/// The code with one result put in.
pub open spec fn applied(code: Seq<char>, r: ResultModel) -> Seq<char> {
    if changes(code, r) {
        bytes::spliced(code, r.start, r.end, utils::code_of(r.answer->0))
    } else {
        code
    }
}

/// The code with the results put in, one after the other.
pub open spec fn applied_all(code: Seq<char>, list: Seq<ResultModel>) -> Seq<char>
    decreases list.len(),
{
    if list.len() == 0 {
        code
    } else {
        applied(applied_all(code, list.drop_last()), list.last())
    }
}

/// How many results change the code.
pub open spec fn changed_count(code: Seq<char>, list: Seq<ResultModel>) -> nat
    decreases list.len(),
{
    if list.len() == 0 {
        0
    } else {
        changed_count(code, list.drop_last()) + if changes(
            applied_all(code, list.drop_last()),
            list.last(),
        ) {
            1nat
        } else {
            0nat
        }
    }
}

/// Every result that changes the code has a byte range of the code it meets.
pub open spec fn applicable(code: Seq<char>, list: Seq<ResultModel>) -> bool {
    forall|k: int|
        0 <= k < list.len() && #[trigger] changes(applied_all(code, list.take(k)), list[k])
            ==> bytes::byte_range(
            applied_all(code, list.take(k)),
            list[k].start,
            list[k].end,
        ) is Some
}

/// The patterns of all results, one after the other.
pub open spec fn all_patterns(list: Seq<ResultModel>) -> Seq<Seq<char>>
    decreases list.len(),
{
    if list.len() == 0 {
        seq![]
    } else {
        all_patterns(list.drop_last()) + list.last().patterns
    }
}

/// A contract with the accepted rewrites put in.
pub struct Spliced {
    pub code: String,
    /// How many functions were rewritten.
    pub count: usize,
    /// The patterns retrieved for any function, in dictionary order, each once.
    pub patterns: Vec<String>,
}

/// The code of an answer, where the answer changes the code.
fn replacement(code: &str, r: &FnResult) -> (out: Option<String>)
    ensures
        match out {
            Some(s) => changes(code@, r.model()) && s@ == utils::code_of(r.model().answer->0),
            None => !changes(code@, r.model()),
        },
{
    match &r.optimized {
        Ok(answer) => {
            let opt = strip_code_fences(answer.as_str());
            if !text::same(opt.as_str(), r.source.as_str()) && r.end <= bytes::byte_count(code) {
                Some(opt)
            } else {
                None
            }
        },
        Err(_) => None,
    }
}

/// Splices the accepted rewrites back into the contract, by descending start, so
/// that earlier replacements do not shift later ones.
pub fn splice_functions(source: &str, results: &Vec<FnResult>) -> (r: Spliced)
    requires
        applicable(source@, descending(models(results@))),
    ensures
        r.code@ == applied_all(source@, descending(models(results@))),
        r.count == changed_count(source@, descending(models(results@))),
        text::views(r.patterns@) == order::sorted_unique(
            all_patterns(descending(models(results@))),
        ),
{
    let sorted = sort_descending(results);
    let ghost list = ref_models(sorted@);
    let mut code = source.to_owned();
    let mut count: usize = 0;
    let mut patterns: Vec<String> = Vec::new();
    let mut i: usize = 0;
    proof {
        assert(list.take(0) =~= seq![]);
        assert(text::views(patterns@) =~= seq![]);
    }
    while i < sorted.len()
        invariant
            i <= sorted@.len(),
            list == ref_models(sorted@),
            applicable(source@, list),
            code@ == applied_all(source@, list.take(i as int)),
            count == changed_count(source@, list.take(i as int)),
            count <= i,
            text::views(patterns@) == all_patterns(list.take(i as int)),
        decreases sorted.len() - i,
    {
        let r: &FnResult = sorted[i];
        proof {
            assert(list.take(i + 1).drop_last() =~= list.take(i as int));
            assert(list.take(i + 1).last() == r.model());
            assert(list[i as int] == r.model());
        }
        append_copies(&mut patterns, &r.pattern_ids);
        if let Some(opt) = replacement(code.as_str(), r) {
            code = bytes::splice(code.as_str(), r.start, r.end, opt.as_str());
            count += 1;
        }
        i += 1;
    }
    proof {
        assert(list.take(list.len() as int) =~= list);
    }
    Spliced { code, count, patterns: sort_unique(&patterns) }
}

/// Whether [`splice_functions`] can put all the results in.
pub fn can_splice(source: &str, results: &Vec<FnResult>) -> (ok: bool)
    ensures
        ok == applicable(source@, descending(models(results@))),
{
    let sorted = sort_descending(results);
    let ghost list = ref_models(sorted@);
    let mut code = source.to_owned();
    let mut i: usize = 0;
    proof {
        assert(list.take(0) =~= seq![]);
    }
    while i < sorted.len()
        invariant
            i <= sorted@.len(),
            list == ref_models(sorted@),
            list == descending(models(results@)),
            code@ == applied_all(source@, list.take(i as int)),
            forall|k: int|
                0 <= k < i && #[trigger] changes(applied_all(source@, list.take(k)), list[k])
                    ==> bytes::byte_range(
                    applied_all(source@, list.take(k)),
                    list[k].start,
                    list[k].end,
                ) is Some,
        decreases sorted.len() - i,
    {
        let r: &FnResult = sorted[i];
        proof {
            assert(list.take(i + 1).drop_last() =~= list.take(i as int));
            assert(list.take(i + 1).last() == r.model());
            assert(list[i as int] == r.model());
        }
        if let Some(opt) = replacement(code.as_str(), r) {
            if bytes::slice(code.as_str(), r.start, r.end).is_none() {
                return false;
            }
            code = bytes::splice(code.as_str(), r.start, r.end, opt.as_str());
        }
        i += 1;
    }
    true
}

// ── laws ─────────────────────────────────────────────────────────────────────

/// The result's byte range is a stretch of the source that is not empty, and holds
/// the function.
pub open spec fn in_source(source: Seq<char>, r: ResultModel) -> bool {
    r.start < r.end && bytes::byte_range(source, r.start, r.end) == Some(r.source)
}

/// Two byte ranges share nothing.
pub open spec fn apart(a: ResultModel, b: ResultModel) -> bool {
    a.end <= b.start || b.end <= a.start
}

/// Each result belongs to the source, and no two overlap.
pub open spec fn well_placed(source: Seq<char>, list: Seq<ResultModel>) -> bool {
    &&& forall|i: int| 0 <= i < list.len() ==> in_source(source, #[trigger] list[i])
    &&& forall|i: int, j: int|
        0 <= i < j < list.len() ==> apart(#[trigger] list[i], #[trigger] list[j])
}

/// The results stand one after the other, the last of the source first.
pub open spec fn in_turn(source: Seq<char>, list: Seq<ResultModel>) -> bool {
    &&& forall|i: int| 0 <= i < list.len() ==> in_source(source, #[trigger] list[i])
    &&& forall|i: int, j: int|
        0 <= i < j < list.len() ==> (#[trigger] list[j]).end <= (#[trigger] list[i]).start
}

/// What stands in the place of a function afterwards: the rewrite, or the function
/// itself where there is none.
pub open spec fn outcome(r: ResultModel) -> Seq<char> {
    match r.answer {
        Some(a) => utils::code_of(a),
        None => r.source,
    }
}

/// The first `hi` characters of the source, with each function replaced by its
/// outcome and everything else kept.
pub open spec fn assembled(source: Seq<char>, list: Seq<ResultModel>, hi: int) -> Seq<char>
    decreases list.len(),
{
    if list.len() == 0 {
        source.take(hi)
    } else {
        let i = bytes::char_index(source, list[0].start)->0;
        let j = bytes::char_index(source, list[0].end)->0;
        assembled(source, list.skip(1), i) + outcome(list[0]) + source.subrange(j, hi)
    }
}

/// Sorting puts results that do not overlap in turn.
proof fn lemma_descending_in_turn(source: Seq<char>, list: Seq<ResultModel>)
    requires
        well_placed(source, list),
    ensures
        in_turn(source, descending(list)),
        forall|x: ResultModel| #[trigger] descending(list).contains(x) <==> list.contains(x),
    decreases list.len(),
{
    if list.len() > 0 {
        let init = list.drop_last();
        let x = list.last();
        assert forall|i: int| 0 <= i < init.len() implies in_source(source, #[trigger] init[i]) by {
            assert(init[i] == list[i]);
        }
        assert forall|i: int, j: int| 0 <= i < j < init.len() implies apart(
            #[trigger] init[i],
            #[trigger] init[j],
        ) by {
            assert(init[i] == list[i] && init[j] == list[j]);
        }
        lemma_descending_in_turn(source, init);
        let head = descending(init);
        lemma_place(head, x.start);
        let p = place(head, x.start) as int;
        let out = descending(list);
        assert(in_source(source, list[list.len() - 1]));
        assert forall|k: int| 0 <= k < head.len() implies apart(x, #[trigger] head[k]) by {
            assert(head.contains(head[k]));
            let q = choose|q: int| 0 <= q < init.len() && init[q] == head[k];
            assert(list[q] == head[k]);
            assert(apart(list[q], list[list.len() - 1]));
        }
        assert forall|i: int, j: int| 0 <= i < j < out.len() implies (#[trigger] out[j]).end <= (
        #[trigger] out[i]).start by {
            if j == p {
                assert(out[i] == head[i]);
                assert(apart(x, head[i]));
                assert(in_source(source, head[i]));
            } else if i == p {
                assert(out[j] == head[j - 1]);
                assert(apart(x, head[j - 1]));
                assert(head[p].start < x.start);
                if j - 1 > p {
                    assert(head[j - 1].end <= head[p].start);
                    assert(in_source(source, head[j - 1]));
                }
            } else {
                let ii = if i < p { i } else { i - 1 };
                let jj = if j < p { j } else { j - 1 };
                assert(out[i] == head[ii]);
                assert(out[j] == head[jj]);
            }
        }
        assert forall|i: int| 0 <= i < out.len() implies in_source(source, #[trigger] out[i]) by {
            if i != p {
                let ii = if i < p { i } else { i - 1 };
                assert(out[i] == head[ii]);
            }
        }
        assert forall|y: ResultModel| #[trigger] out.contains(y) <==> list.contains(y) by {
            if out.contains(y) {
                let k = choose|k: int| 0 <= k < out.len() && out[k] == y;
                if k == p {
                    assert(list[list.len() - 1] == y);
                } else {
                    let kk = if k < p { k } else { k - 1 };
                    assert(head[kk] == y);
                    assert(head.contains(y));
                    let q = choose|q: int| 0 <= q < init.len() && init[q] == y;
                    assert(list[q] == y);
                }
            }
            if list.contains(y) {
                let k = choose|k: int| 0 <= k < list.len() && list[k] == y;
                if k < init.len() {
                    assert(init[k] == y);
                    assert(init.contains(y));
                    assert(descending(init).contains(y));
                    let q = choose|q: int| 0 <= q < head.len() && head[q] == y;
                    if q < p {
                        assert(out[q] == y);
                    } else {
                        assert(out[q + 1] == y);
                    }
                } else {
                    assert(out[p] == y);
                }
            }
        }
    }
}

/// Character positions in a prefix do not depend on what follows it.
proof fn lemma_char_index_prefix(a: Seq<char>, tail: Seq<char>, offset: int)
    requires
        0 <= offset <= bytes::byte_len(a),
    ensures
        bytes::char_index(a + tail, offset) == bytes::char_index(a, offset),
    decreases a.len(),
{
    bytes::lemma_byte_len_step(a);
    if offset > 0 {
        assert(a.len() > 0);
        assert((a + tail)[0] == a[0]);
        assert((a + tail).skip(1) =~= a.skip(1) + tail);
        let left = offset - bytes::width(a[0]);
        if left >= 0 {
            lemma_char_index_prefix(a.skip(1), tail, left);
        } else {
            assert(bytes::char_index((a + tail).skip(1), left) is None);
            assert(bytes::char_index(a.skip(1), left) is None);
        }
    }
}

/// Putting one result into a text whose beginning is that of the source.
proof fn lemma_apply_one(source: Seq<char>, hi: int, tail: Seq<char>, r: ResultModel)
    requires
        0 <= hi <= source.len(),
        in_source(source, r),
        bytes::char_index(source, r.end) is Some,
        bytes::char_index(source, r.end)->0 <= hi,
    ensures
        ({
            let code = source.take(hi) + tail;
            let i = bytes::char_index(source, r.start)->0;
            let j = bytes::char_index(source, r.end)->0;
            &&& bytes::byte_range(code, r.start, r.end) is Some
            &&& 0 <= i <= j <= hi
            &&& applied(code, r) == source.take(i) + (outcome(r) + source.subrange(j, hi) + tail)
        }),
{
    let code = source.take(hi) + tail;
    let i = bytes::char_index(source, r.start)->0;
    let j = bytes::char_index(source, r.end)->0;
    bytes::lemma_char_index(source, r.start);
    bytes::lemma_char_index(source, r.end);
    bytes::lemma_char_index_ordered(source, r.start, r.end);
    let top = source.take(hi);
    assert(source =~= top + source.skip(hi));
    assert(top =~= source.take(j) + source.subrange(j, hi));
    bytes::lemma_byte_len_concat(source.take(j), source.subrange(j, hi));
    assert(r.end <= bytes::byte_len(top));
    lemma_char_index_prefix(top, source.skip(hi), r.start);
    lemma_char_index_prefix(top, source.skip(hi), r.end);
    lemma_char_index_prefix(top, tail, r.start);
    lemma_char_index_prefix(top, tail, r.end);
    bytes::lemma_byte_len_concat(top, tail);
    assert(code.take(i) =~= source.take(i));
    assert(code.skip(j) =~= source.subrange(j, hi) + tail);
    if changes(code, r) {
        assert(applied(code, r) =~= source.take(i) + (outcome(r) + source.subrange(j, hi) + tail));
    } else {
        assert(outcome(r) == r.source);
        assert(code =~= source.take(i) + (source.subrange(i, j) + source.subrange(j, hi) + tail));
    }
}

proof fn lemma_applied_all_step(code: Seq<char>, list: Seq<ResultModel>)
    requires
        list.len() > 0,
    ensures
        applied_all(code, list) == applied_all(applied(code, list[0]), list.skip(1)),
    decreases list.len(),
{
    if list.len() == 1 {
        assert(list.drop_last() =~= seq![]);
        assert(list.skip(1) =~= seq![]);
        assert(list.last() == list[0]);
        assert(applied_all(code, list.drop_last()) == code);
        assert(applied_all(applied(code, list[0]), list.skip(1)) == applied(code, list[0]));
    } else {
        lemma_applied_all_step(code, list.drop_last());
        assert(list.drop_last()[0] == list[0]);
        assert(list.drop_last().skip(1) =~= list.skip(1).drop_last());
        assert(list.skip(1).last() == list.last());
    }
}

proof fn lemma_assembled(source: Seq<char>, list: Seq<ResultModel>, hi: int, tail: Seq<char>)
    requires
        0 <= hi <= source.len(),
        in_turn(source, list),
        list.len() > 0 ==> bytes::char_index(source, list[0].end)->0 <= hi,
    ensures
        applied_all(source.take(hi) + tail, list) == assembled(source, list, hi) + tail,
        applicable(source.take(hi) + tail, list),
    decreases list.len(),
{
    let code = source.take(hi) + tail;
    if list.len() > 0 {
        let r = list[0];
        assert(in_source(source, r));
        lemma_apply_one(source, hi, tail, r);
        let i = bytes::char_index(source, r.start)->0;
        let j = bytes::char_index(source, r.end)->0;
        let rest = list.skip(1);
        let tail2 = outcome(r) + source.subrange(j, hi) + tail;
        assert forall|k: int| 0 <= k < rest.len() implies in_source(source, #[trigger] rest[k]) by {
            assert(rest[k] == list[k + 1]);
        }
        assert forall|k: int, m: int| 0 <= k < m < rest.len() implies (#[trigger] rest[m]).end <= (
        #[trigger] rest[k]).start by {
            assert(rest[k] == list[k + 1] && rest[m] == list[m + 1]);
        }
        if rest.len() > 0 {
            assert(rest[0] == list[1]);
            assert(list[1].end <= list[0].start);
            assert(in_source(source, rest[0]));
            bytes::lemma_char_index_ordered(source, rest[0].end, r.start);
        }
        lemma_assembled(source, rest, i, tail2);
        lemma_applied_all_step(code, list);
        assert(applied_all(code, list) =~= assembled(source, list, hi) + tail);
        assert forall|k: int|
            0 <= k < list.len() && #[trigger] changes(
                applied_all(code, list.take(k)),
                list[k],
            ) implies bytes::byte_range(
            applied_all(code, list.take(k)),
            list[k].start,
            list[k].end,
        ) is Some by {
            if k == 0 {
                assert(list.take(0) =~= seq![]);
                assert(applied_all(code, list.take(0)) == code);
            } else {
                lemma_applied_all_step(code, list.take(k));
                assert(list.take(k)[0] == r);
                assert(list.take(k).skip(1) =~= rest.take(k - 1));
                assert(rest[k - 1] == list[k]);
                assert(changes(
                    applied_all(source.take(i) + tail2, rest.take(k - 1)),
                    rest[k - 1],
                ));
            }
        }
    } else {
        assert(applied_all(code, list) =~= assembled(source, list, hi) + tail);
    }
}

/// Splicing functions that do not overlap always works, and keeps every character
/// outside them: the result is the source with each function replaced by its
/// outcome.
pub proof fn law_splicing_keeps_the_rest(source: Seq<char>, results: Seq<ResultModel>)
    requires
        well_placed(source, results),
    ensures
        applicable(source, descending(results)),
        applied_all(source, descending(results)) == assembled(
            source,
            descending(results),
            source.len() as int,
        ),
        in_turn(source, descending(results)),
        forall|x: ResultModel| #[trigger] descending(results).contains(x) <==> results.contains(x),
{
    lemma_descending_in_turn(source, results);
    let list = descending(results);
    if list.len() > 0 {
        assert(in_source(source, list[0]));
        bytes::lemma_char_index(source, list[0].end);
    }
    assert(source.take(source.len() as int) + Seq::<char>::empty() =~= source);
    lemma_assembled(source, list, source.len() as int, seq![]);
    assert(assembled(source, list, source.len() as int) + Seq::<char>::empty() =~= assembled(
        source,
        list,
        source.len() as int,
    ));
}

/// Where no agent gives an answer, the contract comes back unchanged.
pub proof fn law_no_answers_keep_the_source(source: Seq<char>, list: Seq<ResultModel>)
    requires
        forall|i: int| 0 <= i < list.len() ==> (#[trigger] list[i]).answer is None,
    ensures
        applied_all(source, list) == source,
        changed_count(source, list) == 0,
    decreases list.len(),
{
    if list.len() > 0 {
        let init = list.drop_last();
        assert forall|i: int| 0 <= i < init.len() implies (#[trigger] init[i]).answer is None by {
            assert(init[i] == list[i]);
        }
        law_no_answers_keep_the_source(source, init);
        assert(list[list.len() - 1].answer is None);
    }
}

/// A rewritten function takes the place of the old one: between what precedes it and
/// what follows it stands the code of the answer. Without an answer everything stays.
pub proof fn law_a_rewrite_takes_the_place_of_the_function(
    before: Seq<char>,
    function: Seq<char>,
    after: Seq<char>,
    r: ResultModel,
)
    requires
        r.source == function,
        r.start == bytes::byte_len(before),
        r.end == bytes::byte_len(before + function),
    ensures
        r.answer matches Some(a) ==> applied(before + function + after, r) == before
            + utils::code_of(a) + after,
        r.answer is None ==> applied(before + function + after, r) == before + function + after,
{
    let s = before + function + after;
    let i = before.len() as int;
    let j = (before + function).len() as int;
    assert(s.take(i) =~= before);
    assert(s.take(j) =~= before + function);
    bytes::lemma_char_index_of(s, i);
    bytes::lemma_char_index_of(s, j);
    bytes::lemma_byte_len_concat(before + function, after);
    assert(s.skip(j) =~= after);
    if let Some(a) = r.answer {
        if utils::code_of(a) == function {
            assert(before + utils::code_of(a) + after =~= s);
        }
    }
}

/// The results are put in one after the other, each into the code as it then is, and
/// the patterns of every one are listed.
pub proof fn law_every_result_is_put_in(
    code: Seq<char>,
    list: Seq<ResultModel>,
    r: ResultModel,
    pattern: Seq<char>,
)
    ensures
        applied_all(code, list.push(r)) == applied(applied_all(code, list), r),
        r.patterns.contains(pattern) || all_patterns(list).contains(pattern) <==> all_patterns(
            list.push(r),
        ).contains(pattern),
        all_patterns(seq![]).len() == 0,
        applied_all(code, seq![]) == code,
{
    assert(list.push(r).drop_last() =~= list);
    let a = all_patterns(list);
    let b = r.patterns;
    if a.contains(pattern) {
        let k = choose|k: int| 0 <= k < a.len() && a[k] == pattern;
        assert((a + b)[k] == pattern);
    }
    if b.contains(pattern) {
        let k = choose|k: int| 0 <= k < b.len() && b[k] == pattern;
        assert((a + b)[a.len() + k] == pattern);
    }
    if (a + b).contains(pattern) {
        let k = choose|k: int| 0 <= k < (a + b).len() && (a + b)[k] == pattern;
        if k < a.len() {
            assert(a[k] == pattern);
        } else {
            assert(b[k - a.len()] == pattern);
        }
    }
}

} // verus!
