//! Behavioural verification: a differential equivalence test per function, all run
//! in one forge harness. The optimized contract is accepted only if it compiles AND
//! every function behaves identically to the original, which construction-gas
//! measurement alone cannot prove.
//!
//! The course of a verification is decided here; generating tests and running forge
//! are the caller's part.

use crate::equivalence::{self, EquivResult};
use crate::text::{self, same, trim};
use vstd::prelude::*;

verus! {

broadcast use vstd::seq::group_seq_axioms;

/// How many times broken (sanity-failing) tests are regenerated with feedback
/// before we give up and report those functions as unverified.
pub const VERIFY_REGEN_ROUNDS: usize = 1;

// ── generated tests ──────────────────────────────────────────────────────────

/// What the verify agent of each function came to, the body where it wrote one.
pub open spec fn outcomes(results: Seq<(String, Result<String, String>)>) -> Seq<
    (Seq<char>, Option<Seq<char>>),
> {
    Seq::new(
        results.len(),
        |i: int|
            (
                results[i].0@,
                match results[i].1 {
                    Ok(body) => Some(body@),
                    Err(_) => None,
                },
            ),
    )
}

/// The tests that were written: those whose body is not blank.
pub open spec fn written(results: Seq<(Seq<char>, Option<Seq<char>>)>) -> Seq<
    (Seq<char>, Seq<char>),
>
    decreases results.len(),
{
    if results.len() == 0 {
        seq![]
    } else {
        let head = written(results.drop_last());
        match results.last().1 {
            Some(body) => if text::trimmed(body).len() > 0 {
                head.push((results.last().0, body))
            } else {
                head
            },
            None => head,
        }
    }
}

/// The tests among the agents' results: an agent that failed or wrote nothing gives
/// none.
pub fn collect_tests(results: &Vec<(String, Result<String, String>)>) -> (r: Vec<(String, String)>)
    ensures
        text::pair_views(r@) == written(outcomes(results@)),
{
    let ghost all = outcomes(results@);
    let mut out: Vec<(String, String)> = Vec::new();
    let mut i: usize = 0;
    proof {
        assert(text::pair_views(out@) =~= written(all.take(0)));
    }
    while i < results.len()
        invariant
            i <= results@.len(),
            all == outcomes(results@),
            text::pair_views(out@) == written(all.take(i as int)),
        decreases results.len() - i,
    {
        proof {
            assert(all.take(i + 1).drop_last() =~= all.take(i as int));
            assert(all.take(i + 1).last() == all[i as int]);
        }
        if let Ok(body) = &results[i].1 {
            let bare = trim(body.as_str());
            if !bare.as_str().is_empty() {
                let test = (results[i].0.clone(), body.clone());
                proof {
                    assert(text::pair_views(out@.push(test)) =~= text::pair_views(out@).push(
                        (test.0@, test.1@),
                    ));
                }
                out.push(test);
            }
        }
        i += 1;
    }
    proof {
        assert(all.take(all.len() as int) =~= all);
    }
    out
}

/// The first pair, `from` or later, under the given name.
pub open spec fn pair_index(
    pairs: Seq<(Seq<char>, Seq<char>)>,
    name: Seq<char>,
    from: int,
) -> Option<int>
    decreases pairs.len() - from,
{
    if from < 0 || from >= pairs.len() {
        None
    } else if pairs[from].0 == name {
        Some(from)
    } else {
        pair_index(pairs, name, from + 1)
    }
}

/// What stands under the given name, nothing where there is no such pair.
pub open spec fn looked_up(pairs: Seq<(Seq<char>, Seq<char>)>, name: Seq<char>) -> Seq<char> {
    match pair_index(pairs, name, 0) {
        Some(i) => pairs[i].1,
        None => seq![],
    }
}

fn find_pair(pairs: &Vec<(String, String)>, name: &str) -> (r: Option<usize>)
    ensures
        match r {
            Some(i) => pair_index(text::pair_views(pairs@), name@, 0) == Some(i as int) && i
                < pairs@.len(),
            None => pair_index(text::pair_views(pairs@), name@, 0) is None,
        },
{
    let ghost ps = text::pair_views(pairs@);
    let mut i: usize = 0;
    while i < pairs.len()
        invariant
            i <= pairs@.len(),
            ps == text::pair_views(pairs@),
            pair_index(ps, name@, 0) == pair_index(ps, name@, i as int),
        decreases pairs.len() - i,
    {
        if same(pairs[i].0.as_str(), name) {
            return Some(i);
        }
        i += 1;
    }
    None
}

fn look_up(pairs: &Vec<(String, String)>, name: &str) -> (r: String)
    ensures
        r@ == looked_up(text::pair_views(pairs@), name@),
{
    match find_pair(pairs, name) {
        Some(i) => pairs[i].1.clone(),
        None => {
            let out = String::new();
            proof {
                assert(out@ =~= seq![]);
            }
            out
        },
    }
}

// ── feedback ─────────────────────────────────────────────────────────────────

/// What an agent is told about its broken test: the test, and how it failed the
/// sanity suite.
pub struct Feedback {
    pub name: String,
    pub previous: String,
    pub failure: String,
}

/// Feedback as a value.
pub struct FeedbackModel {
    pub name: Seq<char>,
    pub previous: Seq<char>,
    pub failure: Seq<char>,
}

impl Feedback {
    /// The feedback as a value.
    pub open spec fn model(self) -> FeedbackModel {
        FeedbackModel { name: self.name@, previous: self.previous@, failure: self.failure@ }
    }
}

/// All feedback as values.
pub open spec fn feedback_models(list: Seq<Feedback>) -> Seq<FeedbackModel> {
    Seq::new(list.len(), |i: int| list[i].model())
}

/// The feedback on each broken test.
pub open spec fn feedback_on(
    invalid: Seq<Seq<char>>,
    reasons: Seq<(Seq<char>, Seq<char>)>,
    tests: Seq<(Seq<char>, Seq<char>)>,
) -> Seq<FeedbackModel> {
    invalid.map_values(
        |n: Seq<char>|
            FeedbackModel {
                name: n,
                previous: looked_up(tests, n),
                failure: looked_up(reasons, n),
            },
    )
}

fn make_feedback(
    invalid: &Vec<String>,
    reasons: &Vec<(String, String)>,
    tests: &Vec<(String, String)>,
) -> (r: Vec<Feedback>)
    ensures
        feedback_models(r@) == feedback_on(
            text::views(invalid@),
            text::pair_views(reasons@),
            text::pair_views(tests@),
        ),
{
    let ghost all = feedback_on(
        text::views(invalid@),
        text::pair_views(reasons@),
        text::pair_views(tests@),
    );
    let mut out: Vec<Feedback> = Vec::new();
    let mut i: usize = 0;
    proof {
        assert(feedback_models(out@) =~= all.take(0));
    }
    while i < invalid.len()
        invariant
            i <= invalid@.len(),
            all == feedback_on(
                text::views(invalid@),
                text::pair_views(reasons@),
                text::pair_views(tests@),
            ),
            feedback_models(out@) == all.take(i as int),
        decreases invalid.len() - i,
    {
        let name = invalid[i].as_str();
        let f = Feedback {
            name: name.to_owned(),
            previous: look_up(tests, name),
            failure: look_up(reasons, name),
        };
        proof {
            assert(all[i as int] == f.model());
            assert(feedback_models(out@.push(f)) =~= feedback_models(out@).push(f.model()));
            assert(all.take(i as int).push(all[i as int]) =~= all.take(i + 1));
        }
        out.push(f);
        i += 1;
    }
    proof {
        assert(all.take(all.len() as int) =~= all);
    }
    out
}

/// The feedback for one function, if any.
pub fn feedback_for<'a>(list: &'a Vec<Feedback>, name: &str) -> (r: Option<(&'a str, &'a str)>)
    ensures
        match r {
            Some((previous, failure)) => exists|i: int|
                0 <= i < list@.len() && (#[trigger] list@[i]).name@ == name@ && previous@
                    == list@[i].previous@ && failure@ == list@[i].failure@ && forall|k: int|
                    0 <= k < i ==> (#[trigger] list@[k]).name@ != name@,
            None => forall|k: int| 0 <= k < list@.len() ==> (#[trigger] list@[k]).name@ != name@,
        },
{
    let mut i: usize = 0;
    while i < list.len()
        invariant
            i <= list@.len(),
            forall|k: int| 0 <= k < i ==> (#[trigger] list@[k]).name@ != name@,
        decreases list.len() - i,
    {
        if same(list[i].name.as_str(), name) {
            return Some((list[i].previous.as_str(), list[i].failure.as_str()));
        }
        i += 1;
    }
    None
}

// ── targets and tests ────────────────────────────────────────────────────────

/// The targets whose test is broken.
pub open spec fn broken_targets(
    targets: Seq<(Seq<char>, Seq<char>)>,
    invalid: Seq<Seq<char>>,
) -> Seq<(Seq<char>, Seq<char>)> {
    targets.filter(|t: (Seq<char>, Seq<char>)| invalid.contains(t.0))
}

fn holds_name(list: &Vec<String>, name: &str) -> (r: bool)
    ensures
        r == text::views(list@).contains(name@),
{
    let ghost ls = text::views(list@);
    let mut i: usize = 0;
    while i < list.len()
        invariant
            i <= list@.len(),
            ls == text::views(list@),
            forall|k: int| 0 <= k < i ==> #[trigger] ls[k] != name@,
        decreases list.len() - i,
    {
        if same(list[i].as_str(), name) {
            proof {
                assert(ls[i as int] == name@);
            }
            return true;
        }
        i += 1;
    }
    false
}

fn copy_pair(pair: &(String, String)) -> (r: (String, String))
    ensures
        r.0@ == pair.0@,
        r.1@ == pair.1@,
{
    (pair.0.clone(), pair.1.clone())
}

/// Copies a list of pairs.
pub fn copy_pairs(pairs: &Vec<(String, String)>) -> (r: Vec<(String, String)>)
    ensures
        text::pair_views(r@) == text::pair_views(pairs@),
{
    let ghost all = text::pair_views(pairs@);
    let mut out: Vec<(String, String)> = Vec::new();
    let mut i: usize = 0;
    proof {
        assert(text::pair_views(out@) =~= all.take(0));
    }
    while i < pairs.len()
        invariant
            i <= pairs@.len(),
            all == text::pair_views(pairs@),
            text::pair_views(out@) == all.take(i as int),
        decreases pairs.len() - i,
    {
        let p = copy_pair(&pairs[i]);
        proof {
            assert(text::pair_views(out@.push(p)) =~= text::pair_views(out@).push((p.0@, p.1@)));
            assert(all.take(i as int).push(all[i as int]) =~= all.take(i + 1));
        }
        out.push(p);
        i += 1;
    }
    proof {
        assert(all.take(all.len() as int) =~= all);
    }
    out
}

fn select_broken(targets: &Vec<(String, String)>, invalid: &Vec<String>) -> (r: Vec<
    (String, String),
>)
    ensures
        text::pair_views(r@) == broken_targets(
            text::pair_views(targets@),
            text::views(invalid@),
        ),
{
    let ghost ts = text::pair_views(targets@);
    let ghost inv = text::views(invalid@);
    let mut out: Vec<(String, String)> = Vec::new();
    let mut i: usize = 0;
    proof {
        reveal(Seq::filter);
        assert(text::pair_views(out@) =~= broken_targets(ts.take(0), inv));
    }
    while i < targets.len()
        invariant
            i <= targets@.len(),
            ts == text::pair_views(targets@),
            inv == text::views(invalid@),
            text::pair_views(out@) == broken_targets(ts.take(i as int), inv),
        decreases targets.len() - i,
    {
        proof {
            reveal(Seq::filter);
            assert(ts.take(i + 1).drop_last() =~= ts.take(i as int));
            assert(ts.take(i + 1).last() == (targets@[i as int].0@, targets@[i as int].1@));
        }
        if holds_name(invalid, targets[i].0.as_str()) {
            let p = copy_pair(&targets[i]);
            proof {
                assert(text::pair_views(out@.push(p)) =~= text::pair_views(out@).push(
                    (p.0@, p.1@),
                ));
            }
            out.push(p);
        }
        i += 1;
    }
    proof {
        assert(ts.take(ts.len() as int) =~= ts);
    }
    out
}

/// The tests with one body replaced; a test under a name that is not there changes
/// nothing.
pub open spec fn with_body(
    tests: Seq<(Seq<char>, Seq<char>)>,
    name: Seq<char>,
    body: Seq<char>,
) -> Seq<(Seq<char>, Seq<char>)> {
    match pair_index(tests, name, 0) {
        Some(i) => tests.update(i, (name, body)),
        None => tests,
    }
}

/// The tests with the regenerated bodies in place.
pub open spec fn with_bodies(
    tests: Seq<(Seq<char>, Seq<char>)>,
    fresh: Seq<(Seq<char>, Seq<char>)>,
) -> Seq<(Seq<char>, Seq<char>)>
    decreases fresh.len(),
{
    if fresh.len() == 0 {
        tests
    } else {
        with_body(with_bodies(tests, fresh.drop_last()), fresh.last().0, fresh.last().1)
    }
}

fn replace_bodies(tests: &mut Vec<(String, String)>, fresh: &Vec<(String, String)>)
    ensures
        text::pair_views(final(tests)@) == with_bodies(
            text::pair_views(old(tests)@),
            text::pair_views(fresh@),
        ),
{
    let ghost before = text::pair_views(tests@);
    let ghost fs = text::pair_views(fresh@);
    let mut i: usize = 0;
    proof {
        assert(with_bodies(before, fs.take(0)) == before);
    }
    while i < fresh.len()
        invariant
            i <= fresh@.len(),
            fs == text::pair_views(fresh@),
            text::pair_views(tests@) == with_bodies(before, fs.take(i as int)),
        decreases fresh.len() - i,
    {
        let ghost now = text::pair_views(tests@);
        proof {
            assert(fs.take(i + 1).drop_last() =~= fs.take(i as int));
            assert(fs.take(i + 1).last() == (fresh@[i as int].0@, fresh@[i as int].1@));
        }
        if let Some(k) = find_pair(tests, fresh[i].0.as_str()) {
            let p = copy_pair(&fresh[i]);
            tests.set(k, p);
            proof {
                assert(text::pair_views(tests@) =~= now.update(k as int, (p.0@, p.1@)));
            }
        }
        i += 1;
    }
    proof {
        assert(fs.take(fs.len() as int) =~= fs);
    }
}

// ── the course of a verification ─────────────────────────────────────────────

/// What a verification waits for.
pub enum VerifyStage {
    /// The tests of all targets.
    Tests,
    /// The result of the first run.
    FirstRun,
    /// The regenerated tests of a round; a result is there already.
    Regenerated(EquivResult, usize),
    /// The result of the run that follows a round; a result is there already.
    Rerun(EquivResult, usize),
    /// Nothing: it is over.
    Over,
}

/// A verification under way.
pub struct VerifyRun {
    /// `(function, signature)` of every function to prove.
    pub targets: Vec<(String, String)>,
    /// `(function, test)` of the tests there are.
    pub tests: Vec<(String, String)>,
    pub stage: VerifyStage,
}

/// What to do next.
pub enum VerifyAction {
    /// Generate a test for each of the targets, with the feedback there is.
    Generate(Vec<(String, String)>, Vec<Feedback>),
    /// Run the tests of the [`VerifyRun`].
    RunTests,
    /// It is over.
    Finish(Result<EquivResult, String>),
}

/// The final result: a run's result, with the targets that no test covers filled in.
pub open spec fn is_final(
    r: EquivResult,
    er: EquivResult,
    targets: Seq<(String, String)>,
    tests: Seq<(String, String)>,
) -> bool {
    &&& r == (EquivResult { missing: r.missing, ..er })
    &&& text::views(r.missing@) == equivalence::untested(
        equivalence::names(targets),
        equivalence::names(tests),
    )
}

fn fill_missing(
    er: EquivResult,
    targets: &Vec<(String, String)>,
    tests: &Vec<(String, String)>,
) -> (r: EquivResult)
    ensures
        is_final(r, er, targets@, tests@),
{
    let mut out = er;
    out.missing = equivalence::missing_tests(targets, tests);
    out
}

/// Begins a verification with the tests that were generated concurrently with the
/// optimization itself (they depend only on the original contract). Where there are
/// none, they are generated first.
pub fn start(targets: Vec<(String, String)>, tests: Vec<(String, String)>) -> (r: (
    VerifyRun,
    VerifyAction,
))
    ensures
        r.0.targets == targets,
        r.0.tests == tests,
        if tests@.len() == 0 {
            &&& r.0.stage is Tests
            &&& r.1 matches VerifyAction::Generate(ts, fb) && text::pair_views(ts@)
                == text::pair_views(targets@) && fb@.len() == 0
        } else {
            r.0.stage is FirstRun && r.1 is RunTests
        },
{
    if tests.len() == 0 {
        let wanted = copy_pairs(&targets);
        (
            VerifyRun { targets, tests, stage: VerifyStage::Tests },
            VerifyAction::Generate(wanted, Vec::new()),
        )
    } else {
        (VerifyRun { targets, tests, stage: VerifyStage::FirstRun }, VerifyAction::RunTests)
    }
}

/// What follows a result after `round` rounds of regeneration.
pub open spec fn settles(
    targets: Seq<(String, String)>,
    tests: Seq<(String, String)>,
    er: EquivResult,
    round: usize,
    stage: VerifyStage,
    action: VerifyAction,
) -> bool {
    if er.invalid@.len() > 0 && round < VERIFY_REGEN_ROUNDS {
        &&& stage == VerifyStage::Regenerated(er, (round + 1) as usize)
        &&& action matches VerifyAction::Generate(ts, fb) && text::pair_views(ts@)
            == broken_targets(text::pair_views(targets), text::views(er.invalid@))
            && feedback_models(fb@) == feedback_on(
            text::views(er.invalid@),
            text::pair_views(er.invalid_reasons@),
            text::pair_views(tests),
        )
    } else {
        &&& stage is Over
        &&& action matches VerifyAction::Finish(Ok(r)) && is_final(r, er, targets, tests)
    }
}

/// Goes on from a result: tests that failed the original-vs-original sanity suite
/// are bugs in the TEST, so just those are regenerated, each agent getting its own
/// broken test plus the failure line.
fn settle(
    targets: Vec<(String, String)>,
    tests: Vec<(String, String)>,
    er: EquivResult,
    round: usize,
) -> (r: (VerifyRun, VerifyAction))
    ensures
        r.0.targets == targets,
        r.0.tests == tests,
        settles(targets@, tests@, er, round, r.0.stage, r.1),
{
    if er.invalid.len() > 0 && round < VERIFY_REGEN_ROUNDS {
        let wanted = select_broken(&targets, &er.invalid);
        let fb = make_feedback(&er.invalid, &er.invalid_reasons, &tests);
        (
            VerifyRun { targets, tests, stage: VerifyStage::Regenerated(er, round + 1) },
            VerifyAction::Generate(wanted, fb),
        )
    } else {
        let out = fill_missing(er, &targets, &tests);
        (
            VerifyRun { targets, tests, stage: VerifyStage::Over },
            VerifyAction::Finish(Ok(out)),
        )
    }
}

/// Tests have been generated. Without any test there is nothing to verify by; a
/// round that brings none keeps the previous result.
pub fn on_generated(run: VerifyRun, fresh: Vec<(String, String)>) -> (r: (VerifyRun, VerifyAction))
    requires
        run.stage is Tests || run.stage is Regenerated,
    ensures
        r.0.targets == run.targets,
        match run.stage {
            VerifyStage::Tests => {
                &&& r.0.tests == fresh
                &&& if fresh@.len() == 0 {
                    &&& r.0.stage is Over
                    &&& r.1 matches VerifyAction::Finish(Err(e)) && e@
                        == "no equivalence tests could be generated"@
                } else {
                    r.0.stage is FirstRun && r.1 is RunTests
                }
            },
            VerifyStage::Regenerated(previous, round) => if fresh@.len() == 0 {
                &&& r.0.tests == run.tests
                &&& r.0.stage is Over
                &&& r.1 matches VerifyAction::Finish(Ok(er)) && is_final(
                    er,
                    previous,
                    run.targets@,
                    run.tests@,
                )
            } else {
                &&& text::pair_views(r.0.tests@) == with_bodies(
                    text::pair_views(run.tests@),
                    text::pair_views(fresh@),
                )
                &&& r.0.stage == VerifyStage::Rerun(previous, round)
                &&& r.1 is RunTests
            },
            _ => true,
        },
{
    let targets = run.targets;
    let mut tests = run.tests;
    match run.stage {
        VerifyStage::Regenerated(previous, round) => {
            if fresh.len() == 0 {
                let out = fill_missing(previous, &targets, &tests);
                (
                    VerifyRun { targets, tests, stage: VerifyStage::Over },
                    VerifyAction::Finish(Ok(out)),
                )
            } else {
                replace_bodies(&mut tests, &fresh);
                (
                    VerifyRun { targets, tests, stage: VerifyStage::Rerun(previous, round) },
                    VerifyAction::RunTests,
                )
            }
        },
        _ => {
            if fresh.len() == 0 {
                (
                    VerifyRun { targets, tests: fresh, stage: VerifyStage::Over },
                    VerifyAction::Finish(
                        Err("no equivalence tests could be generated".to_owned()),
                    ),
                )
            } else {
                (
                    VerifyRun { targets, tests: fresh, stage: VerifyStage::FirstRun },
                    VerifyAction::RunTests,
                )
            }
        },
    }
}

/// The tests have been run. A first run that fails ends the verification; a later
/// one that fails keeps the previous result.
pub fn on_ran(run: VerifyRun, result: Result<EquivResult, String>) -> (r: (
    VerifyRun,
    VerifyAction,
))
    requires
        run.stage is FirstRun || run.stage is Rerun,
    ensures
        r.0.targets == run.targets,
        r.0.tests == run.tests,
        match run.stage {
            VerifyStage::FirstRun => match result {
                Ok(er) => settles(run.targets@, run.tests@, er, 0, r.0.stage, r.1),
                Err(e) => r.0.stage is Over && r.1 == VerifyAction::Finish(Err(e)),
            },
            VerifyStage::Rerun(previous, round) => match result {
                Ok(er) => settles(run.targets@, run.tests@, er, round, r.0.stage, r.1),
                Err(_) => {
                    &&& r.0.stage is Over
                    &&& r.1 matches VerifyAction::Finish(Ok(er)) && is_final(
                        er,
                        previous,
                        run.targets@,
                        run.tests@,
                    )
                },
            },
            _ => true,
        },
{
    let targets = run.targets;
    let tests = run.tests;
    match run.stage {
        VerifyStage::Rerun(previous, round) => match result {
            Ok(er) => settle(targets, tests, er, round),
            Err(_) => {
                let out = fill_missing(previous, &targets, &tests);
                (
                    VerifyRun { targets, tests, stage: VerifyStage::Over },
                    VerifyAction::Finish(Ok(out)),
                )
            },
        },
        _ => match result {
            Ok(er) => settle(targets, tests, er, 0),
            Err(e) => (
                VerifyRun { targets, tests, stage: VerifyStage::Over },
                VerifyAction::Finish(Err(e)),
            ),
        },
    }
}

// ── laws ─────────────────────────────────────────────────────────────────────

/// The names of a list of pairs.
pub open spec fn pair_names(pairs: Seq<(Seq<char>, Seq<char>)>) -> Seq<Seq<char>> {
    pairs.map_values(|p: (Seq<char>, Seq<char>)| p.0)
}

proof fn lemma_pair_index(pairs: Seq<(Seq<char>, Seq<char>)>, name: Seq<char>, from: int)
    requires
        0 <= from,
    ensures
        pair_index(pairs, name, from) matches Some(i) ==> from <= i < pairs.len() && pairs[i].0
            == name,
    decreases pairs.len() - from,
{
    if from < pairs.len() && pairs[from].0 != name {
        lemma_pair_index(pairs, name, from + 1);
    }
}

/// Regenerating tests never adds or loses one: the same functions are tested, in the
/// same order.
pub proof fn law_regeneration_keeps_the_tests(
    tests: Seq<(Seq<char>, Seq<char>)>,
    fresh: Seq<(Seq<char>, Seq<char>)>,
)
    ensures
        pair_names(with_bodies(tests, fresh)) == pair_names(tests),
    decreases fresh.len(),
{
    if fresh.len() > 0 {
        let before = with_bodies(tests, fresh.drop_last());
        law_regeneration_keeps_the_tests(tests, fresh.drop_last());
        lemma_pair_index(before, fresh.last().0, 0);
        assert(pair_names(with_bodies(tests, fresh)) =~= pair_names(before));
    }
}

/// The final result of a verification keeps broken and missing tests apart: no
/// function is in both lists, and both lists together are what is not proven.
pub proof fn law_final_result_lists_are_disjoint(
    r: EquivResult,
    er: EquivResult,
    targets: Seq<(String, String)>,
    tests: Seq<(String, String)>,
    sanity: Seq<Seq<char>>,
    name: Seq<char>,
)
    requires
        is_final(r, er, targets, tests),
        text::views(er.invalid@) == equivalence::broken(equivalence::names(tests), sanity),
    ensures
        !(text::views(r.invalid@).contains(name) && text::views(r.missing@).contains(name)),
        r.unproven().contains(name) <==> text::views(r.invalid@).contains(name) || text::views(
            r.missing@,
        ).contains(name),
{
    equivalence::law_broken_and_missing_are_disjoint(
        equivalence::names(targets),
        equivalence::names(tests),
        sanity,
        name,
    );
    let a = text::views(r.invalid@);
    let b = text::views(r.missing@);
    crate::order::lemma_sorted_unique(a + b);
    assert(r.unproven().contains(name) <==> (a + b).contains(name));
    if a.contains(name) {
        let k = choose|k: int| 0 <= k < a.len() && a[k] == name;
        assert((a + b)[k] == name);
    }
    if b.contains(name) {
        let k = choose|k: int| 0 <= k < b.len() && b[k] == name;
        assert((a + b)[a.len() + k] == name);
    }
    if (a + b).contains(name) {
        let k = choose|k: int| 0 <= k < (a + b).len() && (a + b)[k] == name;
        if k < a.len() {
            assert(a[k] == name);
        } else {
            assert(b[k - a.len()] == name);
        }
    }
}

/// Every test that an agent wrote is kept, with its body as it is; a blank one is not,
/// and nothing else is.
pub proof fn law_written_tests_are_kept(
    results: Seq<(Seq<char>, Option<Seq<char>>)>,
    name: Seq<char>,
    body: Seq<char>,
)
    ensures
        written(results).contains((name, body)) <==> results.contains((name, Some(body)))
            && text::trimmed(body).len() > 0,
        written(results).len() <= results.len(),
    decreases results.len(),
{
    if results.len() > 0 {
        let head = results.drop_last();
        law_written_tests_are_kept(head, name, body);
        let last = results.last();
        let old = written(head);
        let all = written(results);
        assert(results[results.len() - 1] == last);
        if results.contains((name, Some(body))) {
            let k = choose|k: int| 0 <= k < results.len() && results[k] == (name, Some(body));
            if k < head.len() {
                assert(head[k] == results[k]);
            }
        }
        if head.contains((name, Some(body))) {
            let k = choose|k: int| 0 <= k < head.len() && head[k] == (name, Some(body));
            assert(results[k] == (name, Some(body)));
        }
        if all.len() > old.len() {
            let new = all[old.len() as int];
            assert(all == old.push(new));
            if old.contains((name, body)) {
                let k = choose|k: int| 0 <= k < old.len() && old[k] == (name, body);
                assert(all[k] == (name, body));
            }
            if all.contains((name, body)) && new != (name, body) {
                let k = choose|k: int| 0 <= k < all.len() && all[k] == (name, body);
                assert(old[k] == (name, body));
            }
        }
    }
}

/// Coverage is told in full: a target is listed as missing exactly where no test is
/// under its name, and everything else is as the run gave it.
pub proof fn law_missing_tests_are_listed(
    r: EquivResult,
    er: EquivResult,
    targets: Seq<(String, String)>,
    tests: Seq<(String, String)>,
    name: Seq<char>,
)
    requires
        is_final(r, er, targets, tests),
    ensures
        text::views(r.missing@).contains(name) <==> (exists|i: int|
            0 <= i < targets.len() && (#[trigger] targets[i]).0@ == name) && (forall|i: int|
            0 <= i < tests.len() ==> (#[trigger] tests[i]).0@ != name),
        r.compiles == er.compiles,
        r.all_passed == er.all_passed,
        r.failed == er.failed,
        r.invalid == er.invalid,
        r.invalid_reasons == er.invalid_reasons,
        r.valid_count == er.valid_count,
        r.errors == er.errors,
        r.gas_original == er.gas_original,
        r.gas_optimized == er.gas_optimized,
        r.gas_saved == er.gas_saved,
        r.per_function_gas == er.per_function_gas,
        r.forge_output == er.forge_output,
{
    let ts = equivalence::names(targets);
    let ns = equivalence::names(tests);
    crate::order::lemma_filter_members(ts, |n: Seq<char>| !ns.contains(n), name);
    if ts.contains(name) {
        let i = choose|i: int| 0 <= i < ts.len() && ts[i] == name;
        assert(targets[i].0@ == name);
    }
    if exists|i: int| 0 <= i < targets.len() && (#[trigger] targets[i]).0@ == name {
        let i = choose|i: int| 0 <= i < targets.len() && (#[trigger] targets[i]).0@ == name;
        assert(ts[i] == name);
    }
    if ns.contains(name) {
        let i = choose|i: int| 0 <= i < ns.len() && ns[i] == name;
        assert(tests[i].0@ == name);
    }
    if exists|i: int| 0 <= i < tests.len() && (#[trigger] tests[i]).0@ == name {
        let i = choose|i: int| 0 <= i < tests.len() && (#[trigger] tests[i]).0@ == name;
        assert(ns[i] == name);
    }
}

/// Broken tests are written anew, once: after the first run every target whose test is
/// broken, and no other, is generated again, each with its own test and failure; after
/// the second the result stands.
pub proof fn law_broken_tests_are_regenerated_once(
    targets: Seq<(String, String)>,
    tests: Seq<(String, String)>,
    er: EquivResult,
    round: usize,
    stage: VerifyStage,
    action: VerifyAction,
    target: (Seq<char>, Seq<char>),
)
    requires
        settles(targets, tests, er, round, stage, action),
    ensures
        er.invalid@.len() == 0 || round >= 1 ==> stage is Over && (action matches
            VerifyAction::Finish(Ok(r)) && is_final(r, er, targets, tests)),
        er.invalid@.len() > 0 && round == 0 ==> stage == VerifyStage::Regenerated(er, 1)
            && action is Generate,
        action matches VerifyAction::Generate(ts, fb) ==> (text::pair_views(ts@).contains(target)
            <==> text::pair_views(targets).contains(target) && text::views(er.invalid@).contains(
            target.0,
        )),
        action matches VerifyAction::Generate(ts, fb) ==> fb@.len() == er.invalid@.len()
            && forall|i: int|
            0 <= i < fb@.len() ==> (#[trigger] fb@[i]).name@ == er.invalid@[i]@,
{
    crate::order::lemma_filter_members(
        text::pair_views(targets),
        |t: (Seq<char>, Seq<char>)| text::views(er.invalid@).contains(t.0),
        target,
    );
    if let VerifyAction::Generate(ts, fb) = action {
        let models = feedback_models(fb@);
        let want = feedback_on(
            text::views(er.invalid@),
            text::pair_views(er.invalid_reasons@),
            text::pair_views(tests),
        );
        assert(models.len() == fb@.len());
        assert(want.len() == er.invalid@.len());
        assert forall|i: int| 0 <= i < fb@.len() implies (#[trigger] fb@[i]).name@
            == er.invalid@[i]@ by {
            assert(models[i] == fb@[i].model());
            assert(want[i].name == text::views(er.invalid@)[i]);
        }
    }
}

proof fn lemma_first_pair(pairs: Seq<(Seq<char>, Seq<char>)>, name: Seq<char>, from: int, k: int)
    requires
        0 <= from <= k < pairs.len(),
        pairs[k].0 == name,
        forall|j: int| from <= j < k ==> (#[trigger] pairs[j]).0 != name,
    ensures
        pair_index(pairs, name, from) == Some(k),
    decreases k - from,
{
    if from < k {
        assert(pairs[from].0 != name);
        lemma_first_pair(pairs, name, from + 1, k);
    }
}

/// An agent is told about its own test: the body that stands under the function's name,
/// and the failure that does.
pub proof fn law_feedback_is_on_the_own_test(
    invalid: Seq<Seq<char>>,
    reasons: Seq<(Seq<char>, Seq<char>)>,
    tests: Seq<(Seq<char>, Seq<char>)>,
    i: int,
    t: int,
    f: int,
)
    requires
        0 <= i < invalid.len(),
        0 <= t < tests.len(),
        tests[t].0 == invalid[i],
        forall|j: int| 0 <= j < t ==> (#[trigger] tests[j]).0 != invalid[i],
        0 <= f < reasons.len(),
        reasons[f].0 == invalid[i],
        forall|j: int| 0 <= j < f ==> (#[trigger] reasons[j]).0 != invalid[i],
    ensures
        feedback_on(invalid, reasons, tests)[i].name == invalid[i],
        feedback_on(invalid, reasons, tests)[i].previous == tests[t].1,
        feedback_on(invalid, reasons, tests)[i].failure == reasons[f].1,
{
    lemma_first_pair(tests, invalid[i], 0, t);
    lemma_first_pair(reasons, invalid[i], 0, f);
}

proof fn lemma_absent_pair(pairs: Seq<(Seq<char>, Seq<char>)>, name: Seq<char>, from: int)
    requires
        0 <= from,
    ensures
        pair_index(pairs, name, from) is None ==> forall|j: int|
            from <= j < pairs.len() ==> (#[trigger] pairs[j]).0 != name,
        pair_index(pairs, name, from) matches Some(k) ==> from <= k < pairs.len() && pairs[k].0
            == name && forall|j: int| from <= j < k ==> (#[trigger] pairs[j]).0 != name,
    decreases pairs.len() - from,
{
    if from < pairs.len() && pairs[from].0 != name {
        lemma_absent_pair(pairs, name, from + 1);
    }
}

/// A regenerated test takes the place of the old one: the test under a name has the last
/// body that was written for it, and one that was not written anew stays as it was.
pub proof fn law_regenerated_tests_replace_the_old(
    tests: Seq<(Seq<char>, Seq<char>)>,
    fresh: Seq<(Seq<char>, Seq<char>)>,
    k: int,
)
    requires
        0 <= k < tests.len(),
        forall|i: int, j: int|
            0 <= i < j < tests.len() ==> (#[trigger] tests[i]).0 != (#[trigger] tests[j]).0,
    ensures
        with_bodies(tests, fresh).len() == tests.len(),
        with_bodies(tests, fresh)[k].0 == tests[k].0,
        (forall|i: int| 0 <= i < fresh.len() ==> (#[trigger] fresh[i]).0 != tests[k].0)
            ==> with_bodies(tests, fresh)[k] == tests[k],
        forall|i: int|
            0 <= i < fresh.len() && (#[trigger] fresh[i]).0 == tests[k].0 && (forall|j: int|
                i < j < fresh.len() ==> (#[trigger] fresh[j]).0 != tests[k].0) ==> with_bodies(
                tests,
                fresh,
            )[k] == fresh[i],
    decreases fresh.len(),
{
    if fresh.len() > 0 {
        let head = fresh.drop_last();
        let last = fresh.last();
        let before = with_bodies(tests, head);
        law_regenerated_tests_replace_the_old(tests, head, k);
        law_regeneration_keeps_the_tests(tests, head);
        assert forall|j: int| 0 <= j < before.len() implies (#[trigger] before[j]).0
            == tests[j].0 by {
            assert(pair_names(before)[j] == pair_names(tests)[j]);
        }
        lemma_absent_pair(before, last.0, 0);
        let after = with_bodies(tests, fresh);
        assert(fresh[fresh.len() - 1] == last);
        match pair_index(before, last.0, 0) {
            Some(m) => {
                if m == k {
                    assert(after[k] == last);
                } else {
                    assert(tests[m].0 != tests[k].0) by {
                        if m < k {
                            assert(tests[m].0 != tests[k].0);
                        } else {
                            assert(tests[k].0 != tests[m].0);
                        }
                    }
                    assert(after[k] == before[k]);
                }
            },
            None => {
                assert(before[k].0 != last.0);
            },
        }
        if forall|i: int| 0 <= i < fresh.len() ==> (#[trigger] fresh[i]).0 != tests[k].0 {
            assert forall|i: int| 0 <= i < head.len() implies (#[trigger] head[i]).0
                != tests[k].0 by {
                assert(head[i] == fresh[i]);
            }
        }
        assert forall|i: int|
            0 <= i < fresh.len() && (#[trigger] fresh[i]).0 == tests[k].0 && (forall|j: int|
                i < j < fresh.len() ==> (#[trigger] fresh[j]).0 != tests[k].0) implies after[k]
            == fresh[i] by {
            if i < head.len() {
                assert(fresh[fresh.len() - 1].0 != tests[k].0);
                assert(head[i] == fresh[i]);
                assert forall|j: int| i < j < head.len() implies (#[trigger] head[j]).0
                    != tests[k].0 by {
                    assert(head[j] == fresh[j]);
                }
                assert(before[k] == head[i]);
            } else {
                assert(last.0 == before[k].0);
                let m = pair_index(before, last.0, 0)->0;
                if m != k {
                    if m < k {
                        assert(tests[m].0 != tests[k].0);
                    } else {
                        assert(before[k].0 != last.0);
                    }
                }
            }
        }
    }
}

} // verus!
