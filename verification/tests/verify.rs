use gaslite::equivalence::EquivResult;
use gaslite::verify::{
    collect_tests, copy_pairs, feedback_for, on_generated, on_ran, start, Feedback, VerifyAction,
    VerifyStage,
};

fn pair(a: &str, b: &str) -> (String, String) {
    (a.to_string(), b.to_string())
}

fn broken(names: Vec<&str>) -> EquivResult {
    EquivResult {
        compiles: true,
        invalid: names.iter().map(|n| n.to_string()).collect(),
        invalid_reasons: names.iter().map(|n| pair(n, &format!("why {}", n))).collect(),
        valid_count: 1,
        ..Default::default()
    }
}

fn targets() -> Vec<(String, String)> {
    vec![pair("a", "a()"), pair("b", "b()"), pair("c", "c()")]
}

fn tests() -> Vec<(String, String)> {
    vec![pair("a", "TA"), pair("b", "TB")]
}

fn finished(action: VerifyAction) -> Result<EquivResult, String> {
    match action {
        VerifyAction::Finish(r) => r,
        _ => panic!("expected the end"),
    }
}

#[test]
fn blank_tests_are_not_collected() {
    let results = vec![
        ("a".to_string(), Ok("T".to_string())),
        ("b".to_string(), Ok(" \n".to_string())),
        ("c".to_string(), Err("e".to_string())),
        ("d".to_string(), Ok(" U ".to_string())),
    ];
    assert_eq!(collect_tests(&results), vec![pair("a", "T"), pair("d", " U ")]);
    assert_eq!(copy_pairs(&tests()), tests());
}

#[test]
fn a_clean_first_run_ends_the_verification() {
    let (run, action) = start(targets(), tests());
    assert!(matches!(action, VerifyAction::RunTests));
    let (run, action) = on_ran(run, Ok(broken(vec![])));
    assert!(matches!(run.stage, VerifyStage::Over));
    let er = finished(action).unwrap();
    assert_eq!(er.missing, vec!["c"]);
    assert_eq!(er.unverified(), vec!["c"]);
}

#[test]
fn missing_tests_are_generated_first() {
    let (run, action) = start(targets(), vec![]);
    match action {
        VerifyAction::Generate(ts, fb) => {
            assert_eq!(ts, targets());
            assert!(fb.is_empty());
        }
        _ => panic!("expected tests to be generated"),
    }
    let (run, action) = on_generated(run, tests());
    assert!(matches!(action, VerifyAction::RunTests));
    assert_eq!(run.tests, tests());
    let (_, action) = on_ran(run, Err("no forge".to_string()));
    assert_eq!(finished(action).unwrap_err(), "no forge");
}

#[test]
fn without_tests_nothing_is_verified() {
    let (run, _) = start(targets(), vec![]);
    let (_, action) = on_generated(run, vec![]);
    assert_eq!(finished(action).unwrap_err(), "no equivalence tests could be generated");
}

#[test]
fn broken_tests_are_regenerated_once_with_feedback() {
    let (run, _) = start(targets(), tests());
    let (run, action) = on_ran(run, Ok(broken(vec!["b"])));
    match action {
        VerifyAction::Generate(ts, fb) => {
            assert_eq!(ts, vec![pair("b", "b()")]);
            assert_eq!(feedback_for(&fb, "b"), Some(("TB", "why b")));
            assert_eq!(feedback_for(&fb, "a"), None);
        }
        _ => panic!("expected a regeneration"),
    }
    let (run, action) = on_generated(run, vec![pair("b", "TB2"), pair("x", "TX")]);
    assert!(matches!(action, VerifyAction::RunTests));
    assert_eq!(run.tests, vec![pair("a", "TA"), pair("b", "TB2")]);
    let (_, action) = on_ran(run, Ok(broken(vec!["b"])));
    let er = finished(action).unwrap();
    assert_eq!(er.invalid, vec!["b"]);
    assert_eq!(er.missing, vec!["c"]);
    assert_eq!(er.unverified(), vec!["b", "c"]);
}

#[test]
fn a_round_that_brings_nothing_keeps_the_result() {
    let (run, _) = start(targets(), tests());
    let (run, _) = on_ran(run, Ok(broken(vec!["a"])));
    let (run, action) = on_generated(run, vec![]);
    assert_eq!(run.tests, tests());
    assert_eq!(finished(action).unwrap().invalid, vec!["a"]);
}

#[test]
fn a_rerun_that_fails_keeps_the_result() {
    let (run, _) = start(targets(), tests());
    let (run, _) = on_ran(run, Ok(broken(vec!["a"])));
    let (run, _) = on_generated(run, vec![pair("a", "TA2")]);
    let (_, action) = on_ran(run, Err("timeout".to_string()));
    let er = finished(action).unwrap();
    assert_eq!(er.invalid, vec!["a"]);
    assert_eq!(er.missing, vec!["c"]);
}

#[test]
fn a_round_that_heals_is_taken() {
    let (run, _) = start(targets(), tests());
    let (run, _) = on_ran(run, Ok(broken(vec!["a"])));
    let (run, _) = on_generated(run, vec![pair("a", "TA2")]);
    let (_, action) = on_ran(run, Ok(broken(vec![])));
    assert!(finished(action).unwrap().invalid.is_empty());
}

#[test]
fn the_first_feedback_under_a_name_counts() {
    let fb = |p: &str| Feedback {
        name: "n".to_string(),
        previous: p.to_string(),
        failure: "f".to_string(),
    };
    assert_eq!(feedback_for(&vec![fb("1"), fb("2")], "n"), Some(("1", "f")));
}
