use gaslite::orchestrator::{plan_route, route, PlanArgs, PlanError, Route, Submission, Task};

fn task(names: Vec<&str>) -> Task {
    Task {
        title: "t".to_string(),
        target_fns: names.iter().map(|n| n.to_string()).collect(),
        pattern_hints: vec![],
    }
}

fn plan(mode: &str, tasks: Vec<Task>) -> PlanArgs {
    PlanArgs {
        mode: mode.to_string(),
        tasks,
    }
}

#[test]
fn decomposition_needs_tasks() {
    match plan_route(plan("Decompose", vec![task(vec!["a", "b"])])) {
        Route::Decompose(tasks) => assert_eq!(tasks[0].target_fns, vec!["a", "b"]),
        Route::Oneshot => panic!("expected tasks"),
    }
    assert!(matches!(plan_route(plan("decompose", vec![])), Route::Oneshot));
    assert!(matches!(plan_route(plan("oneshot", vec![task(vec!["a"])])), Route::Oneshot));
    assert!(matches!(plan_route(plan("anything", vec![])), Route::Oneshot));
}

#[test]
fn a_task_is_copied_whole() {
    let mut t = task(vec!["a"]);
    t.pattern_hints.push("h".to_string());
    let c = t.clone();
    assert_eq!(c.title, "t");
    assert_eq!(c.target_fns, vec!["a"]);
    assert_eq!(c.pattern_hints, vec!["h"]);
}

#[test]
fn a_router_that_submits_nothing_fails() {
    assert_eq!(
        route(Submission::Nothing).unwrap_err(),
        "router did not call submit_plan"
    );
    assert_eq!(
        route(Submission::Unreadable("bad".to_string())).unwrap_err(),
        "router args parse failed: bad"
    );
    assert!(matches!(route(Submission::Plan(plan("oneshot", vec![]))), Ok(Route::Oneshot)));
    assert_eq!(PlanError("x".to_string()).message(), "submit_plan error: x");
}
