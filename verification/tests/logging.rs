use gaslite::health::{component, health_check};
use gaslite::logging::{fmt_gas, fmt_saved, LoggingSink, NoopSink, RunLog};

fn run() -> RunLog {
    RunLog {
        contract_hash: "00ff".to_string(),
        mode: "oneshot",
        gas_original: Some(120),
        gas_optimized: None,
        gas_saved: Some(-5),
        pattern_ids: vec!["a".to_string(), "b".to_string()],
        ts: 1700000000,
    }
}

#[test]
fn gas_figures_may_be_absent() {
    assert_eq!(fmt_gas(None), "n/a");
    assert_eq!(fmt_gas(Some(0)), "0");
    assert_eq!(fmt_gas(Some(u64::MAX)), "18446744073709551615");
    assert_eq!(fmt_saved(None), "n/a");
    assert_eq!(fmt_saved(Some(i64::MIN)), "-9223372036854775808");
}

#[test]
fn the_default_sink_words_the_run() {
    assert_eq!(
        NoopSink.log_run(&run()).unwrap(),
        "  run-log (noop): mode=oneshot hash=00ff gas 120\u{2192}n/a saved=-5 patterns=2 ts=1700000000"
    );
}

#[test]
fn a_copied_run_is_worded_alike() {
    assert_eq!(NoopSink.log_run(&run().clone()), NoopSink.log_run(&run()));
}

#[test]
fn a_sink_can_be_chosen_at_run_time() {
    let sink: Box<dyn LoggingSink> = Box::new(NoopSink);
    assert!(sink.log_run(&run()).is_ok());
}

#[test]
fn the_service_is_healthy_when_both_stores_are() {
    let (code, r) = health_check(Ok(()), 3, Ok(()), 4);
    assert_eq!(code, 200);
    assert_eq!((r.status, r.service, r.server), ("ok", "gaslite", "ok"));
    assert_eq!((r.checks.turso.status, r.checks.turso.latency_ms), ("ok", 3));
    assert_eq!((r.checks.qdrant.status, r.checks.qdrant.latency_ms), ("ok", 4));
}

#[test]
fn one_store_down_degrades_the_service() {
    let (code, r) = health_check(Ok(()), 1, Err("refused".to_string()), 2);
    assert_eq!((code, r.status), (503, "degraded"));
    assert_eq!(r.checks.turso.error, None);
    assert_eq!(r.checks.qdrant.status, "down");
    assert_eq!(r.checks.qdrant.error, Some("refused".to_string()));
    let (code, _) = health_check(Err("x".to_string()), 0, Ok(()), 0);
    assert_eq!(code, 503);
    assert_eq!(component(Err("e".to_string()), 7).latency_ms, 7);
}
