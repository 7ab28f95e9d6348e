//! The health report: liveness of the server plus connectivity probes for the two
//! backing stores.

use vstd::prelude::*;

verus! {

/// The state of one backing store.
pub struct ComponentHealth {
    /// "ok" | "down"
    pub status: &'static str,
    pub latency_ms: u128,
    pub error: Option<String>,
}

/// The state of both backing stores.
pub struct HealthChecks {
    pub turso: ComponentHealth,
    pub qdrant: ComponentHealth,
}

/// The health report.
pub struct HealthResponse {
    /// "ok" | "degraded"
    pub status: &'static str,
    pub service: &'static str,
    /// "ok": whoever answers is up.
    pub server: &'static str,
    pub checks: HealthChecks,
}

/// The status code of a healthy report.
pub const STATUS_OK: u16 = 200;

/// The status code of a degraded report.
pub const STATUS_UNAVAILABLE: u16 = 503;

/// What a probe says about its store.
pub fn component(probe: Result<(), String>, latency_ms: u128) -> (r: ComponentHealth)
    ensures
        r.latency_ms == latency_ms,
        match probe {
            Ok(_) => r.status@ == "ok"@ && r.error is None,
            Err(e) => r.status@ == "down"@ && r.error == Some(e),
        },
{
    match probe {
        Ok(_) => ComponentHealth { status: "ok", latency_ms, error: None },
        Err(e) => ComponentHealth { status: "down", latency_ms, error: Some(e) },
    }
}

/// The report over both probes, with the status code to answer with. The service is
/// healthy exactly when both stores are.
pub fn health_check(
    turso: Result<(), String>,
    turso_ms: u128,
    qdrant: Result<(), String>,
    qdrant_ms: u128,
) -> (r: (u16, HealthResponse))
    ensures
        r.0 == (if turso is Ok && qdrant is Ok {
            STATUS_OK
        } else {
            STATUS_UNAVAILABLE
        }),
        r.1.status@ == (if turso is Ok && qdrant is Ok {
            "ok"@
        } else {
            "degraded"@
        }),
        r.1.service@ == "gaslite"@,
        r.1.server@ == "ok"@,
        r.1.checks.turso.latency_ms == turso_ms,
        match turso {
            Ok(_) => r.1.checks.turso.status@ == "ok"@ && r.1.checks.turso.error is None,
            Err(e) => r.1.checks.turso.status@ == "down"@ && r.1.checks.turso.error == Some(e),
        },
        r.1.checks.qdrant.latency_ms == qdrant_ms,
        match qdrant {
            Ok(_) => r.1.checks.qdrant.status@ == "ok"@ && r.1.checks.qdrant.error is None,
            Err(e) => r.1.checks.qdrant.status@ == "down"@ && r.1.checks.qdrant.error == Some(e),
        },
{
    let healthy = turso.is_ok() && qdrant.is_ok();
    let checks = HealthChecks {
        turso: component(turso, turso_ms),
        qdrant: component(qdrant, qdrant_ms),
    };
    if healthy {
        (STATUS_OK, HealthResponse { status: "ok", service: "gaslite", server: "ok", checks })
    } else {
        (
            STATUS_UNAVAILABLE,
            HealthResponse { status: "degraded", service: "gaslite", server: "ok", checks },
        )
    }
}

} // verus!
