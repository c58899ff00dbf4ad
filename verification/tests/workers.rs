use provider_opencode::catalog::Catalog;
use provider_opencode::initialize;
use provider_opencode::json::{Json, JsonObject};
use provider_opencode::quota::{read_usage, QuotaState};
use provider_opencode::quota_query::{QueryAction, QueryEvent, QuotaQuery};
use provider_opencode::time::Moment;
use provider_opencode::workers::{
    recheck_due, CycleStep, RecheckCandidate, RecheckCycle, WorkerKind, WorkerRunnable,
    WorkerSchedule, ACCOUNTS_UNAVAILABLE, EXHAUSTED_QUOTA_FALLBACK_RECHECK_INTERVAL, RECHECK_FAILED,
};

fn candidate(enabled: bool, refresh_due: bool) -> RecheckCandidate {
    RecheckCandidate { enabled, refresh_due }
}

#[test]
fn bundle_exposes_quota_recheck_worker_and_drains_contributions_once() {
    let mut bundle = initialize(Some(Catalog { models: Vec::new() })).ok().unwrap();
    let contributions = bundle.take_worker_contributions();
    assert_eq!(contributions.len(), 1);
    assert_eq!(contributions[0].kind, WorkerKind::QuotaCatalogHealth);
    assert_eq!(contributions[0].owner, "opencode");
    assert_eq!(
        contributions[0].runnable,
        WorkerRunnable::Scheduled {
            schedule: WorkerSchedule {
                interval: 5 * 60,
                initial_backoff: 1,
                maximum_backoff: 60,
                lease_ttl: 15 * 60,
                lease_renewal: 5 * 60,
            },
            lease: Some(15 * 60),
        }
    );
    assert!(bundle.take_worker_contributions().is_empty());
}

#[test]
fn quota_recheck_skips_accounts_that_are_not_exhausted() {
    assert!(recheck_due(&candidate(true, true)));
    assert!(!recheck_due(&candidate(true, false)));
    assert!(!recheck_due(&candidate(false, true)));
    let mut cycle = RecheckCycle::new(vec![candidate(true, false), candidate(false, true)]);
    assert_eq!(cycle.advance(), CycleStep::Done(true));
}

#[test]
fn quota_recheck_asks_each_due_account_once() {
    let mut cycle = RecheckCycle::new(vec![
        candidate(true, true),
        candidate(true, false),
        candidate(true, true),
    ]);
    assert_eq!(cycle.advance(), CycleStep::Refresh(0));
    cycle.note(false);
    assert_eq!(cycle.advance(), CycleStep::Refresh(2));
    cycle.note(false);
    assert_eq!(cycle.advance(), CycleStep::Done(true));
    assert_eq!(cycle.advance(), CycleStep::Done(true));
}

#[test]
fn quota_recheck_reports_a_failure_and_goes_on() {
    let mut cycle = RecheckCycle::new(vec![candidate(true, true), candidate(true, true)]);
    assert_eq!(cycle.advance(), CycleStep::Refresh(0));
    cycle.note(true);
    assert_eq!(cycle.advance(), CycleStep::Refresh(1));
    cycle.note(false);
    assert_eq!(cycle.advance(), CycleStep::Done(false));
    assert_eq!(RECHECK_FAILED, "OpenCode quota recheck failed");
    assert_eq!(ACCOUNTS_UNAVAILABLE, "OpenCode Provider accounts unavailable");
    assert_eq!(EXHAUSTED_QUOTA_FALLBACK_RECHECK_INTERVAL, 10 * 60);
    cycle.failures = u64::MAX;
    cycle.note(true);
    assert_eq!(cycle.failures, u64::MAX);
}

fn refreshed(status: u16, body: &str) -> (QuotaQuery, QueryAction) {
    let mut query = QuotaQuery::new("opencode".to_owned(), true);
    let mut material = JsonObject::new();
    material.set("api_key", Json::text("test-key-a"));
    material.set("tier", Json::text("go"));
    let loaded = QueryEvent::Loaded { provider: "opencode".to_owned(), material };
    assert!(matches!(query.step(loaded), QueryAction::Fetch(_)));
    let action = query.step(QueryEvent::Fetched {
        report: read_usage(status == 200, status, body),
        observed_at: Moment { seconds: 1_750_000_000, nanos: 0 },
    });
    (query, action)
}

#[test]
fn quota_recheck_clears_exhaustion_once_the_window_reset_has_passed() {
    let mut cycle = RecheckCycle::new(vec![candidate(true, true)]);
    assert_eq!(cycle.advance(), CycleStep::Refresh(0));
    let (_, action) = refreshed(
        200,
        r#"{"usage": {
            "rolling": {"status": "ok", "percent": 12, "resetsAt": "2099-09-16T13:40:00Z"},
            "weekly": {"status": "ok", "percent": 57, "resetsAt": "2099-09-18T00:00:00Z"},
            "monthly": {"status": "ok", "percent": 3, "resetsAt": "2099-10-01T00:00:00Z"}
        }}"#,
    );
    assert!(matches!(action, QueryAction::Store(QuotaState::ObservedUnknown { .. })));
    cycle.note(false);
    assert_eq!(cycle.advance(), CycleStep::Done(true));
}

#[test]
fn quota_recheck_keeps_exhaustion_when_upstream_is_unreachable() {
    let mut cycle = RecheckCycle::new(vec![candidate(true, true)]);
    assert_eq!(cycle.advance(), CycleStep::Refresh(0));
    let (query, action) = refreshed(503, "");
    assert!(matches!(action, QueryAction::Fail(_)));
    assert!(query.report.is_none());
    cycle.note(true);
    assert_eq!(cycle.advance(), CycleStep::Done(false));
    assert_eq!(RECHECK_FAILED, "OpenCode quota recheck failed");
}
