use openshell::aggregator::{FlushableActivitySummary, FlushableL7Sample};
use openshell::tether::{
    activity_records, activity_report, denial_report, execute_verdict, report_url,
    resolve_tether_config, verdict_url, FlushableDenialSummary, LastVerdict, ResponseOutcome,
    TetherConfig, TetherDef, TetherEnv, TetherMode, TetherVerdict, VerdictAction,
};
use openshell::text::parse_u64;

fn verdict(v: &str, drift: Option<f64>) -> TetherVerdict {
    TetherVerdict {
        verdict: v.into(),
        drift_score_bits: drift.map(f64::to_bits),
        feedback: Some("fb".into()),
        actions_logged: Some(3),
        chain_block_index: Some(7),
    }
}

fn config(mode: TetherMode) -> TetherConfig {
    TetherConfig { endpoint: "http://tether:3000".into(), task_id: "task-abc".into(), mode, timeout_secs: 10 }
}

fn no_env() -> TetherEnv {
    TetherEnv { endpoint: None, task_id: None, mode: None, timeout_secs: None }
}

#[test]
fn enforce_mode_actions() {
    assert_eq!(execute_verdict(TetherMode::Enforce, &verdict("halt", None)), VerdictAction::Terminate);
    assert_eq!(
        execute_verdict(TetherMode::Enforce, &verdict("caution", Some(0.75))),
        VerdictAction::TightenPolicy { drift_score_bits: 0.75f64.to_bits() }
    );
    assert_eq!(
        execute_verdict(TetherMode::Enforce, &verdict("caution", None)),
        VerdictAction::TightenPolicy { drift_score_bits: 0.0f64.to_bits() }
    );
    assert_eq!(execute_verdict(TetherMode::Enforce, &verdict("continue", Some(0.1))), VerdictAction::Continue);
    assert_eq!(execute_verdict(TetherMode::Enforce, &verdict("HALT", None)), VerdictAction::Continue);
}

#[test]
fn monitor_mode_never_enforces() {
    for v in ["halt", "caution", "continue", "other"] {
        assert_eq!(execute_verdict(TetherMode::Monitor, &verdict(v, Some(1.0))), VerdictAction::Continue);
    }
}

#[test]
fn last_verdict_survives_failures() {
    let mut last = LastVerdict::new();
    assert_eq!(last.get().verdict, "continue");
    assert_eq!(last.get().drift_score_bits, None);
    let v = last.on_response(ResponseOutcome::Verdict(verdict("caution", Some(0.5))));
    assert_eq!(v.verdict, "caution");
    for outcome in [ResponseOutcome::Unreachable, ResponseOutcome::Failed, ResponseOutcome::Unparseable] {
        let kept = last.on_response(outcome);
        assert_eq!(kept.verdict, "caution");
        assert_eq!(kept.drift_score_bits, Some(0.5f64.to_bits()));
        assert_eq!(kept.chain_block_index, Some(7));
    }
}

#[test]
fn activity_records_flatten_l7_samples() {
    let l4 = FlushableActivitySummary {
        host: "a".into(),
        port: 443,
        binary: "/b".into(),
        ancestors: vec![],
        matched_policy: "p".into(),
        first_seen_ms: 1,
        last_seen_ms: 2,
        count: 4,
        l7_samples: vec![],
    };
    let l7 = FlushableActivitySummary {
        host: "c".into(),
        port: 80,
        binary: "/d".into(),
        ancestors: vec![],
        matched_policy: "q".into(),
        first_seen_ms: 1,
        last_seen_ms: 2,
        count: 9,
        l7_samples: vec![
            FlushableL7Sample { method: "GET".into(), path: "/x".into(), count: 5 },
            FlushableL7Sample { method: "POST".into(), path: "/y".into(), count: 4 },
        ],
    };
    let recs = activity_records(&[l4, l7]);
    assert_eq!(recs.len(), 3);
    assert_eq!(recs[0].host, "a");
    assert_eq!(recs[0].method, None);
    assert_eq!(recs[0].count, 4);
    assert_eq!(recs[1].host, "c");
    assert_eq!(recs[1].method.as_deref(), Some("GET"));
    assert_eq!(recs[1].path.as_deref(), Some("/x"));
    assert_eq!(recs[1].count, 5);
    assert_eq!(recs[2].method.as_deref(), Some("POST"));
    assert_eq!(recs[2].matched_policy, "q");
    assert_eq!(recs[2].count, 4);

    let report = activity_report(&config(TetherMode::Monitor), &[]);
    assert_eq!(report.task_id, "task-abc");
    assert_eq!(report.reported_by, "openshell-supervisor");
    assert!(report.activities.is_empty() && report.denials.is_empty());
}

#[test]
fn denial_report_carries_reasons() {
    let d = FlushableDenialSummary {
        host: "evil".into(),
        port: 443,
        binary: "/curl".into(),
        deny_reason: "no matching policy".into(),
        count: 2,
    };
    let report = denial_report(&config(TetherMode::Enforce), &[d]);
    assert!(report.activities.is_empty());
    assert_eq!(report.denials.len(), 1);
    assert_eq!(report.denials[0].reason, "no matching policy");
    assert_eq!(report.denials[0].count, 2);
}

#[test]
fn urls() {
    let c = config(TetherMode::Monitor);
    assert_eq!(report_url(&c), "http://tether:3000/api/activity/report");
    assert_eq!(verdict_url(&c), "http://tether:3000/api/task/task-abc/verdict");
}

#[test]
fn env_only_configuration() {
    assert!(resolve_tether_config(None, &no_env()).is_none());
    let env = TetherEnv {
        endpoint: Some("http://t".into()),
        task_id: Some("t1".into()),
        mode: Some("enforce".into()),
        timeout_secs: Some("+25".into()),
    };
    let c = resolve_tether_config(None, &env).unwrap();
    assert_eq!(c.endpoint, "http://t");
    assert_eq!(c.task_id, "t1");
    assert_eq!(c.mode, TetherMode::Enforce);
    assert_eq!(c.timeout_secs, 25);
    let env = TetherEnv { task_id: Some(String::new()), ..env };
    assert!(resolve_tether_config(None, &env).is_none());
    let env = TetherEnv {
        endpoint: Some("http://t".into()),
        task_id: Some("t1".into()),
        mode: Some("ENFORCE".into()),
        timeout_secs: Some("abc".into()),
    };
    let c = resolve_tether_config(None, &env).unwrap();
    assert_eq!(c.mode, TetherMode::Monitor);
    assert_eq!(c.timeout_secs, 10);
}

#[test]
fn policy_configuration_with_env_overrides() {
    let def = TetherDef {
        enabled: true,
        endpoint: "http://tether:3000".into(),
        task_id: "static".into(),
        mode: "enforce".into(),
    };
    let c = resolve_tether_config(Some(&def), &no_env()).unwrap();
    assert_eq!(c.endpoint, "http://tether:3000");
    assert_eq!(c.task_id, "static");
    assert_eq!(c.mode, TetherMode::Enforce);
    assert_eq!(c.timeout_secs, 10);

    let env = TetherEnv {
        endpoint: Some(String::new()),
        task_id: Some("dynamic".into()),
        mode: Some("monitor".into()),
        timeout_secs: Some("3".into()),
    };
    let c = resolve_tether_config(Some(&def), &env).unwrap();
    assert_eq!(c.endpoint, "http://tether:3000");
    assert_eq!(c.task_id, "dynamic");
    assert_eq!(c.mode, TetherMode::Monitor);
    assert_eq!(c.timeout_secs, 3);

    let disabled = TetherDef { enabled: false, ..def };
    assert!(resolve_tether_config(Some(&disabled), &env).is_none());
    let empty = TetherDef { enabled: true, endpoint: String::new(), task_id: "t".into(), mode: String::new() };
    assert!(resolve_tether_config(Some(&empty), &no_env()).is_none());
}

#[test]
fn parse_u64_matches_std() {
    for s in ["0", "10", "+7", "007", "18446744073709551615", "18446744073709551616", "", "+", "-1", " 1", "1a", "++1"] {
        assert_eq!(parse_u64(s), s.parse::<u64>().ok(), "input {s:?}");
    }
}

#[test]
fn report_then_enforce_without_any_answer_continues() {
    let mut last = LastVerdict::new();
    for outcome in [ResponseOutcome::Unreachable, ResponseOutcome::Failed, ResponseOutcome::Unparseable] {
        let v = last.on_response(outcome);
        assert_eq!(v.verdict, "continue");
        assert_eq!(execute_verdict(TetherMode::Enforce, &v), VerdictAction::Continue);
    }
}

#[test]
fn report_then_enforce_in_monitor_mode_never_enforces() {
    let mut last = LastVerdict::new();
    let v = last.on_response(ResponseOutcome::Verdict(verdict("halt", Some(0.9))));
    assert_eq!(execute_verdict(TetherMode::Monitor, &v), VerdictAction::Continue);
    let kept = last.on_response(ResponseOutcome::Unreachable);
    assert_eq!(kept.verdict, "halt");
    assert_eq!(execute_verdict(TetherMode::Monitor, &kept), VerdictAction::Continue);
    assert_eq!(execute_verdict(TetherMode::Enforce, &kept), VerdictAction::Terminate);
}
