use openshell::aggregator::{
    can_ingest_event, current_time_ms, epoch_ms_to_i64, ActivityAggregator, ActivityEvent, AggregatorAction,
    AggregatorEvent, FlushableActivitySummary,
};

fn event(host: &str, policy: &str, method: Option<&str>, path: Option<&str>) -> ActivityEvent {
    ActivityEvent {
        host: host.into(),
        port: 443,
        binary: "/usr/bin/node".into(),
        ancestors: vec!["/usr/bin/bash".into()],
        matched_policy: policy.into(),
        l7_method: method.map(Into::into),
        l7_path: path.map(Into::into),
    }
}

/// Feeds the events, then closes the channel; returns every flushed batch.
fn run(events: Vec<ActivityEvent>) -> Vec<Vec<FlushableActivitySummary>> {
    let mut agg = ActivityAggregator::new(3600);
    let mut flushed = Vec::new();
    for e in events {
        assert!(can_ingest_event(&agg, &e));
        match agg.step(AggregatorEvent::Activity(e)) {
            AggregatorAction::Continue => {}
            _ => panic!("an activity never flushes"),
        }
    }
    match agg.step(AggregatorEvent::Closed) {
        AggregatorAction::FlushAndStop(batch) => flushed.push(batch),
        AggregatorAction::Stop => {}
        _ => panic!("closing stops the loop"),
    }
    flushed
}

#[test]
fn test_aggregates_and_flushes_on_channel_close() {
    let flushed = run(vec![
        event("api.github.com", "github", Some("GET"), Some("/repos/org/repo")),
        event("api.github.com", "github", Some("POST"), Some("/repos/org/repo/issues")),
        event("api.github.com", "github", Some("GET"), Some("/repos/org/repo")),
    ]);
    let result: Vec<FlushableActivitySummary> = flushed.into_iter().flatten().collect();
    assert_eq!(result.len(), 1, "should aggregate into one summary by (host, port, binary)");

    let summary = &result[0];
    assert_eq!(summary.host, "api.github.com");
    assert_eq!(summary.port, 443);
    assert_eq!(summary.binary, "/usr/bin/node");
    assert_eq!(summary.matched_policy, "github");
    assert_eq!(summary.count, 3);
    assert_eq!(summary.l7_samples.len(), 2, "should have 2 distinct method+path pairs");

    let get_sample = summary
        .l7_samples
        .iter()
        .find(|s| s.method == "GET")
        .expect("should have GET sample");
    assert_eq!(get_sample.count, 2);

    let post_sample = summary
        .l7_samples
        .iter()
        .find(|s| s.method == "POST")
        .expect("should have POST sample");
    assert_eq!(post_sample.count, 1);
}

#[test]
fn test_different_hosts_produce_separate_summaries() {
    let mut a = event("api.github.com", "github", None, None);
    a.ancestors = vec![];
    let mut b = event("api.openai.com", "openai", None, None);
    b.ancestors = vec![];
    let result: Vec<FlushableActivitySummary> = run(vec![a, b]).into_iter().flatten().collect();
    assert_eq!(result.len(), 2, "different hosts should produce separate summaries");
}

#[test]
fn test_no_events_no_flush() {
    let flushed = run(vec![]);
    assert_eq!(flushed.len(), 0, "no events should mean no flush");
}

#[test]
fn tick_flushes_only_when_non_empty() {
    let mut agg = ActivityAggregator::new(30);
    assert_eq!(agg.flush_interval_secs(), 30);
    assert!(matches!(agg.step(AggregatorEvent::Tick), AggregatorAction::Continue));
    agg.ingest_at(event("a", "p", None, None), 5);
    agg.ingest_at(event("b", "p", None, None), 6);
    agg.ingest_at(event("a", "q", None, None), 9);
    match agg.step(AggregatorEvent::Tick) {
        AggregatorAction::Flush(batch) => {
            assert_eq!(batch.len(), 2);
            assert_eq!(batch[0].host, "a");
            assert_eq!(batch[0].count, 2);
            assert_eq!(batch[0].first_seen_ms, 5);
            assert_eq!(batch[0].last_seen_ms, 9);
            // Metadata comes from the first event of the key.
            assert_eq!(batch[0].matched_policy, "p");
            assert_eq!(batch[1].host, "b");
            assert_eq!(batch[1].count, 1);
        }
        _ => panic!("expected a flush"),
    }
    assert!(agg.is_empty());
    assert!(matches!(agg.step(AggregatorEvent::Tick), AggregatorAction::Continue));
}

#[test]
fn l7_samples_are_capped_at_fifty() {
    let mut agg = ActivityAggregator::new(10);
    for i in 0..60 {
        let path = format!("/p/{i}");
        agg.ingest_at(event("h", "p", Some("GET"), Some(&path)), i);
    }
    // A known pair is still counted once the cap is reached.
    agg.ingest_at(event("h", "p", Some("GET"), Some("/p/0")), 61);
    // A request without a path records no sample.
    agg.ingest_at(event("h", "p", Some("GET"), None), 62);
    let batch = agg.drain();
    assert_eq!(batch.len(), 1);
    assert_eq!(batch[0].count, 62);
    assert_eq!(batch[0].l7_samples.len(), 50);
    assert_eq!(batch[0].l7_samples[0].path, "/p/0");
    assert_eq!(batch[0].l7_samples[0].count, 2);
    assert_eq!(batch[0].l7_samples[49].path, "/p/49");
    assert_eq!(batch[0].last_seen_ms, 62);
    assert_eq!(agg.len(), 0);
}

#[test]
fn different_ports_and_binaries_are_different_keys() {
    let mut agg = ActivityAggregator::new(10);
    agg.ingest_at(event("h", "p", None, None), 1);
    let mut other_port = event("h", "p", None, None);
    other_port.port = 80;
    agg.ingest_at(other_port, 2);
    let mut other_bin = event("h", "p", None, None);
    other_bin.binary = "/usr/bin/curl".into();
    agg.ingest_at(other_bin, 3);
    assert_eq!(agg.len(), 3);
}

#[test]
fn clock_reads_and_ingest_stamps_time() {
    let before = current_time_ms();
    assert!(before > 0);
    let mut agg = ActivityAggregator::new(10);
    agg.ingest(event("h", "p", None, None));
    let batch = agg.drain();
    assert!(batch[0].first_seen_ms >= before);
    assert_eq!(batch[0].first_seen_ms, batch[0].last_seen_ms);
}

#[test]
fn clock_reading_conversion() {
    assert_eq!(epoch_ms_to_i64(None), 0);
    assert_eq!(epoch_ms_to_i64(Some(1_700_000_000_123)), 1_700_000_000_123);
    assert_eq!(epoch_ms_to_i64(Some(i64::MAX as u128)), i64::MAX);
    assert_eq!(epoch_ms_to_i64(Some(u128::MAX)), i64::MAX);
}

#[test]
fn summaries_have_distinct_keys_and_bounded_sample_totals() {
    let mut events = Vec::new();
    for i in 0..60 {
        events.push(event("a.example", "p", Some("GET"), Some(&format!("/p{}", i))));
    }
    events.push(event("a.example", "p", None, None));
    events.push(event("b.example", "p", Some("GET"), None));
    events.push(event("b.example", "p", Some("GET"), Some("/x")));
    let batch: Vec<FlushableActivitySummary> = run(events).into_iter().flatten().collect();
    assert_eq!(batch.len(), 2);
    assert_ne!(batch[0].host, batch[1].host);
    for s in &batch {
        assert!(s.count >= 1);
        assert!(s.l7_samples.len() <= 50);
        assert!(s.l7_samples.iter().all(|x| x.count >= 1));
        let total: u32 = s.l7_samples.iter().map(|x| x.count).sum();
        assert!(total <= s.count);
    }
    assert_eq!(batch[0].count, 61);
    assert_eq!(batch[0].l7_samples.len(), 50);
    assert_eq!(batch[1].count, 2);
    assert_eq!(batch[1].l7_samples.len(), 1);
}
