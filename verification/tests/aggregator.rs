use influxproxy::{AggregatedMetric, Aggregator, AggregatorEvent, FlushPolicy, Metric};

fn record(data: &str, org: &str, bucket: &str) -> AggregatorEvent {
    AggregatorEvent::Record(Metric::new(
        data.to_string(),
        org.to_string(),
        bucket.to_string(),
    ))
}

fn shape(batches: &[AggregatedMetric]) -> Vec<(String, String, Vec<String>)> {
    batches
        .iter()
        .map(|b| (b.bucket().clone(), b.org().clone(), b.data().clone()))
        .collect()
}

fn strings(items: &[&str]) -> Vec<String> {
    items.iter().map(|s| s.to_string()).collect()
}

#[test]
fn threshold_of_300_flushes_at_the_300th_record() {
    let mut stage = Aggregator::new(FlushPolicy::TimeOrCount { threshold: 300 });
    for i in 0..299 {
        let out = stage.step(record(&format!("m{}", i), "o", "b"));
        assert!(out.is_empty());
        assert_eq!(stage.count(), i + 1);
    }
    let out = stage.step(record("m299", "o", "b"));
    assert_eq!(out.len(), 1);
    assert_eq!(out[0].len(), 300);
    assert_eq!(out[0].data()[0], "m0");
    assert_eq!(out[0].data()[299], "m299");
    assert_eq!(stage.count(), 0);
    assert_eq!(stage.destinations(), 0);

    let out = stage.step(record("next", "o", "b"));
    assert!(out.is_empty());
    assert_eq!(stage.count(), 1);
    let out = stage.step(AggregatorEvent::Tick);
    assert_eq!(shape(&out), vec![("b".to_string(), "o".to_string(), strings(&["next"]))]);
}

#[test]
fn below_the_threshold_only_the_timer_flushes() {
    let mut stage = Aggregator::new(FlushPolicy::TimeOrCount { threshold: 300 });
    for i in 0..299 {
        assert!(stage.step(record(&format!("m{}", i), "o", "b")).is_empty());
    }
    assert_eq!(stage.count(), 299);
    let out = stage.step(AggregatorEvent::Tick);
    assert_eq!(out.len(), 1);
    assert_eq!(out[0].len(), 299);
    assert_eq!(stage.count(), 0);
}

#[test]
fn tick_with_nothing_pending_gives_no_batch() {
    let mut stage = Aggregator::new(FlushPolicy::TimeOrCount { threshold: 300 });
    assert!(stage.step(AggregatorEvent::Tick).is_empty());
    assert!(stage.step(AggregatorEvent::Tick).is_empty());
    stage.step(record("a", "o", "b"));
    assert_eq!(stage.step(AggregatorEvent::Tick).len(), 1);
    assert!(stage.step(AggregatorEvent::Tick).is_empty());

    let mut timed = Aggregator::new(FlushPolicy::TimeOnly);
    assert!(timed.step(AggregatorEvent::Tick).is_empty());
}

#[test]
fn arrival_order_is_kept_within_a_destination() {
    let mut stage = Aggregator::new(FlushPolicy::TimeOnly);
    stage.step(record("a", "o", "b"));
    stage.step(record("b", "o", "b"));
    stage.step(record("c", "o", "b"));
    let out = stage.step(AggregatorEvent::Tick);
    assert_eq!(
        shape(&out),
        vec![("b".to_string(), "o".to_string(), strings(&["a", "b", "c"]))]
    );
}

#[test]
fn interleaved_destinations_are_grouped() {
    let mut stage = Aggregator::new(FlushPolicy::TimeOnly);
    stage.step(record("a1", "o1", "b1"));
    stage.step(record("x1", "o2", "b1"));
    stage.step(record("a2", "o1", "b1"));
    stage.step(record("y1", "o1", "b2"));
    stage.step(record("x2", "o2", "b1"));
    stage.step(record("a3", "o1", "b1"));
    assert_eq!(stage.destinations(), 3);
    assert_eq!(stage.count(), 6);
    let out = stage.step(AggregatorEvent::Tick);
    assert_eq!(
        shape(&out),
        vec![
            ("b1".to_string(), "o1".to_string(), strings(&["a1", "a2", "a3"])),
            ("b1".to_string(), "o2".to_string(), strings(&["x1", "x2"])),
            ("b2".to_string(), "o1".to_string(), strings(&["y1"])),
        ]
    );
}

#[test]
fn destinations_are_compared_exactly() {
    let mut stage = Aggregator::new(FlushPolicy::TimeOnly);
    stage.step(record("a", "org", "bucket"));
    stage.step(record("b", "Org", "bucket"));
    stage.step(record("c", "org", "bucket "));
    stage.step(record("d", "bucket", "org"));
    let out = stage.step(AggregatorEvent::Tick);
    assert_eq!(out.len(), 4);
    for batch in &out {
        assert_eq!(batch.len(), 1);
    }
}

#[test]
fn count_runs_over_all_destinations() {
    let mut stage = Aggregator::new(FlushPolicy::TimeOrCount { threshold: 3 });
    assert!(stage.step(record("a", "o1", "b")).is_empty());
    assert!(stage.step(record("b", "o2", "b")).is_empty());
    let out = stage.step(record("c", "o1", "b"));
    assert_eq!(
        shape(&out),
        vec![
            ("b".to_string(), "o1".to_string(), strings(&["a", "c"])),
            ("b".to_string(), "o2".to_string(), strings(&["b"])),
        ]
    );
    assert_eq!(stage.count(), 0);
}

#[test]
fn time_only_ignores_the_count() {
    let mut stage = Aggregator::new(FlushPolicy::TimeOnly);
    for i in 0..1000 {
        assert!(stage.step(record(&format!("m{}", i), "o", "b")).is_empty());
    }
    assert_eq!(stage.count(), 1000);
    let out = stage.step(AggregatorEvent::Tick);
    assert_eq!(out.len(), 1);
    assert_eq!(out[0].len(), 1000);
}

#[test]
fn closed_ingestion_changes_nothing() {
    let mut stage = Aggregator::new(FlushPolicy::TimeOrCount { threshold: 1 });
    assert!(stage.step(AggregatorEvent::Closed).is_empty());
    let mut stage = Aggregator::new(FlushPolicy::TimeOrCount { threshold: 5 });
    stage.step(record("a", "o", "b"));
    assert!(stage.step(AggregatorEvent::Closed).is_empty());
    assert_eq!(stage.count(), 1);
    assert_eq!(stage.destinations(), 1);
    let out = stage.step(AggregatorEvent::Tick);
    assert_eq!(shape(&out), vec![("b".to_string(), "o".to_string(), strings(&["a"]))]);
}

#[test]
fn threshold_of_one_or_zero_flushes_every_record() {
    for threshold in [0, 1] {
        let mut stage = Aggregator::new(FlushPolicy::TimeOrCount { threshold });
        for data in ["a", "b"] {
            let out = stage.step(record(data, "o", "b"));
            assert_eq!(shape(&out), vec![("b".to_string(), "o".to_string(), strings(&[data]))]);
            assert_eq!(stage.count(), 0);
        }
    }
}

#[test]
fn empty_payloads_are_gathered_like_any_other() {
    let mut stage = Aggregator::new(FlushPolicy::TimeOnly);
    stage.step(record("", "o", "b"));
    stage.step(record("", "o", "b"));
    let out = stage.step(AggregatorEvent::Tick);
    assert_eq!(shape(&out), vec![("b".to_string(), "o".to_string(), strings(&["", ""]))]);
}

#[test]
fn stage_keeps_its_policy() {
    let mut stage = Aggregator::new(FlushPolicy::TimeOrCount { threshold: 7 });
    stage.step(record("a", "o", "b"));
    stage.step(AggregatorEvent::Tick);
    assert_eq!(stage.policy(), FlushPolicy::TimeOrCount { threshold: 7 });
}

#[test]
fn batch_grows_at_the_end() {
    let mut batch = AggregatedMetric::new("o".to_string(), "b".to_string(), strings(&["a"]));
    batch.push("b".to_string());
    assert_eq!(batch.len(), 2);
    assert_eq!(batch.data(), &strings(&["a", "b"]));
    assert!(batch.is_for(&"b".to_string(), &"o".to_string()));
    assert!(!batch.is_for(&"o".to_string(), &"b".to_string()));
}
