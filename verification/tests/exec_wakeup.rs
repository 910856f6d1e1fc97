use codex_core::exec_wakeup::{MetricKind, Session, EXEC_WAKEUP_BATCH_WINDOW_SECS};

#[test]
fn wakeup_event_is_counted_with_its_state() {
    let mut session = Session::new();
    session.record_exec_wakeup_event("batch_ready");
    let metrics = session.take_recorded_metrics();
    assert_eq!(metrics.len(), 1);
    assert_eq!(metrics[0].kind, MetricKind::Counter);
    assert_eq!(metrics[0].name, "codex.exec_wakeup");
    assert_eq!(metrics[0].value, 1);
    assert_eq!(metrics[0].tags, vec![("state", "batch_ready")]);
    assert!(session.take_recorded_metrics().is_empty());
}

#[test]
fn delivery_delay_is_sampled_in_milliseconds_and_saturates() {
    let mut session = Session::new();
    session.record_exec_wakeup_delivery_delay(1500);
    session.record_exec_wakeup_delivery_delay(i64::MAX as u128);
    session.record_exec_wakeup_delivery_delay(u128::MAX);
    let metrics = session.take_recorded_metrics();
    let values: Vec<i64> = metrics.iter().map(|m| m.value).collect();
    assert_eq!(values, vec![1500, i64::MAX, i64::MAX]);
    assert!(metrics.iter().all(|m| m.kind == MetricKind::Histogram
        && m.name == "codex.exec_wakeup.delivery_delay_ms"
        && m.tags.is_empty()));
}

#[test]
fn only_the_first_schedule_starts_a_batch_timer() {
    let mut session = Session::new();
    assert!(session.schedule_exec_wakeup());
    assert!(!session.schedule_exec_wakeup());
    assert!(!session.schedule_exec_wakeup());
    assert_eq!(EXEC_WAKEUP_BATCH_WINDOW_SECS, 5);
}
