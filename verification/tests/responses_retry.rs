use std::time::Duration;

use codex_core::responses_retry::{
    after_fallback_attempt, finish_server_overloaded_wait, handle_retryable_response_stream_error,
    plan_server_overloaded_retry, server_overloaded_retry_delay, FallbackOutcome, RetryDelay,
    RetryInterruption, ServerOverloadedRetry, StreamErrorStep, WaitOutcome,
};

#[test]
fn server_overloaded_retry_delay_doubles_then_stays_capped() {
    let delays = (1..=12)
        .map(|retry_count| Duration::from_secs(server_overloaded_retry_delay(retry_count)))
        .collect::<Vec<_>>();

    assert_eq!(
        delays,
        vec![
            Duration::from_secs(1),
            Duration::from_secs(2),
            Duration::from_secs(4),
            Duration::from_secs(8),
            Duration::from_secs(16),
            Duration::from_secs(32),
            Duration::from_secs(64),
            Duration::from_secs(128),
            Duration::from_secs(256),
            Duration::from_secs(256),
            Duration::from_secs(256),
            Duration::from_secs(256),
        ]
    );
    assert_eq!(
        Duration::from_secs(server_overloaded_retry_delay(u64::MAX)),
        Duration::from_secs(256)
    );
}

#[test]
fn server_overloaded_retry_delay_of_attempt_zero_is_one_second() {
    assert_eq!(server_overloaded_retry_delay(0), 1);
}

fn wait_message(step: ServerOverloadedRetry) -> (u64, u64, String) {
    match step {
        ServerOverloadedRetry::Wait {
            retry_count,
            delay_secs,
            message,
        } => (retry_count, delay_secs, message),
        ServerOverloadedRetry::Aborted => panic!("expected a wait"),
    }
}

#[test]
fn capacity_retries_announce_each_attempt_and_its_delay() {
    let mut retries = 0;
    let first = wait_message(plan_server_overloaded_retry(&mut retries, false));
    let second = wait_message(plan_server_overloaded_retry(&mut retries, false));
    assert_eq!(
        first,
        (1, 1, "Model at capacity. Retrying in 1s (attempt 1).".to_string())
    );
    assert_eq!(
        second,
        (2, 2, "Model at capacity. Retrying in 2s (attempt 2).".to_string())
    );
    assert_eq!(retries, 2);
}

#[test]
fn cancelled_capacity_retry_aborts_without_counting() {
    let mut retries = 3;
    assert!(matches!(
        plan_server_overloaded_retry(&mut retries, true),
        ServerOverloadedRetry::Aborted
    ));
    assert_eq!(retries, 3);
}

#[test]
fn capacity_retry_counter_saturates() {
    let mut retries = u64::MAX;
    let (count, delay, message) = wait_message(plan_server_overloaded_retry(&mut retries, false));
    assert_eq!(retries, u64::MAX);
    assert_eq!(count, u64::MAX);
    assert_eq!(delay, 256);
    assert_eq!(
        message,
        "Model at capacity. Retrying in 256s (attempt 18446744073709551615)."
    );
}

#[test]
fn capacity_wait_outcome() {
    assert_eq!(finish_server_overloaded_wait(WaitOutcome::Elapsed), Ok(()));
    assert_eq!(
        finish_server_overloaded_wait(WaitOutcome::Cancelled),
        Err(RetryInterruption::TurnAborted)
    );
}

fn retry_of(step: StreamErrorStep) -> (u64, RetryDelay, Option<String>) {
    match step {
        StreamErrorStep::Retry {
            retry_count,
            delay,
            notice,
        } => (retry_count, delay, notice),
        StreamErrorStep::AttemptFallback => panic!("expected a retry"),
    }
}

#[test]
fn first_websocket_retry_is_quiet_in_release_builds() {
    let mut retries = 0;
    let first = retry_of(handle_retryable_response_stream_error(
        &mut retries,
        5,
        false,
        false,
        true,
    ));
    assert_eq!(first, (1, RetryDelay::Backoff { retry_count: 1 }, None));
    let second = retry_of(handle_retryable_response_stream_error(
        &mut retries,
        5,
        true,
        false,
        true,
    ));
    assert_eq!(
        second,
        (2, RetryDelay::Requested, Some("Reconnecting... 2/5".to_string()))
    );
    assert_eq!(retries, 2);
}

#[test]
fn first_retry_is_reported_in_debug_builds_or_over_https() {
    let mut retries = 0;
    let debug = retry_of(handle_retryable_response_stream_error(
        &mut retries, 3, false, true, true,
    ));
    assert_eq!(debug.2, Some("Reconnecting... 1/3".to_string()));
    let mut retries = 0;
    let https = retry_of(handle_retryable_response_stream_error(
        &mut retries, 3, false, false, false,
    ));
    assert_eq!(https.2, Some("Reconnecting... 1/3".to_string()));
}

#[test]
fn exhausted_retries_try_the_fallback_transport() {
    let mut retries = 2;
    let step = handle_retryable_response_stream_error(&mut retries, 2, false, false, true);
    assert!(matches!(step, StreamErrorStep::AttemptFallback));
    assert_eq!(retries, 2);

    match after_fallback_attempt(&mut retries, true, "stream disconnected") {
        FallbackOutcome::SwitchedTransport { warning } => assert_eq!(
            warning,
            "Falling back from WebSockets to HTTPS transport. stream disconnected"
        ),
        FallbackOutcome::GiveUp => panic!("expected a switch"),
    }
    assert_eq!(retries, 0);
}

#[test]
fn exhausted_retries_without_fallback_give_up() {
    let mut retries = 4;
    assert!(matches!(
        after_fallback_attempt(&mut retries, false, "boom"),
        FallbackOutcome::GiveUp
    ));
    assert_eq!(retries, 4);
}

#[test]
fn zero_max_retries_goes_straight_to_fallback() {
    let mut retries = 0;
    assert!(matches!(
        handle_retryable_response_stream_error(&mut retries, 0, false, true, false),
        StreamErrorStep::AttemptFallback
    ));
    assert_eq!(retries, 0);
}

#[test]
fn stream_retries_stop_at_the_limit() {
    let mut retries = 0;
    for expected in 1..=3 {
        let (count, _, _) = retry_of(handle_retryable_response_stream_error(
            &mut retries,
            3,
            false,
            true,
            true,
        ));
        assert_eq!(count, expected);
    }
    assert!(matches!(
        handle_retryable_response_stream_error(&mut retries, 3, false, true, true),
        StreamErrorStep::AttemptFallback
    ));
    assert_eq!(retries, 3);
}
