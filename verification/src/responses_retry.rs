//! Retry and transport fallback decisions for Responses requests.
//!
//! The waiting, the notifications and the transport switch are performed by the
//! caller; this module decides what happens next from the retry counter and
//! what the caller observed.
use vstd::arithmetic::power2::{lemma2_to64, pow2};
use vstd::bits::lemma_u64_shl_is_mul;
use vstd::prelude::*;
use vstd::string::StringExecFns;

use crate::decimal::{decimal, u64_to_decimal};

verus! {

/// Seconds a model-capacity retry waits before its first attempt.
pub const SERVER_OVERLOADED_INITIAL_RETRY_DELAY_SECS: u64 = 1;

/// Upper bound, in seconds, of a model-capacity retry delay.
pub const SERVER_OVERLOADED_MAX_RETRY_DELAY_SECS: u64 = 256;

/// The power of two that scales the capacity retry delay of attempt `retry_count`.
pub open spec fn server_overloaded_exponent(retry_count: nat) -> nat {
    if retry_count == 0 {
        0
    } else if retry_count - 1 < 8 {
        (retry_count - 1) as nat
    } else {
        8
    }
}

/// Seconds to wait before capacity retry attempt `retry_count`: one second,
/// doubled for each earlier attempt, never more than 256 seconds.
pub open spec fn server_overloaded_delay_secs(retry_count: nat) -> nat {
    let delay = SERVER_OVERLOADED_INITIAL_RETRY_DELAY_SECS * pow2(server_overloaded_exponent(retry_count));
    if delay < SERVER_OVERLOADED_MAX_RETRY_DELAY_SECS {
        delay as nat
    } else {
        SERVER_OVERLOADED_MAX_RETRY_DELAY_SECS as nat
    }
}

/// The delay, in whole seconds, before capacity retry attempt `retry_count`.
pub fn server_overloaded_retry_delay(retry_count: u64) -> (delay_secs: u64)
    ensures
        delay_secs == server_overloaded_delay_secs(retry_count as nat),
{
    let exponent = retry_count.saturating_sub(1).min(8) as u32;
    proof {
        lemma2_to64();
        let e: u64 = exponent as u64;
        assert((1u64 << exponent) == (1u64 << e)) by (bit_vector)
            requires
                e == exponent,
        ;
        assert(1 * pow2(e as nat) <= u64::MAX);
        lemma_u64_shl_is_mul(1, e);
    }
    let delay_secs = SERVER_OVERLOADED_INITIAL_RETRY_DELAY_SECS << exponent;
    delay_secs.min(SERVER_OVERLOADED_MAX_RETRY_DELAY_SECS)
}


/// The delay doubles with each attempt up to the ninth and stays at 256 seconds after it;
/// attempt zero waits as long as the first attempt.
pub proof fn lemma_server_overloaded_delay_doubles_then_caps(retry_count: nat)
    ensures
        server_overloaded_delay_secs(0) == 1,
        server_overloaded_delay_secs(1) == 1,
        1 <= retry_count < 9 ==> server_overloaded_delay_secs(retry_count + 1) == 2
            * server_overloaded_delay_secs(retry_count),
        retry_count >= 9 ==> server_overloaded_delay_secs(retry_count) == 256,
        1 <= server_overloaded_delay_secs(retry_count) <= 256,
        retry_count <= 9 ==> server_overloaded_delay_secs(retry_count) < 256 || retry_count == 9,
{
    lemma2_to64();
    let e = server_overloaded_exponent(retry_count);
    assert(e <= 8);
    if retry_count >= 1 && retry_count < 9 {
        assert(server_overloaded_exponent(retry_count + 1) == e + 1);
    }
}

/// The notice shown while waiting for model capacity: the wait in seconds and the attempt number.
pub open spec fn capacity_retry_message(delay_secs: nat, attempt: nat) -> Seq<char> {
    "Model at capacity. Retrying in "@ + decimal(delay_secs) + "s (attempt "@ + decimal(attempt)
        + ")."@
}

/// Why a retry wait ended without a retry.
#[derive(Debug, Clone, Copy, PartialEq, Eq)]
pub enum RetryInterruption {
    /// The turn was cancelled.
    TurnAborted,
}

/// What the caller does about a model-capacity error.
#[derive(Debug)]
pub enum ServerOverloadedRetry {
    /// The turn was already cancelled: return [`RetryInterruption::TurnAborted`].
    Aborted,
    /// Notify the user with `message`, then wait `delay_secs` seconds unless cancelled.
    Wait { retry_count: u64, delay_secs: u64, message: String },
}

/// Decides the reaction to a model-capacity error. `cancelled` is whether the turn's
/// cancellation token had fired when the error arrived. Unless it had, the retry counter
/// goes up by one (saturating) and the delay and notice of that attempt are returned.
pub fn plan_server_overloaded_retry(retries: &mut u64, cancelled: bool) -> (step: ServerOverloadedRetry)
    ensures
        cancelled ==> step is Aborted && *final(retries) == *old(retries),
        !cancelled ==> {
            &&& *final(retries) == (if *old(retries) == u64::MAX {
                u64::MAX as int
            } else {
                *old(retries) + 1
            })
            &&& step matches ServerOverloadedRetry::Wait { retry_count, delay_secs, message } && {
                &&& retry_count == *final(retries)
                &&& delay_secs == server_overloaded_delay_secs(retry_count as nat)
                &&& message@ == capacity_retry_message(delay_secs as nat, retry_count as nat)
            }
        },
{
    if cancelled {
        return ServerOverloadedRetry::Aborted;
    }
    *retries = retries.saturating_add(1);
    let retry_count = *retries;
    let delay_secs = server_overloaded_retry_delay(retry_count);
    proof {
        reveal_strlit("Model at capacity. Retrying in ");
        reveal_strlit("s (attempt ");
        reveal_strlit(").");
    }
    let mut message = String::from_str("Model at capacity. Retrying in ");
    let delay_text = u64_to_decimal(delay_secs);
    message.append(delay_text.as_str());
    message.append("s (attempt ");
    let count_text = u64_to_decimal(retry_count);
    message.append(count_text.as_str());
    message.append(").");
    ServerOverloadedRetry::Wait { retry_count, delay_secs, message }
}

/// How a capacity retry wait ended.
#[derive(Debug, Clone, Copy, PartialEq, Eq)]
pub enum WaitOutcome {
    /// The cancellation token fired (it wins when both are ready).
    Cancelled,
    /// The delay elapsed.
    Elapsed,
}

/// The result of a capacity retry wait: retry after the delay, abort on cancellation.
pub fn finish_server_overloaded_wait(outcome: WaitOutcome) -> (res: Result<(), RetryInterruption>)
    ensures
        res is Ok <==> outcome == WaitOutcome::Elapsed,
        res is Err ==> res == Err::<(), RetryInterruption>(RetryInterruption::TurnAborted),
{
    match outcome {
        WaitOutcome::Cancelled => Err(RetryInterruption::TurnAborted),
        WaitOutcome::Elapsed => Ok(()),
    }
}

/// Where the wait before a stream retry comes from.
#[derive(Debug, Clone, Copy, PartialEq, Eq)]
pub enum RetryDelay {
    /// The delay that the server asked for with the error.
    Requested,
    /// The exponential backoff for this retry attempt.
    Backoff { retry_count: u64 },
}

/// The notice shown while reconnecting: `Reconnecting... {retry}/{max}`.
pub open spec fn reconnect_message(retry_count: nat, max_retries: nat) -> Seq<char> {
    "Reconnecting... "@ + decimal(retry_count) + "/"@ + decimal(max_retries)
}

/// The warning sent when the client falls back from WebSockets to HTTPS.
pub open spec fn fallback_warning(error_text: Seq<char>) -> Seq<char> {
    "Falling back from WebSockets to HTTPS transport. "@ + error_text
}

/// The retry counter after a retryable stream error, before any fallback attempt: one more
/// while retries remain, unchanged once they are used up.
pub open spec fn stream_retry_count_after(retries: nat, max_retries: nat) -> nat {
    if retries < max_retries {
        retries + 1
    } else {
        retries
    }
}

/// The retry counter after `errors` consecutive retryable stream errors without a fallback.
pub open spec fn stream_retry_count_after_errors(retries: nat, max_retries: nat, errors: nat) -> nat
    decreases errors,
{
    if errors == 0 {
        retries
    } else {
        stream_retry_count_after(
            stream_retry_count_after_errors(retries, max_retries, (errors - 1) as nat),
            max_retries,
        )
    }
}

/// Starting within the limit, consecutive stream errors count up one by one until the
/// limit and never beyond it: a request is retried at most `max_retries` times before
/// the fallback transport is tried.
pub proof fn lemma_stream_retries_capped(retries: nat, max_retries: nat, errors: nat)
    requires
        retries <= max_retries,
    ensures
        stream_retry_count_after_errors(retries, max_retries, errors) == (if retries + errors
            < max_retries {
            retries + errors
        } else {
            max_retries
        }),
    decreases errors,
{
    if errors > 0 {
        lemma_stream_retries_capped(retries, max_retries, (errors - 1) as nat);
    }
}

/// Only the first retry can go unreported, and only in a release build over WebSockets:
/// every later retry is reported, and so is every retry in a debug build or over HTTPS.
pub proof fn lemma_only_first_retry_may_be_quiet(retry_count: nat, debug_build: bool, websocket_enabled: bool)
    ensures
        retry_count >= 2 ==> reports_stream_retry(retry_count, debug_build, websocket_enabled),
        debug_build ==> reports_stream_retry(retry_count, debug_build, websocket_enabled),
        !websocket_enabled ==> reports_stream_retry(retry_count, debug_build, websocket_enabled),
        retry_count <= 1 && !debug_build && websocket_enabled ==> !reports_stream_retry(
            retry_count,
            debug_build,
            websocket_enabled,
        ),
{
}

/// What the caller does about a retryable stream error.
#[derive(Debug)]
pub enum StreamErrorStep {
    /// Retries are used up: ask the client to switch to its fallback transport and hand
    /// the answer to [`after_fallback_attempt`].
    AttemptFallback,
    /// Retry: show `notice` if there is one, wait as `delay` says, then rerun the request.
    Retry { retry_count: u64, delay: RetryDelay, notice: Option<String> },
}

/// Whether a stream retry is shown to the user: every retry after the first, and the first
/// too in debug builds or when the Responses WebSocket transport is off.
pub open spec fn reports_stream_retry(retry_count: nat, debug_build: bool, websocket_enabled: bool) -> bool {
    retry_count > 1 || debug_build || !websocket_enabled
}

/// Decides the reaction to a retryable stream error. While `*retries < max_retries` the
/// counter goes up by one and the request is retried; otherwise the fallback transport
/// is tried first. `has_requested_delay` is whether the error carries a server-requested
/// delay; `debug_build` and `websocket_enabled` decide whether the first retry is shown.
pub fn handle_retryable_response_stream_error(
    retries: &mut u64,
    max_retries: u64,
    has_requested_delay: bool,
    debug_build: bool,
    websocket_enabled: bool,
) -> (step: StreamErrorStep)
    ensures
        *final(retries) == stream_retry_count_after(*old(retries) as nat, max_retries as nat),
        *old(retries) >= max_retries ==> step is AttemptFallback && *final(retries) == *old(retries),
        *old(retries) < max_retries ==> {
            &&& *final(retries) == *old(retries) + 1
            &&& step matches StreamErrorStep::Retry { retry_count, delay, notice } && {
                &&& retry_count == *final(retries)
                &&& delay == (if has_requested_delay {
                    RetryDelay::Requested
                } else {
                    RetryDelay::Backoff { retry_count }
                })
                &&& notice is Some <==> reports_stream_retry(retry_count as nat, debug_build, websocket_enabled)
                &&& notice is Some <==> (retry_count >= 2 || debug_build || !websocket_enabled)
                &&& notice matches Some(text) ==> text@ == reconnect_message(retry_count as nat, max_retries as nat)
            }
        },
{
    if *retries >= max_retries {
        return StreamErrorStep::AttemptFallback;
    }
    *retries = *retries + 1;
    let retry_count = *retries;
    let delay = if has_requested_delay {
        RetryDelay::Requested
    } else {
        RetryDelay::Backoff { retry_count }
    };
    let report_error = retry_count > 1 || debug_build || !websocket_enabled;
    let notice = if report_error {
        proof {
            reveal_strlit("Reconnecting... ");
            reveal_strlit("/");
        }
        let mut text = String::from_str("Reconnecting... ");
        let count_text = u64_to_decimal(retry_count);
        text.append(count_text.as_str());
        text.append("/");
        let max_text = u64_to_decimal(max_retries);
        text.append(max_text.as_str());
        Some(text)
    } else {
        None
    };
    StreamErrorStep::Retry { retry_count, delay, notice }
}

/// What follows an attempt to switch to the fallback transport.
#[derive(Debug)]
pub enum FallbackOutcome {
    /// The client switched: send `warning`, the counter restarts at zero, retry the request.
    SwitchedTransport { warning: String },
    /// No fallback was available: the stream error is returned to the caller.
    GiveUp,
}

/// Settles a stream error whose retries were used up, given whether the client switched
/// to its fallback transport. `error_text` is the error's alternate `Display` form.
pub fn after_fallback_attempt(retries: &mut u64, switched: bool, error_text: &str) -> (outcome: FallbackOutcome)
    ensures
        switched ==> *final(retries) == 0 && (outcome matches FallbackOutcome::SwitchedTransport { warning }
            && warning@ == fallback_warning(error_text@)),
        !switched ==> *final(retries) == *old(retries) && outcome is GiveUp,
{
    if switched {
        proof { reveal_strlit("Falling back from WebSockets to HTTPS transport. "); }
        let mut warning = String::from_str("Falling back from WebSockets to HTTPS transport. ");
        warning.append(error_text);
        *retries = 0;
        FallbackOutcome::SwitchedTransport { warning }
    } else {
        FallbackOutcome::GiveUp
    }
}

} // verus!
