//! Batching of exec completion wakeups and the telemetry they report.
//!
//! The session collects the metrics it records; the caller hands them to the
//! telemetry exporter. Scheduling a wakeup batch only decides whether a batch
//! timer has to be started; the caller starts it.
use vstd::prelude::*;

verus! {

/// Seconds during which exec completion wakeups are gathered into one batch.
pub const EXEC_WAKEUP_BATCH_WINDOW_SECS: u64 = 5;

/// The kind of a telemetry metric.
#[derive(Debug, Clone, Copy, PartialEq, Eq)]
pub enum MetricKind {
    /// A counter, incremented by the value.
    Counter,
    /// A histogram sample.
    Histogram,
}

/// One telemetry metric to export.
#[derive(Debug, Clone)]
pub struct TelemetryMetric {
    pub kind: MetricKind,
    pub name: &'static str,
    pub value: i64,
    pub tags: Vec<(&'static str, &'static str)>,
}

/// A [`TelemetryMetric`] with its strings taken by their characters.
pub struct MetricView {
    pub kind: MetricKind,
    pub name: Seq<char>,
    pub value: int,
    pub tags: Seq<(Seq<char>, Seq<char>)>,
}

impl View for TelemetryMetric {
    type V = MetricView;

    open spec fn view(&self) -> MetricView {
        MetricView {
            kind: self.kind,
            name: self.name@,
            value: self.value as int,
            tags: self.tags@.map_values(|t: (&'static str, &'static str)| (t.0@, t.1@)),
        }
    }
}

/// The value reported for a wakeup delivery delay of `millis` milliseconds: the delay
/// itself, or `i64::MAX` when it does not fit.
pub open spec fn delivery_delay_value(millis: nat) -> int {
    if millis <= i64::MAX {
        millis as int
    } else {
        i64::MAX as int
    }
}

/// The metric that counts one exec wakeup event in `state`.
pub open spec fn wakeup_event_metric(state: Seq<char>) -> MetricView {
    MetricView {
        kind: MetricKind::Counter,
        name: "codex.exec_wakeup"@,
        value: 1,
        tags: seq![("state"@, state)],
    }
}

/// A wakeup event is counted once, under the exec wakeup counter, tagged with exactly the
/// state it was recorded in: events in different states are told apart.
pub proof fn lemma_wakeup_event_tagged_with_its_state(state: Seq<char>, other: Seq<char>)
    ensures
        wakeup_event_metric(state).kind == MetricKind::Counter,
        wakeup_event_metric(state).name == "codex.exec_wakeup"@,
        wakeup_event_metric(state).value == 1,
        wakeup_event_metric(state).tags.len() == 1,
        wakeup_event_metric(state).tags[0].0 == "state"@,
        wakeup_event_metric(state).tags[0].1 == state,
        state != other ==> wakeup_event_metric(state) != wakeup_event_metric(other),
{
    if state != other {
        assert(wakeup_event_metric(state).tags[0].1 != wakeup_event_metric(other).tags[0].1);
    }
}

/// The metric that samples one wakeup delivery delay of `millis` milliseconds.
pub open spec fn delivery_delay_metric(millis: nat) -> MetricView {
    MetricView {
        kind: MetricKind::Histogram,
        name: "codex.exec_wakeup.delivery_delay_ms"@,
        value: delivery_delay_value(millis),
        tags: Seq::empty(),
    }
}

/// The exec wakeup state of a session.
pub struct Session {
    exec_wakeup_timer_running: bool,
    metrics: Vec<TelemetryMetric>,
}

impl Session {
    /// The metrics recorded and not yet exported, oldest first.
    pub closed spec fn recorded_metrics(&self) -> Seq<MetricView> {
        self.metrics@.map_values(|m: TelemetryMetric| m@)
    }

    /// Whether a wakeup batch timer is running.
    pub closed spec fn timer_running(&self) -> bool {
        self.exec_wakeup_timer_running
    }

    /// A session with no batch timer running and no recorded metrics.
    pub fn new() -> (session: Self)
        ensures
            !session.timer_running(),
            session.recorded_metrics() == Seq::<MetricView>::empty(),
    {
        let session = Session { exec_wakeup_timer_running: false, metrics: Vec::new() };
        assert(session.recorded_metrics() =~= Seq::<MetricView>::empty());
        session
    }

    /// Counts one exec wakeup event in `state`.
    pub fn record_exec_wakeup_event(&mut self, state: &'static str)
        ensures
            final(self).recorded_metrics() == old(self).recorded_metrics().push(
                wakeup_event_metric(state@),
            ),
            final(self).recorded_metrics().len() == old(self).recorded_metrics().len() + 1,
            final(self).recorded_metrics().last().kind == MetricKind::Counter,
            final(self).recorded_metrics().last().value == 1,
            final(self).recorded_metrics().last().tags.len() == 1,
            final(self).recorded_metrics().last().tags[0].1 == state@,
            final(self).timer_running() == old(self).timer_running(),
    {
        let mut tags = Vec::new();
        tags.push(("state", state));
        let metric = TelemetryMetric { kind: MetricKind::Counter, name: "codex.exec_wakeup", value: 1, tags };
        let ghost before = self.metrics@;
        self.metrics.push(metric);
        proof {
            assert(metric@.tags =~= seq![("state"@, state@)]);
            assert(self.metrics@ == before.push(metric));
            assert(self.recorded_metrics() =~= old(self).recorded_metrics().push(metric@));
        }
    }

    /// Samples the delay, in milliseconds, with which an exec wakeup was delivered.
    pub fn record_exec_wakeup_delivery_delay(&mut self, delay_millis: u128)
        ensures
            final(self).recorded_metrics() == old(self).recorded_metrics().push(
                delivery_delay_metric(delay_millis as nat),
            ),
            final(self).timer_running() == old(self).timer_running(),
    {
        let value: i64 = if delay_millis <= 9_223_372_036_854_775_807u128 {
            delay_millis as i64
        } else {
            i64::MAX
        };
        let metric = TelemetryMetric {
            kind: MetricKind::Histogram,
            name: "codex.exec_wakeup.delivery_delay_ms",
            value,
            tags: Vec::new(),
        };
        let ghost before = self.metrics@;
        self.metrics.push(metric);
        proof {
            assert(metric@.tags =~= Seq::<(Seq<char>, Seq<char>)>::empty());
            assert(self.metrics@ == before.push(metric));
            assert(self.recorded_metrics() =~= old(self).recorded_metrics().push(metric@));
        }
    }

    /// Starts a wakeup batch unless one is already gathering; returns whether the caller
    /// has to start the batch timer.
    pub fn schedule_exec_wakeup(&mut self) -> (start_timer: bool)
        ensures
            start_timer == !old(self).timer_running(),
            final(self).timer_running(),
            final(self).recorded_metrics() == old(self).recorded_metrics(),
    {
        let was_running = self.exec_wakeup_timer_running;
        self.exec_wakeup_timer_running = true;
        !was_running
    }

    /// The batch timer fired and the batch was handed over: the next wakeup starts a new batch.
    pub fn end_exec_wakeup_batch(&mut self)
        ensures
            !final(self).timer_running(),
            final(self).recorded_metrics() == old(self).recorded_metrics(),
    {
        self.exec_wakeup_timer_running = false;
    }

    /// Hands over the recorded metrics, oldest first, for export.
    pub fn take_recorded_metrics(&mut self) -> (metrics: Vec<TelemetryMetric>)
        ensures
            metrics@.map_values(|m: TelemetryMetric| m@) == old(self).recorded_metrics(),
            final(self).recorded_metrics() == Seq::<MetricView>::empty(),
            final(self).timer_running() == old(self).timer_running(),
    {
        let mut metrics = Vec::new();
        std::mem::swap(&mut metrics, &mut self.metrics);
        proof {
            assert(self.recorded_metrics() =~= Seq::<MetricView>::empty());
        }
        metrics
    }
}

} // verus!
