//! Counters describing the health of the telemetry queue.
use vstd::prelude::*;

verus! {

/// Telemetry metrics tracking queue health and event flow.
#[derive(Clone, Copy, Debug, Default, PartialEq, Eq, Structural)]
pub struct TelemetryMetrics {
    dropped_events: u64,
    queue_pressure: u64,
    subscriber_lag: u64,
    events_published: u64,
}

/// A point-in-time copy of the metrics.
#[derive(Clone, Copy, Debug, Default, PartialEq, Eq, Structural)]
pub struct TelemetryMetricsSnapshot {
    pub dropped_events: u64,
    pub queue_pressure: u64,
    pub subscriber_lag: u64,
    pub events_published: u64,
}

/// `a + 1` on a 64-bit counter that wraps around, as an atomic `fetch_add` does.
pub open spec fn wrapping_inc(a: u64) -> u64 {
    if a == u64::MAX { 0 } else { (a + 1) as u64 }
}

/// One update of the metrics, as the methods below make it.
#[derive(Clone, Copy, Debug, PartialEq, Eq, Structural)]
pub enum MetricsUpdate {
    Drop,
    Publish,
    Pressure(u64),
    Lag(u64),
}

/// The counters after one update.
pub open spec fn apply_update(s: TelemetryMetricsSnapshot, u: MetricsUpdate) -> TelemetryMetricsSnapshot {
    match u {
        MetricsUpdate::Drop => TelemetryMetricsSnapshot { dropped_events: wrapping_inc(s.dropped_events), ..s },
        MetricsUpdate::Publish => TelemetryMetricsSnapshot { events_published: wrapping_inc(s.events_published), ..s },
        MetricsUpdate::Pressure(r) => TelemetryMetricsSnapshot { queue_pressure: if r < 100 { r } else { 100 }, ..s },
        MetricsUpdate::Lag(l) => TelemetryMetricsSnapshot { subscriber_lag: l, ..s },
    }
}

/// The counters after a series of updates, in order.
pub open spec fn apply_updates(s: TelemetryMetricsSnapshot, us: Seq<MetricsUpdate>) -> TelemetryMetricsSnapshot
    decreases us.len(),
{
    if us.len() == 0 {
        s
    } else {
        apply_update(apply_updates(s, us.drop_last()), us.last())
    }
}

/// How many of the updates are `u`.
pub open spec fn count_of(us: Seq<MetricsUpdate>, u: MetricsUpdate) -> nat
    decreases us.len(),
{
    if us.len() == 0 {
        0
    } else {
        count_of(us.drop_last(), u) + if us.last() == u { 1nat } else { 0nat }
    }
}

/// The value of the last lag update, 0 when there was none.
pub open spec fn last_lag(us: Seq<MetricsUpdate>) -> u64
    decreases us.len(),
{
    if us.len() == 0 {
        0
    } else {
        match us.last() {
            MetricsUpdate::Lag(l) => l,
            _ => last_lag(us.drop_last()),
        }
    }
}

/// The value of the last pressure update, capped at 100; 0 when there was none.
pub open spec fn last_pressure(us: Seq<MetricsUpdate>) -> u64
    decreases us.len(),
{
    if us.len() == 0 {
        0
    } else {
        match us.last() {
            MetricsUpdate::Pressure(r) => if r < 100 { r } else { 100 },
            _ => last_pressure(us.drop_last()),
        }
    }
}

/// The counters start at zero.
pub open spec fn zero_metrics() -> TelemetryMetricsSnapshot {
    TelemetryMetricsSnapshot { dropped_events: 0, queue_pressure: 0, subscriber_lag: 0, events_published: 0 }
}

/// Counting law: from new metrics, any series of updates leaves the number of
/// drops and of publishes (modulo 2^64, as the counters wrap), the last lag
/// stored and the last pressure stored (0 for none).
pub proof fn lemma_updates_tally(us: Seq<MetricsUpdate>)
    ensures
        apply_updates(zero_metrics(), us) == (TelemetryMetricsSnapshot {
            dropped_events: (count_of(us, MetricsUpdate::Drop) % 0x1_0000_0000_0000_0000) as u64,
            queue_pressure: last_pressure(us),
            subscriber_lag: last_lag(us),
            events_published: (count_of(us, MetricsUpdate::Publish) % 0x1_0000_0000_0000_0000) as u64,
        }),
    decreases us.len(),
{
    if us.len() > 0 {
        lemma_updates_tally(us.drop_last());
        lemma_wrapping_count(count_of(us.drop_last(), MetricsUpdate::Drop));
        lemma_wrapping_count(count_of(us.drop_last(), MetricsUpdate::Publish));
    }
}

proof fn lemma_wrapping_count(c: nat)
    ensures
        wrapping_inc((c % 0x1_0000_0000_0000_0000) as u64) == ((c + 1) % 0x1_0000_0000_0000_0000) as u64,
{
    let m: int = 0x1_0000_0000_0000_0000;
    let ci: int = c as int;
    let q: int = ci / m;
    let r: int = ci % m;
    vstd::arithmetic::div_mod::lemma_fundamental_div_mod(ci, m);
    if r == m - 1 {
        vstd::arithmetic::div_mod::lemma_fundamental_div_mod_converse(ci + 1, m, q + 1, 0);
    } else {
        vstd::arithmetic::div_mod::lemma_fundamental_div_mod_converse(ci + 1, m, q, r + 1);
    }
}

impl TelemetryMetrics {
    /// All counters start at zero.
    pub fn new() -> (m: Self)
        ensures
            m.view() == (TelemetryMetricsSnapshot {
                dropped_events: 0,
                queue_pressure: 0,
                subscriber_lag: 0,
                events_published: 0,
            }),
            m.view() == zero_metrics(),
    {
        TelemetryMetrics { dropped_events: 0, queue_pressure: 0, subscriber_lag: 0, events_published: 0 }
    }

    /// The current counter values.
    pub closed spec fn view(&self) -> TelemetryMetricsSnapshot {
        TelemetryMetricsSnapshot {
            dropped_events: self.dropped_events,
            queue_pressure: self.queue_pressure,
            subscriber_lag: self.subscriber_lag,
            events_published: self.events_published,
        }
    }

    /// Counts one dropped event.
    pub fn record_drop(&mut self)
        ensures
            final(self).view() == (TelemetryMetricsSnapshot {
                dropped_events: wrapping_inc(old(self).view().dropped_events),
                ..old(self).view()
            }),
            final(self).view() == apply_update(old(self).view(), MetricsUpdate::Drop),
    {
        self.dropped_events = self.dropped_events.wrapping_add(1);
    }

    /// Counts one published event.
    pub fn record_publish(&mut self)
        ensures
            final(self).view() == (TelemetryMetricsSnapshot {
                events_published: wrapping_inc(old(self).view().events_published),
                ..old(self).view()
            }),
            final(self).view() == apply_update(old(self).view(), MetricsUpdate::Publish),
    {
        self.events_published = self.events_published.wrapping_add(1);
    }

    /// Stores a queue pressure percentage, capped at 100.
    pub fn store_pressure(&mut self, ratio_percent: u64)
        ensures
            final(self).view() == (TelemetryMetricsSnapshot {
                queue_pressure: if ratio_percent < 100 { ratio_percent } else { 100 },
                ..old(self).view()
            }),
            final(self).view() == apply_update(old(self).view(), MetricsUpdate::Pressure(ratio_percent)),
    {
        self.queue_pressure = if ratio_percent < 100 { ratio_percent } else { 100 };
    }

    /// Stores the latest subscriber lag.
    pub fn update_lag(&mut self, lag: u64)
        ensures
            final(self).view() == (TelemetryMetricsSnapshot { subscriber_lag: lag, ..old(self).view() }),
            final(self).view() == apply_update(old(self).view(), MetricsUpdate::Lag(lag)),
    {
        self.subscriber_lag = lag;
    }

    /// A copy of the current counters.
    pub fn snapshot(&self) -> (s: TelemetryMetricsSnapshot)
        ensures
            s == self.view(),
    {
        TelemetryMetricsSnapshot {
            dropped_events: self.dropped_events,
            queue_pressure: self.queue_pressure,
            subscriber_lag: self.subscriber_lag,
            events_published: self.events_published,
        }
    }
}

} // verus!
