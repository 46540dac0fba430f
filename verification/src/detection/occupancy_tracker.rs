//! Occupancy counting per frequency over a rolling window of one-second
//! buckets: how many samples were seen and how many were above threshold.
//!
//! The counts are kept here; a caller that also sums the samples' power keeps
//! its sums bucket for bucket alongside, following the merge and trim reports
//! that each operation returns.
use vstd::prelude::*;
use std::collections::VecDeque;

verus! {

/// Samples seen in one second at one frequency.
#[derive(Clone, Copy, Debug, PartialEq, Eq, Structural)]
pub struct OccupancyBucket {
    pub second: u64,
    pub samples: u64,
    pub active_samples: u64,
}

/// The buckets of one frequency, oldest first.
pub struct FrequencyHistory {
    pub frequency_hz: u64,
    pub buckets: VecDeque<OccupancyBucket>,
}

pub struct HistoryModel {
    pub frequency_hz: u64,
    pub buckets: Seq<OccupancyBucket>,
}

impl FrequencyHistory {
    pub open spec fn model(&self) -> HistoryModel {
        HistoryModel { frequency_hz: self.frequency_hz, buckets: self.buckets@ }
    }
}

pub open spec fn history_models(v: Seq<FrequencyHistory>) -> Seq<HistoryModel> {
    v.map_values(|h: FrequencyHistory| h.model())
}

pub open spec fn sat_sub(a: u64, b: u64) -> u64 {
    if a >= b { (a - b) as u64 } else { 0 }
}

pub open spec fn sat_inc(a: u64, by: u64) -> u64 {
    if a + by > u64::MAX { u64::MAX } else { (a + by) as u64 }
}

/// The oldest second a window of `window_seconds` ending at `current` keeps.
pub open spec fn earliest_second(current: u64, window_seconds: u64) -> u64 {
    sat_sub(current, sat_sub(window_seconds, 1))
}

/// Drops the buckets older than `earliest`, oldest first.
pub open spec fn trim_spec(b: Seq<OccupancyBucket>, earliest: u64) -> Seq<OccupancyBucket>
    decreases b.len(),
{
    if b.len() > 0 && b[0].second < earliest {
        trim_spec(b.drop_first(), earliest)
    } else {
        b
    }
}

fn trim_buckets(q: &mut VecDeque<OccupancyBucket>, earliest: u64) -> (trimmed: usize)
    ensures
        final(q)@ == trim_spec(old(q)@, earliest),
        trimmed == old(q)@.len() - final(q)@.len(),
{
    let mut trimmed: usize = 0;
    let total = q.len();
    while q.len() > 0 && q[0].second < earliest
        invariant
            total == old(q)@.len(),
            trim_spec(q@, earliest) == trim_spec(old(q)@, earliest),
            trimmed + q@.len() == old(q)@.len(),
        decreases q@.len(),
    {
        let ghost before = q@;
        let _ = q.pop_front();
        assert(q@ =~= before.drop_first());
        trimmed = trimmed + 1;
    }
    trimmed
}

proof fn lemma_trim_shrinks(b: Seq<OccupancyBucket>, earliest: u64)
    ensures
        trim_spec(b, earliest).len() <= b.len(),
    decreases b.len(),
{
    if b.len() > 0 && b[0].second < earliest {
        lemma_trim_shrinks(b.drop_first(), earliest);
    }
}

/// The buckets after one sample in `second`: counted into the newest bucket
/// when it is for that second, into a new bucket otherwise; then the window
/// is trimmed.
pub open spec fn count_sample(b: Seq<OccupancyBucket>, second: u64, active: bool, window_seconds: u64) -> Seq<
    OccupancyBucket,
> {
    let a: u64 = if active { 1 } else { 0 };
    let counted = if b.len() > 0 && b.last().second == second {
        b.update(
            b.len() - 1,
            OccupancyBucket {
                samples: sat_inc(b.last().samples, 1),
                active_samples: sat_inc(b.last().active_samples, a),
                ..b.last()
            },
        )
    } else {
        b.push(OccupancyBucket { second, samples: 1, active_samples: a })
    };
    trim_spec(counted, earliest_second(second, window_seconds))
}

/// The sample was counted into an existing bucket (rather than a new one).
pub open spec fn merges(b: Seq<OccupancyBucket>, second: u64) -> bool {
    b.len() > 0 && b.last().second == second
}

pub open spec fn find_history(h: Seq<HistoryModel>, frequency_hz: u64) -> Option<int>
    decreases h.len(),
{
    if h.len() == 0 {
        None
    } else {
        match find_history(h.drop_last(), frequency_hz) {
            Some(i) => Some(i),
            None => if h.last().frequency_hz == frequency_hz {
                Some(h.len() - 1)
            } else {
                None
            },
        }
    }
}

proof fn lemma_find_history_facts(h: Seq<HistoryModel>, f: u64)
    ensures
        match find_history(h, f) {
            Some(i) => 0 <= i < h.len() && h[i].frequency_hz == f && forall|j: int|
                0 <= j < i ==> (#[trigger] h[j]).frequency_hz != f,
            None => forall|j: int| 0 <= j < h.len() ==> (#[trigger] h[j]).frequency_hz != f,
        },
    decreases h.len(),
{
    if h.len() > 0 {
        lemma_find_history_facts(h.drop_last(), f);
        assert forall|j: int| 0 <= j < h.len() - 1 implies h.drop_last()[j] == h[j] by {}
    }
}

proof fn lemma_find_history_first(h: Seq<HistoryModel>, f: u64, i: int)
    requires
        0 <= i < h.len(),
        h[i].frequency_hz == f,
        forall|j: int| 0 <= j < i ==> (#[trigger] h[j]).frequency_hz != f,
    ensures
        find_history(h, f) == Some(i),
{
    lemma_find_history_facts(h, f);
    match find_history(h, f) {
        Some(j) => {
            if j < i {
                assert(h[j].frequency_hz != f);
            }
            if j > i {
                assert(h[i].frequency_hz != f);
            }
        },
        None => {
            assert(h[i].frequency_hz != f);
        },
    }
}

/// The histories after one sample at `frequency_hz` in `second`.
pub open spec fn record_spec(
    h: Seq<HistoryModel>,
    frequency_hz: u64,
    second: u64,
    active: bool,
    window_seconds: u64,
) -> Seq<HistoryModel> {
    match find_history(h, frequency_hz) {
        Some(i) => h.update(
            i,
            HistoryModel { buckets: count_sample(h[i].buckets, second, active, window_seconds), ..h[i] },
        ),
        None => h.push(
            HistoryModel {
                frequency_hz,
                buckets: count_sample(Seq::empty(), second, active, window_seconds),
            },
        ),
    }
}

/// The buckets of the history the sample goes to, before it is counted.
pub open spec fn target_buckets(h: Seq<HistoryModel>, frequency_hz: u64) -> Seq<OccupancyBucket> {
    match find_history(h, frequency_hz) {
        Some(i) => h[i].buckets,
        None => Seq::empty(),
    }
}

/// How one sample changed its frequency's buckets: counted into the newest
/// bucket or into a new one, then `trimmed` of the oldest dropped.
#[derive(Clone, Copy, Debug, PartialEq, Eq, Structural)]
pub struct RecordOutcome {
    pub merged: bool,
    pub trimmed: usize,
}

/// What pruning did to one history (in history order): how many buckets it
/// dropped and whether the history, left empty, was removed.
#[derive(Clone, Copy, Debug, PartialEq, Eq, Structural)]
pub struct PruneReport {
    pub frequency_hz: u64,
    pub trimmed: usize,
    pub removed: bool,
}

/// Histories trimmed to the window, empty ones removed, order kept.
pub open spec fn prune_spec(h: Seq<HistoryModel>, earliest: u64) -> Seq<HistoryModel>
    decreases h.len(),
{
    if h.len() == 0 {
        h
    } else {
        let rest = prune_spec(h.drop_last(), earliest);
        let t = trim_spec(h.last().buckets, earliest);
        if t.len() > 0 {
            rest.push(HistoryModel { buckets: t, ..h.last() })
        } else {
            rest
        }
    }
}

pub open spec fn prune_report(m: HistoryModel, earliest: u64) -> PruneReport {
    let t = trim_spec(m.buckets, earliest);
    PruneReport { frequency_hz: m.frequency_hz, trimmed: (m.buckets.len() - t.len()) as usize, removed: t.len() == 0 }
}

/// Counts of one frequency over the window and over its recent part.
#[derive(Clone, Copy, Debug, PartialEq, Eq, Structural)]
pub struct CountStats {
    pub frequency_hz: u64,
    pub total_samples: u64,
    pub total_active_samples: u64,
    /// Seconds with at least one active sample.
    pub active_duration_seconds: u64,
    pub recent_samples: u64,
    pub recent_active_samples: u64,
}

pub open spec fn cap(n: nat) -> u64 {
    if n > u64::MAX { u64::MAX } else { n as u64 }
}

pub open spec fn sum_samples(b: Seq<OccupancyBucket>, from_second: u64) -> nat
    decreases b.len(),
{
    if b.len() == 0 {
        0
    } else {
        sum_samples(b.drop_last(), from_second) + if b.last().second >= from_second {
            b.last().samples as nat
        } else {
            0nat
        }
    }
}

pub open spec fn sum_active(b: Seq<OccupancyBucket>, from_second: u64) -> nat
    decreases b.len(),
{
    if b.len() == 0 {
        0
    } else {
        sum_active(b.drop_last(), from_second) + if b.last().second >= from_second {
            b.last().active_samples as nat
        } else {
            0nat
        }
    }
}

pub open spec fn active_seconds(b: Seq<OccupancyBucket>) -> nat
    decreases b.len(),
{
    if b.len() == 0 {
        0
    } else {
        active_seconds(b.drop_last()) + if b.last().active_samples > 0 { 1nat } else { 0nat }
    }
}

/// The counts of a history (all its buckets, and those since the start of
/// the recent window), capped at the largest `u64`.
pub open spec fn stats_spec(m: HistoryModel, current_second: u64, recent_window_seconds: u64) -> CountStats {
    let cutoff = earliest_second(current_second, recent_window_seconds);
    CountStats {
        frequency_hz: m.frequency_hz,
        total_samples: cap(sum_samples(m.buckets, 0)),
        total_active_samples: cap(sum_active(m.buckets, 0)),
        active_duration_seconds: cap(active_seconds(m.buckets)),
        recent_samples: cap(sum_samples(m.buckets, cutoff)),
        recent_active_samples: cap(sum_active(m.buckets, cutoff)),
    }
}

proof fn lemma_cap_step(a: nat, x: nat)
    requires
        x <= u64::MAX,
    ensures
        cap(a + x) == (if cap(a) + x > u64::MAX { u64::MAX } else { (cap(a) + x) as u64 }),
{
}

fn history_stats(h: &FrequencyHistory, current_second: u64, recent_window_seconds: u64) -> (r: CountStats)
    ensures
        r == stats_spec(h.model(), current_second, recent_window_seconds),
{
    let cutoff = current_second.saturating_sub(recent_window_seconds.saturating_sub(1));
    let ghost b = h.buckets@;
    let mut total: u64 = 0;
    let mut active: u64 = 0;
    let mut seconds: u64 = 0;
    let mut recent: u64 = 0;
    let mut recent_active: u64 = 0;
    let mut i: usize = 0;
    while i < h.buckets.len()
        invariant
            0 <= i <= b.len(),
            b == h.buckets@,
            cutoff == earliest_second(current_second, recent_window_seconds),
            total == cap(sum_samples(b.take(i as int), 0)),
            active == cap(sum_active(b.take(i as int), 0)),
            seconds == cap(active_seconds(b.take(i as int))),
            recent == cap(sum_samples(b.take(i as int), cutoff)),
            recent_active == cap(sum_active(b.take(i as int), cutoff)),
        decreases b.len() - i,
    {
        let k = h.buckets[i];
        proof {
            let t = b.take(i + 1);
            assert(t.drop_last() =~= b.take(i as int));
            assert(t.last() == k);
            lemma_cap_step(sum_samples(b.take(i as int), 0), k.samples as nat);
            lemma_cap_step(sum_active(b.take(i as int), 0), k.active_samples as nat);
            lemma_cap_step(active_seconds(b.take(i as int)), if k.active_samples > 0 { 1nat } else { 0nat });
            lemma_cap_step(
                sum_samples(b.take(i as int), cutoff),
                if k.second >= cutoff { k.samples as nat } else { 0nat },
            );
            lemma_cap_step(
                sum_active(b.take(i as int), cutoff),
                if k.second >= cutoff { k.active_samples as nat } else { 0nat },
            );
        }
        total = total.saturating_add(k.samples);
        active = active.saturating_add(k.active_samples);
        if k.active_samples > 0 {
            seconds = seconds.saturating_add(1);
        }
        if k.second >= cutoff {
            recent = recent.saturating_add(k.samples);
            recent_active = recent_active.saturating_add(k.active_samples);
        }
        i = i + 1;
    }
    proof {
        assert(b.take(i as int) =~= b);
    }
    CountStats {
        frequency_hz: h.frequency_hz,
        total_samples: total,
        total_active_samples: active,
        active_duration_seconds: seconds,
        recent_samples: recent,
        recent_active_samples: recent_active,
    }
}

fn count_sample_exec(h: &mut FrequencyHistory, second: u64, active: bool, window_seconds: u64) -> (r: RecordOutcome)
    ensures
        final(h).frequency_hz == old(h).frequency_hz,
        final(h).buckets@ == count_sample(old(h).buckets@, second, active, window_seconds),
        r.merged == merges(old(h).buckets@, second),
        r.trimmed + final(h).buckets@.len() == (if r.merged {
            old(h).buckets@.len()
        } else {
            old(h).buckets@.len() + 1
        }),
{
    let a: u64 = if active { 1 } else { 0 };
    let n = h.buckets.len();
    let merged = n > 0 && h.buckets[n - 1].second == second;
    if merged {
        let last = h.buckets[n - 1];
        let updated = OccupancyBucket {
            samples: last.samples.saturating_add(1),
            active_samples: last.active_samples.saturating_add(a),
            ..last
        };
        let ghost before = h.buckets@;
        let _ = h.buckets.pop_back();
        h.buckets.push_back(updated);
        assert(h.buckets@ =~= before.update(n - 1, updated));
    } else {
        h.buckets.push_back(OccupancyBucket { second, samples: 1, active_samples: a });
    }
    let earliest = second.saturating_sub(window_seconds.saturating_sub(1));
    let trimmed = trim_buckets(&mut h.buckets, earliest);
    RecordOutcome { merged, trimmed }
}

proof fn lemma_history_models_replace(v: Seq<FrequencyHistory>, w: Seq<FrequencyHistory>, i: int, c: FrequencyHistory)
    requires
        0 <= i < v.len(),
        w == v.remove(i).insert(i, c),
    ensures
        history_models(w) == history_models(v).update(i, c.model()),
{
    assert(history_models(w) =~= history_models(v).update(i, c.model()));
}

/// How a sample changes its frequency's buckets (see `RecordOutcome`).
pub open spec fn record_outcome(h: Seq<HistoryModel>, frequency_hz: u64, second: u64, active: bool, window_seconds: u64) -> RecordOutcome {
    let b = target_buckets(h, frequency_hz);
    let merged = merges(b, second);
    RecordOutcome {
        merged,
        trimmed: (b.len() + (if merged { 0int } else { 1int }) - count_sample(b, second, active, window_seconds).len()) as usize,
    }
}

/// The histories and outcomes after the first `n` samples of one second.
pub open spec fn record_all(
    h: Seq<HistoryModel>,
    samples: Seq<(u64, bool)>,
    n: int,
    second: u64,
    window_seconds: u64,
) -> (Seq<HistoryModel>, Seq<RecordOutcome>)
    decreases n,
{
    if n <= 0 {
        (h, Seq::empty())
    } else {
        let (h1, r1) = record_all(h, samples, n - 1, second, window_seconds);
        let (f, a) = samples[n - 1];
        (record_spec(h1, f, second, a, window_seconds), r1.push(record_outcome(h1, f, second, a, window_seconds)))
    }
}

/// `output` lists `input` by ascending frequency, keeping the input order
/// among equal frequencies: `output[i]` is `input[p[i]]` for a permutation `p`.
pub open spec fn by_frequency_with(input: Seq<CountStats>, output: Seq<CountStats>, p: Seq<int>) -> bool {
    &&& p.len() == input.len()
    &&& output.len() == input.len()
    &&& forall|i: int| 0 <= i < p.len() ==> 0 <= #[trigger] p[i] < input.len() && output[i] == input[p[i]]
    &&& forall|i: int, j: int| 0 <= i < j < p.len() ==> #[trigger] p[i] != #[trigger] p[j]
    &&& forall|i: int, j: int|
        0 <= i < j < output.len() ==> (#[trigger] output[i]).frequency_hz <= (#[trigger] output[j]).frequency_hz
    &&& forall|i: int, j: int|
        0 <= i < j < output.len() && (#[trigger] output[i]).frequency_hz == (#[trigger] output[j]).frequency_hz
            ==> p[i] < p[j]
}

pub open spec fn by_frequency(input: Seq<CountStats>, output: Seq<CountStats>) -> bool {
    exists|p: Seq<int>| by_frequency_with(input, output, p)
}

/// Orders counts by ascending frequency (a stable sort).
pub fn sort_by_frequency(stats: Vec<CountStats>) -> (sorted: Vec<CountStats>)
    ensures
        by_frequency(stats@, sorted@),
{
    let ghost orig = stats@;
    let ghost n = orig.len();
    let total = stats.len();
    let mut out: Vec<CountStats> = Vec::new();
    let ghost mut p: Seq<int> = Seq::empty();
    let mut t: usize = 0;
    while t < total
        invariant
            n == orig.len(),
            total == n,
            orig == stats@,
            0 <= t <= total,
            by_frequency_with(orig.take(t as int), out@, p),
        decreases total - t,
    {
        let x = stats[t];
        let mut pos: usize = 0;
        while pos < out.len() && out[pos].frequency_hz <= x.frequency_hz
            invariant
                0 <= pos <= out.len(),
                forall|i: int| 0 <= i < pos ==> (#[trigger] out@[i]).frequency_hz <= x.frequency_hz,
            decreases out.len() - pos,
        {
            pos = pos + 1;
        }
        let ghost old_out = out@;
        let ghost old_p = p;
        let ghost prefix = orig.take(t as int);
        let ghost next = orig.take(t + 1);
        out.insert(pos, x);
        proof {
            p = old_p.insert(pos as int, t as int);
            assert(pos < old_out.len() ==> old_out[pos as int].frequency_hz > x.frequency_hz);
            assert forall|i: int| pos <= i < old_out.len() implies (#[trigger] old_out[i]).frequency_hz
                > x.frequency_hz by {
                if i > pos {
                    assert(old_out[pos as int].frequency_hz <= old_out[i].frequency_hz);
                }
            }
            assert forall|i: int| 0 <= i < p.len() implies 0 <= #[trigger] p[i] < next.len() && out@[i] == next[p[i]] by {
                if i < pos {
                    assert(p[i] == old_p[i]);
                    assert(out@[i] == old_out[i]);
                } else if i == pos {
                } else {
                    assert(p[i] == old_p[i - 1]);
                    assert(out@[i] == old_out[i - 1]);
                }
            }
            assert forall|i: int, j: int| 0 <= i < j < p.len() implies #[trigger] p[i] != #[trigger] p[j] by {
                if i < pos && j < pos {
                } else if i < pos && j == pos {
                    assert(old_p[i] < t);
                } else if i < pos && j > pos {
                    assert(p[j] == old_p[j - 1]);
                } else if i == pos {
                    assert(p[j] == old_p[j - 1]);
                    assert(old_p[j - 1] < t);
                } else {
                    assert(p[i] == old_p[i - 1]);
                    assert(p[j] == old_p[j - 1]);
                }
            }
            assert forall|i: int, j: int|
                0 <= i < j < out@.len() implies (#[trigger] out@[i]).frequency_hz
                    <= (#[trigger] out@[j]).frequency_hz by {
                if j < pos {
                } else if j == pos {
                    assert(out@[i] == old_out[i]);
                } else if i < pos {
                    assert(out@[i] == old_out[i]);
                    assert(out@[j] == old_out[j - 1]);
                } else if i == pos {
                    assert(out@[j] == old_out[j - 1]);
                } else {
                    assert(out@[i] == old_out[i - 1]);
                    assert(out@[j] == old_out[j - 1]);
                }
            }
            assert forall|i: int, j: int|
                0 <= i < j < out@.len() && (#[trigger] out@[i]).frequency_hz
                    == (#[trigger] out@[j]).frequency_hz implies p[i] < p[j] by {
                if j < pos {
                } else if j == pos {
                    assert(out@[i] == old_out[i]);
                    assert(old_p[i] < t);
                } else if i < pos {
                    assert(out@[i] == old_out[i]);
                    assert(out@[j] == old_out[j - 1]);
                    assert(p[j] == old_p[j - 1]);
                } else if i == pos {
                    assert(out@[j] == old_out[j - 1]);
                } else {
                    assert(out@[i] == old_out[i - 1]);
                    assert(out@[j] == old_out[j - 1]);
                    assert(p[i] == old_p[i - 1]);
                    assert(p[j] == old_p[j - 1]);
                }
            }
            assert forall|i: int| 0 <= i < prefix.len() implies #[trigger] next[i] == prefix[i] by {}
            assert(by_frequency_with(next, out@, p));
        }
        t = t + 1;
    }
    proof {
        assert(orig.take(t as int) =~= orig);
    }
    out
}

/// Occupancy counts for every frequency seen within the window.
pub struct OccupancyCounter {
    window_seconds: u64,
    recent_window_seconds: u64,
    histories: Vec<FrequencyHistory>,
}

impl OccupancyCounter {
    /// A counter over `window_seconds`, with a recent part of
    /// `recent_window_seconds`, that has seen nothing.
    pub fn new(window_seconds: u64, recent_window_seconds: u64) -> (c: Self)
        ensures
            c.histories_model() == Seq::<HistoryModel>::empty(),
            c.window() == window_seconds,
            c.recent_window() == recent_window_seconds,
    {
        let c = OccupancyCounter { window_seconds, recent_window_seconds, histories: Vec::new() };
        assert(history_models(c.histories@) =~= Seq::<HistoryModel>::empty());
        c
    }

    pub closed spec fn histories_model(&self) -> Seq<HistoryModel> {
        history_models(self.histories@)
    }

    pub closed spec fn window(&self) -> u64 {
        self.window_seconds
    }

    pub closed spec fn recent_window(&self) -> u64 {
        self.recent_window_seconds
    }

    /// Counts one sample at `frequency_hz` in `second`.
    pub fn record(&mut self, frequency_hz: u64, second: u64, active: bool) -> (r: RecordOutcome)
        ensures
            final(self).histories_model() == record_spec(
                old(self).histories_model(),
                frequency_hz,
                second,
                active,
                old(self).window(),
            ),
            r.merged == merges(target_buckets(old(self).histories_model(), frequency_hz), second),
            r.trimmed + count_sample(
                target_buckets(old(self).histories_model(), frequency_hz),
                second,
                active,
                old(self).window(),
            ).len() == target_buckets(old(self).histories_model(), frequency_hz).len() + if r.merged {
                0int
            } else {
                1int
            },
            final(self).window() == old(self).window(),
            final(self).recent_window() == old(self).recent_window(),
    {
        let ghost m = history_models(self.histories@);
        proof {
            lemma_find_history_facts(m, frequency_hz);
        }
        let mut i: usize = 0;
        while i < self.histories.len()
            invariant
                0 <= i <= self.histories.len(),
                self.histories@ == old(self).histories@,
                m == history_models(self.histories@),
                self.window_seconds == old(self).window_seconds,
                self.recent_window_seconds == old(self).recent_window_seconds,
                forall|j: int| 0 <= j < i ==> (#[trigger] m[j]).frequency_hz != frequency_hz,
            decreases self.histories.len() - i,
        {
            if self.histories[i].frequency_hz == frequency_hz {
                proof {
                    lemma_find_history_first(m, frequency_hz, i as int);
                }
                let ghost before = self.histories@;
                let mut h = self.histories.remove(i);
                assert(h.model() == m[i as int]);
                let r = count_sample_exec(&mut h, second, active, self.window_seconds);
                self.histories.insert(i, h);
                proof {
                    lemma_history_models_replace(before, self.histories@, i as int, h);
                }
                return r;
            }
            i = i + 1;
        }
        let mut h = FrequencyHistory { frequency_hz, buckets: VecDeque::new() };
        let r = count_sample_exec(&mut h, second, active, self.window_seconds);
        let ghost before = self.histories@;
        self.histories.push(h);
        proof {
            assert(history_models(self.histories@) =~= history_models(before).push(h.model()));
        }
        r
    }

    /// Trims every history to the window ending at `current_second` and
    /// forgets the frequencies left without buckets.
    pub fn prune(&mut self, current_second: u64) -> (reports: Vec<PruneReport>)
        ensures
            final(self).histories_model() == prune_spec(
                old(self).histories_model(),
                earliest_second(current_second, old(self).window()),
            ),
            reports@ == old(self).histories_model().map_values(
                |m: HistoryModel| prune_report(m, earliest_second(current_second, old(self).window())),
            ),
            final(self).window() == old(self).window(),
            final(self).recent_window() == old(self).recent_window(),
    {
        let earliest = current_second.saturating_sub(self.window_seconds.saturating_sub(1));
        let mut rest: Vec<FrequencyHistory> = Vec::new();
        std::mem::swap(&mut rest, &mut self.histories);
        let ghost orig = rest@;
        let ghost om = history_models(orig);
        let ghost n = orig.len();
        let mut reports: Vec<PruneReport> = Vec::new();
        assert(history_models(self.histories@) =~= prune_spec(om.take(0), earliest));
        while rest.len() > 0
            invariant
                rest@.len() <= n,
                n == orig.len(),
                om == history_models(orig),
                rest@ == orig.subrange(n - rest@.len(), n as int),
                history_models(self.histories@) == prune_spec(om.take(n - rest@.len()), earliest),
                reports@ == om.take(n - rest@.len()).map_values(|m: HistoryModel| prune_report(m, earliest)),
                orig == old(self).histories@,
                earliest == earliest_second(current_second, old(self).window_seconds),
                self.window_seconds == old(self).window_seconds,
                self.recent_window_seconds == old(self).recent_window_seconds,
            decreases rest@.len(),
        {
            let ghost k = n - rest@.len();
            let mut h = rest.remove(0);
            assert(h == orig[k]);
            assert(rest@ =~= orig.subrange(n - rest@.len(), n as int));
            let ghost before_model = h.model();
            proof {
                lemma_trim_shrinks(h.buckets@, earliest);
            }
            let trimmed = trim_buckets(&mut h.buckets, earliest);
            let removed = h.buckets.len() == 0;
            let ghost before_reports = reports@;
            reports.push(PruneReport { frequency_hz: h.frequency_hz, trimmed, removed });
            let ghost before = self.histories@;
            proof {
                assert(om.take(k + 1).drop_last() =~= om.take(k));
                assert(om.take(k + 1).last() == orig[k].model());
                assert(reports@ =~= om.take(k + 1).map_values(|m: HistoryModel| prune_report(m, earliest)));
            }
            if !removed {
                self.histories.push(h);
                proof {
                    assert(history_models(self.histories@) =~= history_models(before).push(h.model()));
                }
            }
        }
        proof {
            assert(om.take(n as int) =~= om);
        }
        reports
    }

    /// The counts of every remembered frequency, in remembered order.
    fn all_stats(&self, current_second: u64) -> (r: Vec<CountStats>)
        ensures
            r@ == self.histories_model().map_values(
                |m: HistoryModel| stats_spec(m, current_second, self.recent_window()),
            ),
    {
        let mut r: Vec<CountStats> = Vec::new();
        let mut i: usize = 0;
        while i < self.histories.len()
            invariant
                0 <= i <= self.histories.len(),
                r@ == history_models(self.histories@).take(i as int).map_values(
                    |m: HistoryModel| stats_spec(m, current_second, self.recent_window_seconds),
                ),
            decreases self.histories.len() - i,
        {
            let st = history_stats(&self.histories[i], current_second, self.recent_window_seconds);
            let ghost before = r@;
            r.push(st);
            proof {
                let hm = history_models(self.histories@);
                assert(hm.take(i + 1).drop_last() =~= hm.take(i as int));
                assert(r@ =~= hm.take(i + 1).map_values(
                    |m: HistoryModel| stats_spec(m, current_second, self.recent_window_seconds),
                ));
            }
            i = i + 1;
        }
        proof {
            assert(history_models(self.histories@).take(i as int) =~= history_models(self.histories@));
        }
        r
    }

    /// Counts the samples of one sweep taken in `second` (each a bin's
    /// frequency and whether it was above threshold), in bin order, then
    /// prunes the window.
    pub fn update(&mut self, second: u64, samples: &[(u64, bool)]) -> (r: (Vec<RecordOutcome>, Vec<PruneReport>))
        ensures
            ({
                let (recorded, outcomes) = record_all(
                    old(self).histories_model(),
                    samples@,
                    samples@.len() as int,
                    second,
                    old(self).window(),
                );
                let earliest = earliest_second(second, old(self).window());
                &&& r.0@ == outcomes
                &&& r.1@ == recorded.map_values(|m: HistoryModel| prune_report(m, earliest))
                &&& final(self).histories_model() == prune_spec(recorded, earliest)
            }),
            final(self).window() == old(self).window(),
            final(self).recent_window() == old(self).recent_window(),
    {
        let mut outcomes: Vec<RecordOutcome> = Vec::new();
        let mut i: usize = 0;
        while i < samples.len()
            invariant
                0 <= i <= samples.len(),
                (self.histories_model(), outcomes@) == record_all(
                    old(self).histories_model(),
                    samples@,
                    i as int,
                    second,
                    old(self).window(),
                ),
                self.window() == old(self).window(),
                self.recent_window() == old(self).recent_window(),
            decreases samples.len() - i,
        {
            let (f, a) = samples[i];
            let ghost h1 = self.histories_model();
            let o = self.record(f, second, a);
            outcomes.push(o);
            proof {
                assert(o == record_outcome(h1, f, second, a, old(self).window()));
            }
            i = i + 1;
        }
        let reports = self.prune(second);
        (outcomes, reports)
    }

    /// The counts of the frequencies within `start_hz..=end_hz`, after
    /// pruning the window ending at `current_second`, in remembered order.
    pub fn range_counts(&mut self, start_hz: u64, end_hz: u64, current_second: u64) -> (r: (Vec<PruneReport>, Vec<CountStats>))
        ensures
            ({
                let earliest = earliest_second(current_second, old(self).window());
                let pruned = prune_spec(old(self).histories_model(), earliest);
                &&& r.0@ == old(self).histories_model().map_values(|m: HistoryModel| prune_report(m, earliest))
                &&& final(self).histories_model() == pruned
                &&& r.1@ == pruned.filter(|m: HistoryModel| start_hz <= m.frequency_hz <= end_hz).map_values(
                    |m: HistoryModel| stats_spec(m, current_second, old(self).recent_window()),
                )
            }),
            final(self).window() == old(self).window(),
            final(self).recent_window() == old(self).recent_window(),
    {
        let reports = self.prune(current_second);
        let ghost pruned = self.histories_model();
        let mut r: Vec<CountStats> = Vec::new();
        let mut i: usize = 0;
        while i < self.histories.len()
            invariant
                0 <= i <= self.histories.len(),
                pruned == history_models(self.histories@),
                r@ == pruned.take(i as int).filter(|m: HistoryModel| start_hz <= m.frequency_hz <= end_hz).map_values(
                    |m: HistoryModel| stats_spec(m, current_second, self.recent_window_seconds),
                ),
            decreases self.histories.len() - i,
        {
            let f = self.histories[i].frequency_hz;
            proof {
                let t = pruned.take(i + 1);
                assert(t.drop_last() =~= pruned.take(i as int));
                assert(t.last() == pruned[i as int]);
                reveal(Seq::filter);
            }
            if start_hz <= f && f <= end_hz {
                let st = history_stats(&self.histories[i], current_second, self.recent_window_seconds);
                let ghost before = r@;
                r.push(st);
                proof {
                    assert(r@ =~= before.push(stats_spec(pruned[i as int], current_second, self.recent_window_seconds)));
                }
            }
            i = i + 1;
        }
        proof {
            assert(pruned.take(i as int) =~= pruned);
        }
        (reports, r)
    }

    /// The counts of every frequency after pruning the window ending at
    /// `current_second`, by ascending frequency.
    pub fn snapshot_counts(&mut self, current_second: u64) -> (r: (Vec<PruneReport>, Vec<CountStats>))
        ensures
            ({
                let earliest = earliest_second(current_second, old(self).window());
                let pruned = prune_spec(old(self).histories_model(), earliest);
                &&& r.0@ == old(self).histories_model().map_values(|m: HistoryModel| prune_report(m, earliest))
                &&& final(self).histories_model() == pruned
                &&& by_frequency(
                    pruned.map_values(|m: HistoryModel| stats_spec(m, current_second, old(self).recent_window())),
                    r.1@,
                )
            }),
            final(self).window() == old(self).window(),
            final(self).recent_window() == old(self).recent_window(),
    {
        let reports = self.prune(current_second);
        let stats = self.all_stats(current_second);
        (reports, sort_by_frequency(stats))
    }
}



// ---------------------------------------------------------------------------
// Laws
// ---------------------------------------------------------------------------

pub open spec fn seconds_ascending(b: Seq<OccupancyBucket>) -> bool {
    forall|i: int, j: int| 0 <= i < j < b.len() ==> (#[trigger] b[i]).second <= (#[trigger] b[j]).second
}

proof fn lemma_trim_suffix(b: Seq<OccupancyBucket>, earliest: u64)
    ensures
        exists|k: int| 0 <= k <= b.len() && trim_spec(b, earliest) == b.subrange(k, b.len() as int),
        trim_spec(b, earliest).len() > 0 ==> trim_spec(b, earliest)[0].second >= earliest,
    decreases b.len(),
{
    if b.len() > 0 && b[0].second < earliest {
        lemma_trim_suffix(b.drop_first(), earliest);
        let k = choose|k: int|
            0 <= k <= b.drop_first().len() && trim_spec(b.drop_first(), earliest) == b.drop_first().subrange(
                k,
                b.drop_first().len() as int,
            );
        assert(b.drop_first().subrange(k, b.drop_first().len() as int) =~= b.subrange(k + 1, b.len() as int));
    } else {
        assert(b.subrange(0, b.len() as int) =~= b);
    }
}

/// With buckets in time order, trimming keeps them in order and keeps only
/// buckets within the window: none older than its first second.
pub proof fn lemma_trim_within_window(b: Seq<OccupancyBucket>, earliest: u64)
    requires
        seconds_ascending(b),
    ensures
        seconds_ascending(trim_spec(b, earliest)),
        forall|i: int| 0 <= i < trim_spec(b, earliest).len() ==> (#[trigger] trim_spec(b, earliest)[i]).second >= earliest,
{
    lemma_trim_suffix(b, earliest);
    let t = trim_spec(b, earliest);
    let k = choose|k: int| 0 <= k <= b.len() && t == b.subrange(k, b.len() as int);
    assert forall|i: int, j: int| 0 <= i < j < t.len() implies (#[trigger] t[i]).second <= (#[trigger] t[j]).second by {
        assert(t[i] == b[k + i]);
        assert(t[j] == b[k + j]);
    }
    assert forall|i: int| 0 <= i < t.len() implies (#[trigger] t[i]).second >= earliest by {
        assert(t[i] == b[k + i]);
        assert(t[0] == b[k]);
    }
}

pub open spec fn frequencies_distinct(h: Seq<HistoryModel>) -> bool {
    forall|i: int, j: int| 0 <= i < j < h.len() ==> (#[trigger] h[i]).frequency_hz != (#[trigger] h[j]).frequency_hz
}

proof fn lemma_prune_frequencies(h: Seq<HistoryModel>, earliest: u64)
    ensures
        forall|i: int|
            0 <= i < prune_spec(h, earliest).len() ==> exists|j: int|
                0 <= j < h.len() && (#[trigger] h[j]).frequency_hz == (#[trigger] prune_spec(h, earliest)[i]).frequency_hz,
    decreases h.len(),
{
    if h.len() > 0 {
        lemma_prune_frequencies(h.drop_last(), earliest);
        let rest = prune_spec(h.drop_last(), earliest);
        let p = prune_spec(h, earliest);
        assert forall|i: int| 0 <= i < p.len() implies exists|j: int|
            0 <= j < h.len() && (#[trigger] h[j]).frequency_hz == (#[trigger] p[i]).frequency_hz by {
            if i < rest.len() {
                assert(p[i] == rest[i]);
                let j = choose|j: int|
                    0 <= j < h.drop_last().len() && (#[trigger] h.drop_last()[j]).frequency_hz == rest[i].frequency_hz;
                assert(h[j] == h.drop_last()[j]);
            } else {
                assert(p[i].frequency_hz == h[h.len() - 1].frequency_hz);
            }
        }
    }
}

/// Each frequency has at most one history, whatever is recorded or pruned.
pub proof fn lemma_frequencies_stay_distinct(
    h: Seq<HistoryModel>,
    frequency_hz: u64,
    second: u64,
    active: bool,
    window_seconds: u64,
    earliest: u64,
)
    requires
        frequencies_distinct(h),
    ensures
        frequencies_distinct(record_spec(h, frequency_hz, second, active, window_seconds)),
        frequencies_distinct(prune_spec(h, earliest)),
    decreases h.len(),
{
    lemma_find_history_facts(h, frequency_hz);
    let r = record_spec(h, frequency_hz, second, active, window_seconds);
    assert forall|i: int, j: int| 0 <= i < j < r.len() implies (#[trigger] r[i]).frequency_hz
        != (#[trigger] r[j]).frequency_hz by {
        if j < h.len() {
            assert(r[i].frequency_hz == h[i].frequency_hz);
            assert(r[j].frequency_hz == h[j].frequency_hz);
        } else {
            assert(r[i].frequency_hz == h[i].frequency_hz);
        }
    }
    if h.len() > 0 {
        lemma_frequencies_stay_distinct(h.drop_last(), frequency_hz, second, active, window_seconds, earliest);
        lemma_prune_frequencies(h.drop_last(), earliest);
        let rest = prune_spec(h.drop_last(), earliest);
        let p = prune_spec(h, earliest);
        assert forall|i: int, j: int| 0 <= i < j < p.len() implies (#[trigger] p[i]).frequency_hz
            != (#[trigger] p[j]).frequency_hz by {
            if j < rest.len() {
                assert(p[i] == rest[i]);
                assert(p[j] == rest[j]);
            } else {
                assert(p[i] == rest[i]);
                let k = choose|k: int|
                    0 <= k < h.drop_last().len() && (#[trigger] h.drop_last()[k]).frequency_hz == rest[i].frequency_hz;
                assert(h[k] == h.drop_last()[k]);
                assert(p[j].frequency_hz == h[h.len() - 1].frequency_hz);
            }
        }
    }
}


proof fn lemma_sums_drop_first(x: Seq<OccupancyBucket>, from: u64)
    requires
        x.len() > 0,
    ensures
        sum_samples(x, from) == sum_samples(x.drop_first(), from) + if x[0].second >= from {
            x[0].samples as nat
        } else {
            0nat
        },
        sum_active(x, from) == sum_active(x.drop_first(), from) + if x[0].second >= from {
            x[0].active_samples as nat
        } else {
            0nat
        },
    decreases x.len(),
{
    let d = x.drop_first();
    if x.len() > 1 {
        lemma_sums_drop_first(x.drop_last(), from);
        assert(x.drop_last().drop_first() =~= d.drop_last());
        assert(x.drop_last()[0] == x[0]);
        assert(d.last() == x.last());
        assert(sum_samples(d, from) == sum_samples(d.drop_last(), from) + if d.last().second >= from {
            d.last().samples as nat
        } else {
            0nat
        });
        assert(sum_active(d, from) == sum_active(d.drop_last(), from) + if d.last().second >= from {
            d.last().active_samples as nat
        } else {
            0nat
        });
    } else {
        assert(d.len() == 0);
        assert(x.drop_last().len() == 0);
        assert(sum_samples(d, from) == 0);
        assert(sum_active(d, from) == 0);
        assert(sum_samples(x.drop_last(), from) == 0);
        assert(sum_active(x.drop_last(), from) == 0);
        assert(x.last() == x[0]);
    }
}

proof fn lemma_trim_keeps_sums(x: Seq<OccupancyBucket>, earliest: u64, from: u64)
    requires
        earliest <= from,
    ensures
        sum_samples(trim_spec(x, earliest), from) == sum_samples(x, from),
        sum_active(trim_spec(x, earliest), from) == sum_active(x, from),
    decreases x.len(),
{
    if x.len() > 0 && x[0].second < earliest {
        lemma_trim_keeps_sums(x.drop_first(), earliest, from);
        lemma_sums_drop_first(x, from);
    }
}

/// Counting law: one sample in `second` adds exactly one sample, and exactly
/// one active sample when it is active (none otherwise), to the counts of every
/// span of the window from `from` on, whether it opens a new bucket or is
/// merged into the bucket already open for that second (its counts below the
/// 64-bit limit).
pub proof fn lemma_sample_counted_once(
    b: Seq<OccupancyBucket>,
    second: u64,
    active: bool,
    window_seconds: u64,
    from: u64,
)
    requires
        earliest_second(second, window_seconds) <= from <= second,
        b.len() > 0 && b.last().second == second ==> b.last().samples < u64::MAX && b.last().active_samples
            < u64::MAX,
    ensures
        sum_samples(count_sample(b, second, active, window_seconds), from) == sum_samples(b, from) + 1,
        sum_active(count_sample(b, second, active, window_seconds), from) == sum_active(b, from) + if active {
            1nat
        } else {
            0nat
        },
{
    let a: u64 = if active { 1 } else { 0 };
    let counted = if b.len() > 0 && b.last().second == second {
        b.update(
            b.len() - 1,
            OccupancyBucket {
                samples: sat_inc(b.last().samples, 1),
                active_samples: sat_inc(b.last().active_samples, a),
                ..b.last()
            },
        )
    } else {
        b.push(OccupancyBucket { second, samples: 1, active_samples: a })
    };
    if b.len() > 0 && b.last().second == second {
        assert(counted.drop_last() =~= b.drop_last());
    } else {
        assert(counted.drop_last() =~= b);
    }
    lemma_trim_keeps_sums(counted, earliest_second(second, window_seconds), from);
}

/// The samples of one second all count: after `flags.len()` samples in the
/// same second on a frequency with no earlier buckets, the window holds that
/// many samples, of which as many active as the flags say.
pub proof fn lemma_same_second_samples(flags: Seq<bool>, second: u64, window_seconds: u64)
    requires
        flags.len() < u64::MAX,
    ensures
        sum_samples(count_samples(flags, second, window_seconds), second) == flags.len(),
        sum_active(count_samples(flags, second, window_seconds), second) == active_flags(flags),
        count_samples(flags, second, window_seconds).len() <= 1,
        count_samples(flags, second, window_seconds).len() == 1 ==> count_samples(
            flags,
            second,
            window_seconds,
        )[0].second == second && count_samples(flags, second, window_seconds)[0].samples == flags.len()
            && count_samples(flags, second, window_seconds)[0].active_samples == active_flags(flags),
    decreases flags.len(),
{
    if flags.len() > 0 {
        let pre = flags.drop_last();
        lemma_same_second_samples(pre, second, window_seconds);
        let b = count_samples(pre, second, window_seconds);
        lemma_active_flags_bounded(pre);
        lemma_sample_counted_once(b, second, flags.last(), window_seconds, second);
        let a: u64 = if flags.last() { 1 } else { 0 };
        let counted = if b.len() > 0 && b.last().second == second {
            b.update(
                b.len() - 1,
                OccupancyBucket {
                    samples: sat_inc(b.last().samples, 1),
                    active_samples: sat_inc(b.last().active_samples, a),
                    ..b.last()
                },
            )
        } else {
            b.push(OccupancyBucket { second, samples: 1, active_samples: a })
        };
        assert(counted.len() == 1);
        assert(counted[0].second >= earliest_second(second, window_seconds));
        assert(trim_spec(counted, earliest_second(second, window_seconds)) == counted);
        assert(counted.drop_last().len() == 0);
    }
}

/// The buckets of a frequency, with no earlier buckets, after one sample per
/// flag, all in `second`.
pub open spec fn count_samples(flags: Seq<bool>, second: u64, window_seconds: u64) -> Seq<OccupancyBucket>
    decreases flags.len(),
{
    if flags.len() == 0 {
        Seq::empty()
    } else {
        count_sample(count_samples(flags.drop_last(), second, window_seconds), second, flags.last(), window_seconds)
    }
}

/// How many flags are set.
pub open spec fn active_flags(flags: Seq<bool>) -> nat
    decreases flags.len(),
{
    if flags.len() == 0 {
        0
    } else {
        active_flags(flags.drop_last()) + if flags.last() { 1nat } else { 0nat }
    }
}

proof fn lemma_active_flags_bounded(flags: Seq<bool>)
    ensures
        active_flags(flags) <= flags.len(),
    decreases flags.len(),
{
    if flags.len() > 0 {
        lemma_active_flags_bounded(flags.drop_last());
    }
}
} // verus!
