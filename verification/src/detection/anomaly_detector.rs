//! Burst and repeated-pulse tracking per band.
//!
//! A band turns active when a peak is seen in it and inactive at the first
//! sweep without one. Each activation is a burst onset; enough onsets within
//! the pulse window make repeated pulses, and a short activation that followed
//! a long enough quiet spell makes a burst.
use vstd::prelude::*;
use std::collections::VecDeque;
use crate::text::{decimal, push_decimal, push_str};

verus! {

/// Burst and pulse history of one band.
pub struct BandPulses {
    pub frequency_start_hz: u64,
    pub frequency_end_hz: u64,
    pub active: bool,
    pub burst_start_ms: Option<u64>,
    pub quiet_before_start: bool,
    pub last_active_end_ms: Option<u64>,
    pub pulse_starts: VecDeque<u64>,
}

pub struct BandPulsesModel {
    pub frequency_start_hz: u64,
    pub frequency_end_hz: u64,
    pub active: bool,
    pub burst_start_ms: Option<u64>,
    pub quiet_before_start: bool,
    pub last_active_end_ms: Option<u64>,
    pub pulse_starts: Seq<u64>,
}

impl BandPulses {
    pub open spec fn model(&self) -> BandPulsesModel {
        BandPulsesModel {
            frequency_start_hz: self.frequency_start_hz,
            frequency_end_hz: self.frequency_end_hz,
            active: self.active,
            burst_start_ms: self.burst_start_ms,
            quiet_before_start: self.quiet_before_start,
            last_active_end_ms: self.last_active_end_ms,
            pulse_starts: self.pulse_starts@,
        }
    }
}

pub open spec fn pulse_models(v: Seq<BandPulses>) -> Seq<BandPulsesModel> {
    v.map_values(|b: BandPulses| b.model())
}

pub open spec fn sat_sub(a: u64, b: u64) -> u64 {
    if a >= b { (a - b) as u64 } else { 0 }
}

/// Drops the onsets older than `cutoff`, oldest first.
pub open spec fn prune_pulses_spec(s: Seq<u64>, cutoff: u64) -> Seq<u64>
    decreases s.len(),
{
    if s.len() > 0 && s[0] < cutoff {
        prune_pulses_spec(s.drop_first(), cutoff)
    } else {
        s
    }
}

fn prune_pulses(q: &mut VecDeque<u64>, cutoff: u64)
    ensures
        final(q)@ == prune_pulses_spec(old(q)@, cutoff),
{
    while q.len() > 0 && q[0] < cutoff
        invariant
            prune_pulses_spec(q@, cutoff) == prune_pulses_spec(old(q)@, cutoff),
        decreases q@.len(),
    {
        let ghost before = q@;
        let _ = q.pop_front();
        assert(q@ =~= before.drop_first());
    }
}

pub open spec fn fresh_band(start: u64, end: u64) -> BandPulsesModel {
    BandPulsesModel {
        frequency_start_hz: start,
        frequency_end_hz: end,
        active: false,
        burst_start_ms: None,
        quiet_before_start: false,
        last_active_end_ms: None,
        pulse_starts: Seq::empty(),
    }
}

/// A band after a peak was seen in it at `now_ms`: an inactive band starts a
/// burst (an onset), an active one only forgets expired onsets.
pub open spec fn touch_band(b: BandPulsesModel, now_ms: u64, quiet_ms: u64, window_ms: u64) -> BandPulsesModel {
    let cutoff = sat_sub(now_ms, window_ms);
    if !b.active {
        BandPulsesModel {
            active: true,
            burst_start_ms: Some(now_ms),
            quiet_before_start: match b.last_active_end_ms {
                Some(last) => sat_sub(now_ms, last) >= quiet_ms,
                None => false,
            },
            pulse_starts: prune_pulses_spec(b.pulse_starts.push(now_ms), cutoff),
            ..b
        }
    } else {
        BandPulsesModel { pulse_starts: prune_pulses_spec(b.pulse_starts, cutoff), ..b }
    }
}

/// The number of onsets reported for a peak: present when the peak started a
/// burst and the band then holds at least `min_count` onsets.
pub open spec fn onset_report(b: BandPulsesModel, after: BandPulsesModel, min_count: usize) -> Option<usize> {
    if !b.active && after.pulse_starts.len() >= min_count {
        Some(after.pulse_starts.len() as usize)
    } else {
        None
    }
}

pub open spec fn band_is(b: BandPulsesModel, key: (u64, u64)) -> bool {
    b.frequency_start_hz == key.0 && b.frequency_end_hz == key.1
}

pub open spec fn find_pulse_band(bands: Seq<BandPulsesModel>, key: (u64, u64)) -> Option<int>
    decreases bands.len(),
{
    if bands.len() == 0 {
        None
    } else {
        match find_pulse_band(bands.drop_last(), key) {
            Some(i) => Some(i),
            None => if band_is(bands.last(), key) {
                Some(bands.len() - 1)
            } else {
                None
            },
        }
    }
}

/// The bands and the onset report after one peak on band `key`.
pub open spec fn peak_step(
    bands: Seq<BandPulsesModel>,
    key: (u64, u64),
    now_ms: u64,
    quiet_ms: u64,
    window_ms: u64,
    min_count: usize,
) -> (Seq<BandPulsesModel>, Option<usize>) {
    match find_pulse_band(bands, key) {
        Some(i) => {
            let after = touch_band(bands[i], now_ms, quiet_ms, window_ms);
            (bands.update(i, after), onset_report(bands[i], after, min_count))
        },
        None => {
            let b = fresh_band(key.0, key.1);
            let after = touch_band(b, now_ms, quiet_ms, window_ms);
            (bands.push(after), onset_report(b, after, min_count))
        },
    }
}

/// The bands and onset reports after the peaks of one sweep, in order.
pub open spec fn peaks_step(
    bands: Seq<BandPulsesModel>,
    keys: Seq<(u64, u64)>,
    now_ms: u64,
    quiet_ms: u64,
    window_ms: u64,
    min_count: usize,
) -> (Seq<BandPulsesModel>, Seq<Option<usize>>)
    decreases keys.len(),
{
    if keys.len() == 0 {
        (bands, Seq::empty())
    } else {
        let (b1, r1) = peaks_step(bands, keys.drop_last(), now_ms, quiet_ms, window_ms, min_count);
        let (b2, r) = peak_step(b1, keys.last(), now_ms, quiet_ms, window_ms, min_count);
        (b2, r1.push(r))
    }
}

/// How a band's activity ended.
#[derive(Clone, Copy, Debug, PartialEq, Eq, Structural)]
pub struct BurstEnd {
    pub frequency_start_hz: u64,
    pub frequency_end_hz: u64,
    pub duration_ms: u64,
    /// The activity followed a quiet spell and was short enough to be a burst.
    pub burst: bool,
}

/// An active band without a peak in this sweep.
pub open spec fn ending(b: BandPulsesModel, keys: Seq<(u64, u64)>) -> bool {
    b.active && !keys.contains((b.frequency_start_hz, b.frequency_end_hz))
}

pub open spec fn end_of(b: BandPulsesModel, now_ms: u64, max_burst_ms: u64) -> BurstEnd {
    let start = match b.burst_start_ms {
        Some(s) => s,
        None => now_ms,
    };
    let duration = sat_sub(now_ms, start);
    BurstEnd {
        frequency_start_hz: b.frequency_start_hz,
        frequency_end_hz: b.frequency_end_hz,
        duration_ms: duration,
        burst: b.quiet_before_start && duration > 0 && duration <= max_burst_ms,
    }
}

pub open spec fn ended_band(b: BandPulsesModel, now_ms: u64) -> BandPulsesModel {
    BandPulsesModel {
        active: false,
        burst_start_ms: None,
        last_active_end_ms: Some(now_ms),
        quiet_before_start: false,
        ..b
    }
}

/// The endings among the first `n` bands, in band order.
pub open spec fn endings(
    bands: Seq<BandPulsesModel>,
    keys: Seq<(u64, u64)>,
    now_ms: u64,
    max_burst_ms: u64,
    n: int,
) -> Seq<BurstEnd>
    decreases n,
{
    if n <= 0 {
        Seq::empty()
    } else {
        let r = endings(bands, keys, now_ms, max_burst_ms, n - 1);
        if ending(bands[n - 1], keys) {
            r.push(end_of(bands[n - 1], now_ms, max_burst_ms))
        } else {
            r
        }
    }
}

/// The bands once those without a peak in this sweep have ended.
pub open spec fn close_bands(bands: Seq<BandPulsesModel>, keys: Seq<(u64, u64)>, now_ms: u64) -> Seq<
    BandPulsesModel,
> {
    Seq::new(
        bands.len(),
        |i: int| if ending(bands[i], keys) { ended_band(bands[i], now_ms) } else { bands[i] },
    )
}

fn touch_band_exec(b: &mut BandPulses, now_ms: u64, quiet_ms: u64, window_ms: u64)
    ensures
        final(b).model() == touch_band(old(b).model(), now_ms, quiet_ms, window_ms),
{
    let cutoff = now_ms.saturating_sub(window_ms);
    if !b.active {
        b.active = true;
        b.burst_start_ms = Some(now_ms);
        b.quiet_before_start = match b.last_active_end_ms {
            Some(last) => now_ms.saturating_sub(last) >= quiet_ms,
            None => false,
        };
        b.pulse_starts.push_back(now_ms);
    }
    prune_pulses(&mut b.pulse_starts, cutoff);
}

fn new_pulse_band(start: u64, end: u64) -> (b: BandPulses)
    ensures
        b.model() == fresh_band(start, end),
{
    BandPulses {
        frequency_start_hz: start,
        frequency_end_hz: end,
        active: false,
        burst_start_ms: None,
        quiet_before_start: false,
        last_active_end_ms: None,
        pulse_starts: VecDeque::new(),
    }
}

proof fn lemma_find_pulse_band_facts(bands: Seq<BandPulsesModel>, key: (u64, u64))
    ensures
        match find_pulse_band(bands, key) {
            Some(i) => 0 <= i < bands.len() && band_is(bands[i], key) && forall|j: int|
                0 <= j < i ==> !band_is(#[trigger] bands[j], key),
            None => forall|j: int| 0 <= j < bands.len() ==> !band_is(#[trigger] bands[j], key),
        },
    decreases bands.len(),
{
    if bands.len() > 0 {
        lemma_find_pulse_band_facts(bands.drop_last(), key);
        assert forall|j: int| 0 <= j < bands.len() - 1 implies bands.drop_last()[j] == bands[j] by {}
    }
}

proof fn lemma_find_pulse_band_first(bands: Seq<BandPulsesModel>, key: (u64, u64), i: int)
    requires
        0 <= i < bands.len(),
        band_is(bands[i], key),
        forall|j: int| 0 <= j < i ==> !band_is(#[trigger] bands[j], key),
    ensures
        find_pulse_band(bands, key) == Some(i),
{
    lemma_find_pulse_band_facts(bands, key);
    match find_pulse_band(bands, key) {
        Some(j) => {
            if j < i {
                assert(!band_is(bands[j], key));
            }
            if j > i {
                assert(!band_is(bands[i], key));
            }
        },
        None => {
            assert(!band_is(bands[i], key));
        },
    }
}

proof fn lemma_pulse_models_replace(v: Seq<BandPulses>, w: Seq<BandPulses>, i: int, c: BandPulses)
    requires
        0 <= i < v.len(),
        w == v.remove(i).insert(i, c),
    ensures
        pulse_models(w) == pulse_models(v).update(i, c.model()),
{
    assert(pulse_models(w) =~= pulse_models(v).update(i, c.model()));
}

fn band_in(keys: &[(u64, u64)], key: (u64, u64)) -> (b: bool)
    ensures
        b == keys@.contains(key),
{
    let mut i: usize = 0;
    while i < keys.len()
        invariant
            0 <= i <= keys.len(),
            forall|j: int| 0 <= j < i ==> keys@[j] != key,
        decreases keys.len() - i,
    {
        if keys[i].0 == key.0 && keys[i].1 == key.1 {
            assert(keys@[i as int] == key);
            return true;
        }
        i = i + 1;
    }
    false
}

/// What one sweep did to the bands: for each peak, in order, the number of
/// onsets when it raises repeated pulses; then the bands whose activity ended,
/// in band order.
pub struct SweepPulses {
    pub onsets: Vec<Option<usize>>,
    pub ended: Vec<BurstEnd>,
}

/// Burst and repeated-pulse tracking over all bands seen so far.
pub struct BurstTracker {
    burst_quiet_ms: u64,
    burst_max_ms: u64,
    pulse_window_ms: u64,
    pulse_min_count: usize,
    bands: Vec<BandPulses>,
}

impl BurstTracker {
    /// A tracker with no band seen yet. A burst needs `burst_quiet_ms` of
    /// quiet before it and lasts at most `burst_max_ms`; repeated pulses are
    /// `pulse_min_count` onsets within `pulse_window_ms`.
    pub fn new(burst_quiet_ms: u64, burst_max_ms: u64, pulse_window_ms: u64, pulse_min_count: usize) -> (t: Self)
        ensures
            t.bands_model() == Seq::<BandPulsesModel>::empty(),
            t.quiet_ms() == burst_quiet_ms,
            t.max_burst_ms() == burst_max_ms,
            t.window_ms() == pulse_window_ms,
            t.min_count() == pulse_min_count,
    {
        let t = BurstTracker {
            burst_quiet_ms,
            burst_max_ms,
            pulse_window_ms,
            pulse_min_count,
            bands: Vec::new(),
        };
        assert(pulse_models(t.bands@) =~= Seq::<BandPulsesModel>::empty());
        t
    }

    pub closed spec fn bands_model(&self) -> Seq<BandPulsesModel> {
        pulse_models(self.bands@)
    }

    pub closed spec fn quiet_ms(&self) -> u64 {
        self.burst_quiet_ms
    }

    pub closed spec fn max_burst_ms(&self) -> u64 {
        self.burst_max_ms
    }

    pub closed spec fn window_ms(&self) -> u64 {
        self.pulse_window_ms
    }

    pub closed spec fn min_count(&self) -> usize {
        self.pulse_min_count
    }

    fn observe_peak(&mut self, key: (u64, u64), now_ms: u64) -> (r: Option<usize>)
        ensures
            (pulse_models(final(self).bands@), r) == peak_step(
                pulse_models(old(self).bands@),
                key,
                now_ms,
                old(self).burst_quiet_ms,
                old(self).pulse_window_ms,
                old(self).pulse_min_count,
            ),
            final(self).burst_quiet_ms == old(self).burst_quiet_ms,
            final(self).burst_max_ms == old(self).burst_max_ms,
            final(self).pulse_window_ms == old(self).pulse_window_ms,
            final(self).pulse_min_count == old(self).pulse_min_count,
    {
        let ghost m = pulse_models(self.bands@);
        proof {
            lemma_find_pulse_band_facts(m, key);
        }
        let mut i: usize = 0;
        while i < self.bands.len()
            invariant
                0 <= i <= self.bands.len(),
                self.bands@ == old(self).bands@,
                m == pulse_models(self.bands@),
                self.burst_quiet_ms == old(self).burst_quiet_ms,
                self.burst_max_ms == old(self).burst_max_ms,
                self.pulse_window_ms == old(self).pulse_window_ms,
                self.pulse_min_count == old(self).pulse_min_count,
                forall|j: int| 0 <= j < i ==> !band_is(#[trigger] m[j], key),
            decreases self.bands.len() - i,
        {
            if self.bands[i].frequency_start_hz == key.0 && self.bands[i].frequency_end_hz == key.1 {
                proof {
                    assert(band_is(m[i as int], key));
                    lemma_find_pulse_band_first(m, key, i as int);
                }
                let ghost before = self.bands@;
                let mut b = self.bands.remove(i);
                assert(b.model() == m[i as int]);
                let was_active = b.active;
                touch_band_exec(&mut b, now_ms, self.burst_quiet_ms, self.pulse_window_ms);
                let count = b.pulse_starts.len();
                let r = if !was_active && count >= self.pulse_min_count {
                    Some(count)
                } else {
                    None
                };
                self.bands.insert(i, b);
                proof {
                    lemma_pulse_models_replace(before, self.bands@, i as int, b);
                }
                return r;
            }
            i = i + 1;
        }
        let mut b = new_pulse_band(key.0, key.1);
        touch_band_exec(&mut b, now_ms, self.burst_quiet_ms, self.pulse_window_ms);
        let count = b.pulse_starts.len();
        let r = if count >= self.pulse_min_count {
            Some(count)
        } else {
            None
        };
        let ghost before = self.bands@;
        self.bands.push(b);
        proof {
            assert(pulse_models(self.bands@) =~= pulse_models(before).push(b.model()));
        }
        r
    }

    /// Feeds one sweep: the bands of its peaks, in order, seen at `now_ms`.
    pub fn observe_sweep(&mut self, now_ms: u64, peak_bands: &[(u64, u64)]) -> (r: SweepPulses)
        ensures
            ({
                let (touched, reports) = peaks_step(
                    old(self).bands_model(),
                    peak_bands@,
                    now_ms,
                    old(self).quiet_ms(),
                    old(self).window_ms(),
                    old(self).min_count(),
                );
                &&& r.onsets@ == reports
                &&& r.ended@ == endings(touched, peak_bands@, now_ms, old(self).max_burst_ms(), touched.len() as int)
                &&& final(self).bands_model() == close_bands(touched, peak_bands@, now_ms)
            }),
            final(self).quiet_ms() == old(self).quiet_ms(),
            final(self).max_burst_ms() == old(self).max_burst_ms(),
            final(self).window_ms() == old(self).window_ms(),
            final(self).min_count() == old(self).min_count(),
    {
        let ghost start = pulse_models(self.bands@);
        let mut onsets: Vec<Option<usize>> = Vec::new();
        let mut k: usize = 0;
        while k < peak_bands.len()
            invariant
                0 <= k <= peak_bands.len(),
                start == pulse_models(old(self).bands@),
                (pulse_models(self.bands@), onsets@) == peaks_step(
                    start,
                    peak_bands@.take(k as int),
                    now_ms,
                    self.burst_quiet_ms,
                    self.pulse_window_ms,
                    self.pulse_min_count,
                ),
                self.burst_quiet_ms == old(self).burst_quiet_ms,
                self.burst_max_ms == old(self).burst_max_ms,
                self.pulse_window_ms == old(self).pulse_window_ms,
                self.pulse_min_count == old(self).pulse_min_count,
            decreases peak_bands.len() - k,
        {
            proof {
                let t = peak_bands@.take(k + 1);
                assert(t.drop_last() =~= peak_bands@.take(k as int));
                assert(t.last() == peak_bands@[k as int]);
            }
            let r = self.observe_peak(peak_bands[k], now_ms);
            onsets.push(r);
            k = k + 1;
        }
        proof {
            assert(peak_bands@.take(k as int) =~= peak_bands@);
        }
        let ghost touched = pulse_models(self.bands@);
        let mut ended: Vec<BurstEnd> = Vec::new();
        let mut i: usize = 0;
        while i < self.bands.len()
            invariant
                0 <= i <= self.bands.len(),
                self.bands.len() == touched.len(),
                ended@ == endings(touched, peak_bands@, now_ms, self.burst_max_ms, i as int),
                forall|j: int|
                    0 <= j < i ==> (#[trigger] pulse_models(self.bands@)[j]) == close_bands(
                        touched,
                        peak_bands@,
                        now_ms,
                    )[j],
                forall|j: int| i <= j < self.bands.len() ==> (#[trigger] pulse_models(self.bands@)[j]) == touched[j],
                self.burst_quiet_ms == old(self).burst_quiet_ms,
                self.burst_max_ms == old(self).burst_max_ms,
                self.pulse_window_ms == old(self).pulse_window_ms,
                self.pulse_min_count == old(self).pulse_min_count,
            decreases self.bands.len() - i,
        {
            let key = (self.bands[i].frequency_start_hz, self.bands[i].frequency_end_hz);
            assert(pulse_models(self.bands@)[i as int] == touched[i as int]);
            if self.bands[i].active && !band_in(peak_bands, key) {
                let ghost before = self.bands@;
                let mut b = self.bands.remove(i);
                let start_ms = match b.burst_start_ms {
                    Some(s) => s,
                    None => now_ms,
                };
                let duration = now_ms.saturating_sub(start_ms);
                let burst = b.quiet_before_start && duration > 0 && duration <= self.burst_max_ms;
                ended.push(
                    BurstEnd {
                        frequency_start_hz: b.frequency_start_hz,
                        frequency_end_hz: b.frequency_end_hz,
                        duration_ms: duration,
                        burst,
                    },
                );
                b.active = false;
                b.burst_start_ms = None;
                b.last_active_end_ms = Some(now_ms);
                b.quiet_before_start = false;
                self.bands.insert(i, b);
                proof {
                    lemma_pulse_models_replace(before, self.bands@, i as int, b);
                }
            }
            i = i + 1;
        }
        proof {
            assert(pulse_models(self.bands@) =~= close_bands(touched, peak_bands@, now_ms));
        }
        SweepPulses { onsets, ended }
    }
}

/// The text of a repeated-pulse anomaly.
pub open spec fn repeated_pulse_text(count: nat, window_ms: u64, start: u64, end: u64) -> Seq<char> {
    "Detected "@ + decimal(count) + " burst onsets within "@ + decimal((window_ms / 1000) as nat)
        + " seconds at "@ + decimal((start / 1_000_000) as nat) + "-"@ + decimal((end / 1_000_000) as nat)
        + " MHz."@
}

/// The message of a repeated-pulse anomaly: `count` onsets within the window
/// (given in milliseconds, reported in whole seconds) on band `start`-`end`.
pub fn repeated_pulse_message(count: usize, window_ms: u64, start: u64, end: u64) -> (m: String)
    ensures
        m@ == repeated_pulse_text(count as nat, window_ms, start, end),
{
    let mut m = String::new();
    push_str(&mut m, "Detected ");
    push_decimal(&mut m, count as u64);
    push_str(&mut m, " burst onsets within ");
    push_decimal(&mut m, window_ms / 1000);
    push_str(&mut m, " seconds at ");
    push_decimal(&mut m, start / 1_000_000);
    push_str(&mut m, "-");
    push_decimal(&mut m, end / 1_000_000);
    push_str(&mut m, " MHz.");
    m
}

// ---------------------------------------------------------------------------
// Laws
// ---------------------------------------------------------------------------

pub open spec fn sorted_times(s: Seq<u64>) -> bool {
    forall|i: int, j: int| 0 <= i <= j < s.len() ==> s[i] <= s[j]
}

proof fn lemma_prune_suffix(s: Seq<u64>, cutoff: u64)
    ensures
        exists|k: int| 0 <= k <= s.len() && prune_pulses_spec(s, cutoff) == s.subrange(k, s.len() as int),
        prune_pulses_spec(s, cutoff).len() > 0 ==> prune_pulses_spec(s, cutoff)[0] >= cutoff,
    decreases s.len(),
{
    if s.len() > 0 && s[0] < cutoff {
        lemma_prune_suffix(s.drop_first(), cutoff);
        let k = choose|k: int|
            0 <= k <= s.drop_first().len() && prune_pulses_spec(s.drop_first(), cutoff) == s.drop_first().subrange(
                k,
                s.drop_first().len() as int,
            );
        assert(s.drop_first().subrange(k, s.drop_first().len() as int) =~= s.subrange(k + 1, s.len() as int));
    } else {
        assert(s.subrange(0, s.len() as int) =~= s);
    }
}

/// With sweeps arriving in time order, the onsets a band keeps are in time
/// order and all lie within the pulse window before the latest sweep, so a
/// repeated-pulse count only counts onsets within the window.
pub proof fn lemma_onsets_within_window(b: BandPulsesModel, now_ms: u64, quiet_ms: u64, window_ms: u64)
    requires
        sorted_times(b.pulse_starts),
        forall|i: int| 0 <= i < b.pulse_starts.len() ==> b.pulse_starts[i] <= now_ms,
    ensures
        ({
            let kept = touch_band(b, now_ms, quiet_ms, window_ms).pulse_starts;
            &&& sorted_times(kept)
            &&& forall|i: int| 0 <= i < kept.len() ==> sat_sub(now_ms, window_ms) <= #[trigger] kept[i] <= now_ms
        }),
{
    let cutoff = sat_sub(now_ms, window_ms);
    let s = if !b.active { b.pulse_starts.push(now_ms) } else { b.pulse_starts };
    assert(sorted_times(s));
    assert(forall|i: int| 0 <= i < s.len() ==> s[i] <= now_ms);
    lemma_prune_suffix(s, cutoff);
    let kept = prune_pulses_spec(s, cutoff);
    let k = choose|k: int| 0 <= k <= s.len() && kept == s.subrange(k, s.len() as int);
    assert forall|i: int, j: int| 0 <= i <= j < kept.len() implies kept[i] <= kept[j] by {
        assert(kept[i] == s[k + i]);
        assert(kept[j] == s[k + j]);
    }
    assert forall|i: int| 0 <= i < kept.len() implies cutoff <= #[trigger] kept[i] <= now_ms by {
        assert(kept[i] == s[k + i]);
        assert(kept[0] == s[k]);
    }
}

proof fn lemma_peak_step_activates(
    bands: Seq<BandPulsesModel>,
    key: (u64, u64),
    now_ms: u64,
    quiet_ms: u64,
    window_ms: u64,
    min_count: usize,
)
    ensures
        ({
            let after = peak_step(bands, key, now_ms, quiet_ms, window_ms, min_count).0;
            &&& after.len() >= bands.len()
            &&& forall|j: int|
                0 <= j < bands.len() ==> (#[trigger] after[j]).frequency_start_hz == bands[j].frequency_start_hz
                    && after[j].frequency_end_hz == bands[j].frequency_end_hz && (bands[j].active
                    ==> after[j].active)
            &&& key_active(after, key)
            &&& forall|j: int| bands.len() <= j < after.len() ==> band_is(#[trigger] after[j], key)
        }),
{
    lemma_find_pulse_band_facts(bands, key);
    let after = peak_step(bands, key, now_ms, quiet_ms, window_ms, min_count).0;
    match find_pulse_band(bands, key) {
        Some(i) => {
            assert(band_is(after[i], key) && after[i].active);
        },
        None => {
            assert(band_is(after[bands.len() as int], key) && after[bands.len() as int].active);
        },
    }
}

/// Some active band is the band `key`.
pub open spec fn key_active(bands: Seq<BandPulsesModel>, key: (u64, u64)) -> bool {
    exists|j: int| 0 <= j < bands.len() && #[trigger] band_is(bands[j], key) && bands[j].active
}

/// Each of `keys` is the band of an active band.
pub open spec fn keys_active(bands: Seq<BandPulsesModel>, keys: Seq<(u64, u64)>) -> bool {
    forall|k: int| 0 <= k < keys.len() ==> #[trigger] key_active(bands, keys[k])
}

/// Every active band is one of `keys`.
pub open spec fn only_keys_active(bands: Seq<BandPulsesModel>, keys: Seq<(u64, u64)>) -> bool {
    forall|j: int|
        0 <= j < bands.len() && (#[trigger] bands[j]).active ==> keys.contains(
            (bands[j].frequency_start_hz, bands[j].frequency_end_hz),
        )
}

proof fn lemma_peaks_step_activates(
    bands: Seq<BandPulsesModel>,
    keys: Seq<(u64, u64)>,
    now_ms: u64,
    quiet_ms: u64,
    window_ms: u64,
    min_count: usize,
)
    ensures
        keys_active(peaks_step(bands, keys, now_ms, quiet_ms, window_ms, min_count).0, keys),
    decreases keys.len(),
{
    if keys.len() > 0 {
        lemma_peaks_step_activates(bands, keys.drop_last(), now_ms, quiet_ms, window_ms, min_count);
        let b1 = peaks_step(bands, keys.drop_last(), now_ms, quiet_ms, window_ms, min_count).0;
        lemma_peak_step_activates(b1, keys.last(), now_ms, quiet_ms, window_ms, min_count);
        let after = peaks_step(bands, keys, now_ms, quiet_ms, window_ms, min_count).0;
        assert forall|k: int| 0 <= k < keys.len() implies #[trigger] key_active(after, keys[k]) by {
            if k < keys.len() - 1 {
                assert(keys.drop_last()[k] == keys[k]);
                assert(key_active(b1, keys.drop_last()[k]));
                let j = choose|j: int| 0 <= j < b1.len() && #[trigger] band_is(b1[j], keys[k]) && b1[j].active;
                assert(band_is(after[j], keys[k]) && after[j].active);
            }
        }
    }
}

/// After a sweep, the active bands are exactly the bands of the sweep's
/// peaks: every peak's band is active, and every other band has ended.
pub proof fn lemma_active_after_sweep(
    bands: Seq<BandPulsesModel>,
    keys: Seq<(u64, u64)>,
    now_ms: u64,
    quiet_ms: u64,
    window_ms: u64,
    min_count: usize,
)
    ensures
        keys_active(close_bands(peaks_step(bands, keys, now_ms, quiet_ms, window_ms, min_count).0, keys, now_ms), keys),
        only_keys_active(
            close_bands(peaks_step(bands, keys, now_ms, quiet_ms, window_ms, min_count).0, keys, now_ms),
            keys,
        ),
{
    let touched = peaks_step(bands, keys, now_ms, quiet_ms, window_ms, min_count).0;
    let after = close_bands(touched, keys, now_ms);
    lemma_peaks_step_activates(bands, keys, now_ms, quiet_ms, window_ms, min_count);
    assert forall|j: int| 0 <= j < after.len() && (#[trigger] after[j]).active implies keys.contains(
        (after[j].frequency_start_hz, after[j].frequency_end_hz),
    ) by {
        if ending(touched[j], keys) {
            assert(!after[j].active);
        } else {
            assert(after[j] == touched[j]);
        }
    }
    assert forall|k: int| 0 <= k < keys.len() implies #[trigger] key_active(after, keys[k]) by {
        assert(key_active(touched, keys[k]));
        let j = choose|j: int| 0 <= j < touched.len() && #[trigger] band_is(touched[j], keys[k]) && touched[j].active;
        assert(keys[k] == (touched[j].frequency_start_hz, touched[j].frequency_end_hz));
        assert(!ending(touched[j], keys));
        assert(after[j] == touched[j]);
    }
}


/// A burst needs quiet before it: when a peak reactivates the band `key`
/// (remembered at `i`, inactive), the new activity counts as following a quiet
/// spell exactly when at least `quiet_ms` passed since the band's previous
/// activity ended (a band never active before has no quiet spell). The
/// activity starts at `now_ms` and the band's other state is kept.
pub proof fn lemma_restart_needs_quiet(
    bands: Seq<BandPulsesModel>,
    key: (u64, u64),
    i: int,
    now_ms: u64,
    quiet_ms: u64,
    window_ms: u64,
    min_count: usize,
)
    requires
        0 <= i < bands.len(),
        bands[i].frequency_start_hz == key.0 && bands[i].frequency_end_hz == key.1,
        forall|j: int|
            0 <= j < i ==> !((#[trigger] bands[j]).frequency_start_hz == key.0 && bands[j].frequency_end_hz == key.1),
        !bands[i].active,
    ensures
        ({
            let after = peak_step(bands, key, now_ms, quiet_ms, window_ms, min_count).0[i];
            &&& after.active
            &&& after.burst_start_ms == Some(now_ms)
            &&& after.last_active_end_ms == bands[i].last_active_end_ms
            &&& after.quiet_before_start == match bands[i].last_active_end_ms {
                Some(last) => now_ms >= last + quiet_ms || (now_ms < last && quiet_ms == 0),
                None => false,
            }
        }),
{
    lemma_find_pulse_band_first(bands, key, i);
}

/// A burst is reported only after quiet: every ending that a sweep reports as
/// a burst comes from a band whose activity followed a quiet spell, lasted a
/// positive time of at most `max_burst_ms`, and started `duration_ms` before
/// `now_ms`.
pub proof fn lemma_burst_end_facts(
    bands: Seq<BandPulsesModel>,
    keys: Seq<(u64, u64)>,
    now_ms: u64,
    max_burst_ms: u64,
    n: int,
    k: int,
)
    requires
        0 <= n <= bands.len(),
        0 <= k < endings(bands, keys, now_ms, max_burst_ms, n).len(),
        endings(bands, keys, now_ms, max_burst_ms, n)[k].burst,
    ensures
        exists|j: int|
            #![trigger bands[j]]
            0 <= j < n && {
                let e = endings(bands, keys, now_ms, max_burst_ms, n)[k];
                &&& bands[j].active
                &&& bands[j].quiet_before_start
                &&& e.frequency_start_hz == bands[j].frequency_start_hz
                &&& e.frequency_end_hz == bands[j].frequency_end_hz
                &&& 0 < e.duration_ms <= max_burst_ms
                &&& e.duration_ms <= now_ms
                &&& bands[j].burst_start_ms == Some((now_ms - e.duration_ms) as u64)
            },
    decreases n,
{
    let r = endings(bands, keys, now_ms, max_burst_ms, n - 1);
    if k < r.len() {
        lemma_burst_end_facts(bands, keys, now_ms, max_burst_ms, n - 1, k);
        let j = choose|j: int|
            #![trigger bands[j]]
            0 <= j < n - 1 && {
                let e = endings(bands, keys, now_ms, max_burst_ms, n - 1)[k];
                &&& bands[j].active
                &&& bands[j].quiet_before_start
                &&& e.frequency_start_hz == bands[j].frequency_start_hz
                &&& e.frequency_end_hz == bands[j].frequency_end_hz
                &&& 0 < e.duration_ms <= max_burst_ms
                &&& e.duration_ms <= now_ms
                &&& bands[j].burst_start_ms == Some((now_ms - e.duration_ms) as u64)
            };
        assert(bands[j].active);
    } else {
        let b = bands[n - 1];
        assert(b.active);
        match b.burst_start_ms {
            Some(st) => {},
            None => {
                assert(false);
            },
        }
    }
}

/// A start time at least `quiet_ms` after the band's previous activity ended.
pub open spec fn quiet_since_last(b: BandPulsesModel, start: int, quiet_ms: u64) -> bool {
    match b.last_active_end_ms {
        Some(last) => start >= last + quiet_ms || (start < last && quiet_ms == 0),
        None => false,
    }
}

/// An active band marked as following a quiet spell started at least
/// `quiet_ms` after its previous activity ended.
pub open spec fn quiet_recorded(b: BandPulsesModel, quiet_ms: u64) -> bool {
    b.active && b.quiet_before_start ==> match (b.last_active_end_ms, b.burst_start_ms) {
        (Some(last), Some(start)) => start >= last + quiet_ms || (start < last && quiet_ms == 0),
        _ => false,
    }
}

pub open spec fn all_quiet_recorded(bands: Seq<BandPulsesModel>, quiet_ms: u64) -> bool {
    forall|j: int| 0 <= j < bands.len() ==> quiet_recorded(#[trigger] bands[j], quiet_ms)
}

proof fn lemma_peaks_keep_quiet(
    bands: Seq<BandPulsesModel>,
    keys: Seq<(u64, u64)>,
    now_ms: u64,
    quiet_ms: u64,
    window_ms: u64,
    min_count: usize,
)
    requires
        all_quiet_recorded(bands, quiet_ms),
    ensures
        all_quiet_recorded(peaks_step(bands, keys, now_ms, quiet_ms, window_ms, min_count).0, quiet_ms),
    decreases keys.len(),
{
    if keys.len() > 0 {
        lemma_peaks_keep_quiet(bands, keys.drop_last(), now_ms, quiet_ms, window_ms, min_count);
        let b1 = peaks_step(bands, keys.drop_last(), now_ms, quiet_ms, window_ms, min_count).0;
        let key = keys.last();
        let b2 = peak_step(b1, key, now_ms, quiet_ms, window_ms, min_count).0;
        lemma_find_pulse_band_facts(b1, key);
        match find_pulse_band(b1, key) {
            Some(i) => {
                assert(quiet_recorded(b1[i], quiet_ms));
                assert forall|j: int| 0 <= j < b2.len() implies quiet_recorded(#[trigger] b2[j], quiet_ms) by {
                    if j != i {
                        assert(b2[j] == b1[j]);
                    }
                }
            },
            None => {
                assert forall|j: int| 0 <= j < b2.len() implies quiet_recorded(#[trigger] b2[j], quiet_ms) by {
                    if j < b1.len() {
                        assert(b2[j] == b1[j]);
                    }
                }
            },
        }
    }
}

/// Bursts follow quiet, over a whole sweep: when every band's quiet mark is
/// backed by its history (as in a new tracker, which has no bands), that stays
/// so after the sweep, and every ending the sweep reports as a burst started
/// at least `quiet_ms` after the band's previous activity ended.
pub proof fn lemma_sweep_bursts_follow_quiet(
    bands: Seq<BandPulsesModel>,
    keys: Seq<(u64, u64)>,
    now_ms: u64,
    quiet_ms: u64,
    window_ms: u64,
    min_count: usize,
    max_burst_ms: u64,
)
    requires
        all_quiet_recorded(bands, quiet_ms),
    ensures
        ({
            let touched = peaks_step(bands, keys, now_ms, quiet_ms, window_ms, min_count).0;
            let ends = endings(touched, keys, now_ms, max_burst_ms, touched.len() as int);
            &&& all_quiet_recorded(close_bands(touched, keys, now_ms), quiet_ms)
            &&& forall|k: int|
                0 <= k < ends.len() && (#[trigger] ends[k]).burst ==> exists|j: int|
                    #![trigger touched[j]]
                    0 <= j < touched.len() && touched[j].frequency_start_hz == ends[k].frequency_start_hz
                        && touched[j].frequency_end_hz == ends[k].frequency_end_hz && quiet_since_last(
                        touched[j],
                        now_ms - ends[k].duration_ms,
                        quiet_ms,
                    )
        }),
{
    lemma_peaks_keep_quiet(bands, keys, now_ms, quiet_ms, window_ms, min_count);
    let touched = peaks_step(bands, keys, now_ms, quiet_ms, window_ms, min_count).0;
    let closed = close_bands(touched, keys, now_ms);
    assert forall|j: int| 0 <= j < closed.len() implies quiet_recorded(#[trigger] closed[j], quiet_ms) by {
        assert(quiet_recorded(touched[j], quiet_ms));
    }
    let ends = endings(touched, keys, now_ms, max_burst_ms, touched.len() as int);
    assert forall|k: int| 0 <= k < ends.len() && (#[trigger] ends[k]).burst implies exists|j: int|
        #![trigger touched[j]]
        0 <= j < touched.len() && touched[j].frequency_start_hz == ends[k].frequency_start_hz
            && touched[j].frequency_end_hz == ends[k].frequency_end_hz && quiet_since_last(
            touched[j],
            now_ms - ends[k].duration_ms,
            quiet_ms,
        ) by {
        lemma_burst_end_facts(touched, keys, now_ms, max_burst_ms, touched.len() as int, k);
        let j = choose|j: int|
            #![trigger touched[j]]
            0 <= j < touched.len() && {
                let e = ends[k];
                &&& touched[j].active
                &&& touched[j].quiet_before_start
                &&& e.frequency_start_hz == touched[j].frequency_start_hz
                &&& e.frequency_end_hz == touched[j].frequency_end_hz
                &&& 0 < e.duration_ms <= max_burst_ms
                &&& e.duration_ms <= now_ms
                &&& touched[j].burst_start_ms == Some((now_ms - e.duration_ms) as u64)
            };
        assert(quiet_recorded(touched[j], quiet_ms));
        let last = touched[j].last_active_end_ms.unwrap();
        assert((now_ms - ends[k].duration_ms >= last + quiet_ms) || (now_ms - ends[k].duration_ms < last && quiet_ms == 0));
        assert(touched[j].last_active_end_ms == Some(last));
    }
}
} // verus!
