//! Band correlation state and the scoring rules behind IGOR assessments.
//!
//! Power readings are carried as order keys: integers that order the same way
//! as the readings they stand for, so the strongest reading can be found and
//! reported without arithmetic on the readings themselves.
use vstd::prelude::*;
use std::collections::VecDeque;
use crate::models::{AlertSeverity, AnomalyType, IgorFindingKind};
use crate::text::{push_decimal, push_str};

verus! {

/// A peak remembered for a band.
#[derive(Clone, Copy, Debug, PartialEq, Eq, Structural)]
pub struct PeakObservation {
    pub detected_at_ms: u64,
    pub power_key: u32,
}

/// An anomaly remembered for a band.
#[derive(Clone, Copy, Debug, PartialEq, Eq, Structural)]
pub struct AnomalyObservation {
    pub detected_at_ms: u64,
    pub source_sequence: u64,
    pub anomaly_type: AnomalyType,
    pub severity: AlertSeverity,
    pub power_key: u32,
}

/// What is remembered about one frequency band.
#[derive(Debug)]
pub struct BandContext {
    pub frequency_start_hz: u64,
    pub frequency_end_hz: u64,
    pub first_seen_ms: Option<u64>,
    pub last_seen_ms: Option<u64>,
    pub recent_peaks: VecDeque<PeakObservation>,
    pub recent_anomalies: VecDeque<AnomalyObservation>,
    pub last_emitted_score: Option<u32>,
    pub last_emitted_severity: Option<AlertSeverity>,
    pub last_emitted_kind: Option<IgorFindingKind>,
}

/// The mathematical content of a [`BandContext`].
pub struct BandModel {
    pub frequency_start_hz: u64,
    pub frequency_end_hz: u64,
    pub first_seen_ms: Option<u64>,
    pub last_seen_ms: Option<u64>,
    pub peaks: Seq<PeakObservation>,
    pub anomalies: Seq<AnomalyObservation>,
    pub last_emitted_score: Option<u32>,
    pub last_emitted_severity: Option<AlertSeverity>,
    pub last_emitted_kind: Option<IgorFindingKind>,
}

impl BandContext {
    pub open spec fn model(&self) -> BandModel {
        BandModel {
            frequency_start_hz: self.frequency_start_hz,
            frequency_end_hz: self.frequency_end_hz,
            first_seen_ms: self.first_seen_ms,
            last_seen_ms: self.last_seen_ms,
            peaks: self.recent_peaks@,
            anomalies: self.recent_anomalies@,
            last_emitted_score: self.last_emitted_score,
            last_emitted_severity: self.last_emitted_severity,
            last_emitted_kind: self.last_emitted_kind,
        }
    }
}

// ---------------------------------------------------------------------------
// Scoring rules
// ---------------------------------------------------------------------------

/// Points contributed by the most severe anomaly.
pub open spec fn severity_weight_spec(s: AlertSeverity) -> u32 {
    match s {
        AlertSeverity::Low => 10,
        AlertSeverity::Medium => 18,
        AlertSeverity::High => 28,
        AlertSeverity::Critical => 40,
    }
}

pub fn severity_weight(severity: AlertSeverity) -> (w: u32)
    ensures
        w == severity_weight_spec(severity),
{
    match severity {
        AlertSeverity::Low => 10,
        AlertSeverity::Medium => 18,
        AlertSeverity::High => 28,
        AlertSeverity::Critical => 40,
    }
}

/// Severity bands of the risk score: 85+, 65+, 45+, below.
pub open spec fn severity_from_score_spec(score: u32) -> AlertSeverity {
    if score >= 85 {
        AlertSeverity::Critical
    } else if score >= 65 {
        AlertSeverity::High
    } else if score >= 45 {
        AlertSeverity::Medium
    } else {
        AlertSeverity::Low
    }
}

pub fn severity_from_score(score: u32) -> (s: AlertSeverity)
    ensures
        s == severity_from_score_spec(score),
{
    if score >= 85 {
        AlertSeverity::Critical
    } else if score >= 65 {
        AlertSeverity::High
    } else if score >= 45 {
        AlertSeverity::Medium
    } else {
        AlertSeverity::Low
    }
}

/// A higher score never maps to a lower severity.
pub proof fn lemma_severity_monotone(a: u32, b: u32)
    requires
        a <= b,
    ensures
        severity_weight_spec(severity_from_score_spec(a)) <= severity_weight_spec(
            severity_from_score_spec(b),
        ),
{
}

pub open spec fn has_type(anomalies: Seq<AnomalyObservation>, t: AnomalyType) -> bool {
    exists|i: int| 0 <= i < anomalies.len() && #[trigger] anomalies[i].anomaly_type == t
}

pub open spec fn opt_type(anomalies: Seq<AnomalyObservation>, t: AnomalyType) -> Seq<AnomalyType> {
    if has_type(anomalies, t) { seq![t] } else { Seq::<AnomalyType>::empty() }
}

/// The anomaly types present, each once, in the order burst, spike,
/// occupancy, repeated pulses.
pub open spec fn distinct_types_spec(anomalies: Seq<AnomalyObservation>) -> Seq<AnomalyType> {
    opt_type(anomalies, AnomalyType::BurstActivity) + opt_type(anomalies, AnomalyType::PowerSpike)
        + opt_type(anomalies, AnomalyType::AbnormalOccupancy) + opt_type(
        anomalies,
        AnomalyType::RepeatedPulses,
    )
}

/// The distinct anomaly types seen in a band.
pub fn distinct_anomaly_types(anomalies: &VecDeque<AnomalyObservation>) -> (r: Vec<AnomalyType>)
    ensures
        r@ == distinct_types_spec(anomalies@),
{
    let mut burst = false;
    let mut spike = false;
    let mut occupancy = false;
    let mut repeated = false;
    let mut i: usize = 0;
    while i < anomalies.len()
        invariant
            0 <= i <= anomalies@.len(),
            burst <==> exists|j: int| 0 <= j < i && #[trigger] anomalies@[j].anomaly_type == AnomalyType::BurstActivity,
            spike <==> exists|j: int| 0 <= j < i && #[trigger] anomalies@[j].anomaly_type == AnomalyType::PowerSpike,
            occupancy <==> exists|j: int| 0 <= j < i && #[trigger] anomalies@[j].anomaly_type == AnomalyType::AbnormalOccupancy,
            repeated <==> exists|j: int| 0 <= j < i && #[trigger] anomalies@[j].anomaly_type == AnomalyType::RepeatedPulses,
        decreases anomalies@.len() - i,
    {
        let t = anomalies[i].anomaly_type;
        match t {
            AnomalyType::BurstActivity => burst = true,
            AnomalyType::PowerSpike => spike = true,
            AnomalyType::AbnormalOccupancy => occupancy = true,
            AnomalyType::RepeatedPulses => repeated = true,
        }
        i = i + 1;
    }
    let mut r: Vec<AnomalyType> = Vec::new();
    if burst {
        r.push(AnomalyType::BurstActivity);
    }
    if spike {
        r.push(AnomalyType::PowerSpike);
    }
    if occupancy {
        r.push(AnomalyType::AbnormalOccupancy);
    }
    if repeated {
        r.push(AnomalyType::RepeatedPulses);
    }
    assert(r@ =~= distinct_types_spec(anomalies@));
    r
}

/// How long the band has been active: from the earliest of its first sighting
/// and its oldest remembered peak and anomaly, to its last sighting.
pub open spec fn span_spec(b: BandModel) -> Option<u64> {
    match (b.first_seen_ms, b.last_seen_ms) {
        (Some(first), Some(last)) => {
            let p = if b.peaks.len() > 0 { b.peaks[0].detected_at_ms } else { u64::MAX };
            let a = if b.anomalies.len() > 0 { b.anomalies[0].detected_at_ms } else { u64::MAX };
            let m1 = if first < p { first } else { p };
            let m = if m1 < a { m1 } else { a };
            Some(if last >= m { (last - m) as u64 } else { 0 })
        },
        _ => None,
    }
}

pub fn span_ms(ctx: &BandContext) -> (r: Option<u64>)
    ensures
        r == span_spec(ctx.model()),
{
    match (ctx.first_seen_ms, ctx.last_seen_ms) {
        (Some(first), Some(last)) => {
            let p = if ctx.recent_peaks.len() > 0 { ctx.recent_peaks[0].detected_at_ms } else { u64::MAX };
            let a = if ctx.recent_anomalies.len() > 0 {
                ctx.recent_anomalies[0].detected_at_ms
            } else {
                u64::MAX
            };
            let m1 = if first < p { first } else { p };
            let m = if m1 < a { m1 } else { a };
            Some(last.saturating_sub(m))
        },
        _ => None,
    }
}

pub open spec fn persistent_spec(b: BandModel, persistence_window_ms: u64) -> bool {
    match span_spec(b) {
        Some(span) => span >= persistence_window_ms,
        None => false,
    }
}

/// Which finding a band supports, if any.
pub open spec fn classify_spec(b: BandModel, min_peak_count: usize, persistence_window_ms: u64) -> Option<
    IgorFindingKind,
> {
    let types = distinct_types_spec(b.anomalies);
    if has_type(b.anomalies, AnomalyType::RepeatedPulses) && has_type(b.anomalies, AnomalyType::PowerSpike)
        && has_type(b.anomalies, AnomalyType::AbnormalOccupancy) {
        Some(IgorFindingKind::CoordinatedEmitter)
    } else if persistent_spec(b, persistence_window_ms) && b.anomalies.len() >= 2 {
        Some(IgorFindingKind::PersistentEmitter)
    } else if types.len() >= 2 && b.peaks.len() >= min_peak_count {
        Some(IgorFindingKind::EscalatingBandActivity)
    } else {
        None
    }
}

proof fn lemma_distinct_types_has(anomalies: Seq<AnomalyObservation>)
    ensures
        distinct_types_spec(anomalies).contains(AnomalyType::RepeatedPulses) <==> has_type(
            anomalies,
            AnomalyType::RepeatedPulses,
        ),
        distinct_types_spec(anomalies).contains(AnomalyType::PowerSpike) <==> has_type(
            anomalies,
            AnomalyType::PowerSpike,
        ),
        distinct_types_spec(anomalies).contains(AnomalyType::AbnormalOccupancy) <==> has_type(
            anomalies,
            AnomalyType::AbnormalOccupancy,
        ),
        distinct_types_spec(anomalies).len() <= 4,
{
    let d = distinct_types_spec(anomalies);
    let b = opt_type(anomalies, AnomalyType::BurstActivity);
    let s = opt_type(anomalies, AnomalyType::PowerSpike);
    let o = opt_type(anomalies, AnomalyType::AbnormalOccupancy);
    let r = opt_type(anomalies, AnomalyType::RepeatedPulses);
    assert(d == b + s + o + r);
    assert forall|t: AnomalyType| d.contains(t) <==> has_type(anomalies, t) by {
        if has_type(anomalies, t) {
            match t {
                AnomalyType::BurstActivity => assert(d[0] == t),
                AnomalyType::PowerSpike => assert(d[b.len() as int] == t),
                AnomalyType::AbnormalOccupancy => assert(d[(b.len() + s.len()) as int] == t),
                AnomalyType::RepeatedPulses => assert(d[(b.len() + s.len() + o.len()) as int] == t),
            }
        }
        if d.contains(t) {
            let k = choose|k: int| 0 <= k < d.len() && d[k] == t;
            if k < b.len() {
                assert(b[k] == t);
            } else if k < b.len() + s.len() {
                assert(s[k - b.len()] == t);
            } else if k < b.len() + s.len() + o.len() {
                assert(o[k - b.len() - s.len()] == t);
            } else {
                assert(r[k - b.len() - s.len() - o.len()] == t);
            }
        }
    }
}

pub fn classify_band(ctx: &BandContext, min_peak_count: usize, persistence_window_ms: u64) -> (r: Option<
    IgorFindingKind,
>)
    ensures
        r == classify_spec(ctx.model(), min_peak_count, persistence_window_ms),
{
    let types = distinct_anomaly_types(&ctx.recent_anomalies);
    proof {
        lemma_distinct_types_has(ctx.recent_anomalies@);
    }
    let has_repeated = contains_type(&types, AnomalyType::RepeatedPulses);
    let has_spike = contains_type(&types, AnomalyType::PowerSpike);
    let has_occupancy = contains_type(&types, AnomalyType::AbnormalOccupancy);
    let persistent = match span_ms(ctx) {
        Some(span) => span >= persistence_window_ms,
        None => false,
    };
    if has_repeated && has_spike && has_occupancy {
        Some(IgorFindingKind::CoordinatedEmitter)
    } else if persistent && ctx.recent_anomalies.len() >= 2 {
        Some(IgorFindingKind::PersistentEmitter)
    } else if types.len() >= 2 && ctx.recent_peaks.len() >= min_peak_count {
        Some(IgorFindingKind::EscalatingBandActivity)
    } else {
        None
    }
}

fn contains_type(types: &Vec<AnomalyType>, t: AnomalyType) -> (b: bool)
    ensures
        b == types@.contains(t),
{
    let mut i: usize = 0;
    while i < types.len()
        invariant
            0 <= i <= types.len(),
            forall|j: int| 0 <= j < i ==> types@[j] != t,
        decreases types.len() - i,
    {
        if types[i] == t {
            return true;
        }
        i = i + 1;
    }
    false
}

/// The largest severity weight among the anomalies (0 when there are none).
pub open spec fn max_severity_weight(anomalies: Seq<AnomalyObservation>) -> u32
    decreases anomalies.len(),
{
    if anomalies.len() == 0 {
        0
    } else {
        let rest = max_severity_weight(anomalies.drop_last());
        let w = severity_weight_spec(anomalies.last().severity);
        if w > rest { w } else { rest }
    }
}

pub open spec fn min_int(a: int, b: int) -> int {
    if a < b { a } else { b }
}

/// The risk score of a band: the worst severity, the variety and number of
/// anomalies, the peak count, persistence, and agreement between anomaly
/// types, capped at 100.
pub open spec fn score_spec(b: BandModel, min_peak_count: usize, persistence_window_ms: u64) -> u32 {
    let types = distinct_types_spec(b.anomalies);
    let anomaly_count = b.anomalies.len() as u32;
    let peak_count = b.peaks.len() as u32;
    let type_score = min_int(types.len() as int * 12, 36);
    let anomaly_score = min_int(anomaly_count as int * 8, 24);
    let peak_score: int = if peak_count >= min_peak_count as u32 { 10 } else { 0 };
    let persistence_score: int = if persistent_spec(b, persistence_window_ms) { 15 } else { 0 };
    let synergy_score: int = if has_type(b.anomalies, AnomalyType::RepeatedPulses) && has_type(
        b.anomalies,
        AnomalyType::PowerSpike,
    ) && has_type(b.anomalies, AnomalyType::AbnormalOccupancy) {
        20
    } else if types.len() >= 2 {
        10
    } else {
        0
    };
    min_int(
        max_severity_weight(b.anomalies) + type_score + anomaly_score + peak_score + persistence_score
            + synergy_score,
        100,
    ) as u32
}

pub fn score_band(ctx: &BandContext, min_peak_count: usize, persistence_window_ms: u64) -> (score: u32)
    ensures
        score == score_spec(ctx.model(), min_peak_count, persistence_window_ms),
        score <= 100,
{
    let types = distinct_anomaly_types(&ctx.recent_anomalies);
    proof {
        lemma_distinct_types_has(ctx.recent_anomalies@);
    }
    let anomaly_count = ctx.recent_anomalies.len() as u32;
    let peak_count = ctx.recent_peaks.len() as u32;
    let mut weight: u32 = 0;
    let mut i: usize = 0;
    while i < ctx.recent_anomalies.len()
        invariant
            0 <= i <= ctx.recent_anomalies@.len(),
            weight == max_severity_weight(ctx.recent_anomalies@.take(i as int)),
            weight <= 40,
        decreases ctx.recent_anomalies@.len() - i,
    {
        let w = severity_weight(ctx.recent_anomalies[i].severity);
        proof {
            assert(ctx.recent_anomalies@.take(i + 1).drop_last() =~= ctx.recent_anomalies@.take(i as int));
        }
        if w > weight {
            weight = w;
        }
        i = i + 1;
    }
    proof {
        assert(ctx.recent_anomalies@.take(i as int) =~= ctx.recent_anomalies@);
    }
    let type_score: u32 = if types.len() >= 3 { 36 } else { types.len() as u32 * 12 };
    let anomaly_score: u32 = if anomaly_count >= 3 { 24 } else { anomaly_count * 8 };
    let peak_score: u32 = if peak_count >= min_peak_count as u32 { 10 } else { 0 };
    let persistence_score: u32 = match span_ms(ctx) {
        Some(span) => if span >= persistence_window_ms { 15 } else { 0 },
        None => 0,
    };
    let has_repeated = contains_type(&types, AnomalyType::RepeatedPulses);
    let has_spike = contains_type(&types, AnomalyType::PowerSpike);
    let has_occupancy = contains_type(&types, AnomalyType::AbnormalOccupancy);
    let synergy_score: u32 = if has_repeated && has_spike && has_occupancy {
        20
    } else if types.len() >= 2 {
        10
    } else {
        0
    };
    let total = weight + type_score + anomaly_score + peak_score + persistence_score + synergy_score;
    if total < 100 { total } else { 100 }
}

/// Whether a finding is news for the band: nothing was reported before, or the
/// kind or severity changed, or the score rose by at least 10.
pub open spec fn should_emit_spec(b: BandModel, kind: IgorFindingKind, severity: AlertSeverity, score: u32) -> bool {
    match (b.last_emitted_kind, b.last_emitted_severity, b.last_emitted_score) {
        (None, _, _) => true,
        (Some(pk), Some(ps), Some(pscore)) => pk != kind || ps != severity || score as int >= (
        if pscore as int + 10 > u32::MAX { u32::MAX as int } else { pscore as int + 10 }),
        _ => true,
    }
}

pub fn should_emit(ctx: &BandContext, kind: IgorFindingKind, severity: AlertSeverity, score: u32) -> (b: bool)
    ensures
        b == should_emit_spec(ctx.model(), kind, severity, score),
{
    match (ctx.last_emitted_kind, ctx.last_emitted_severity, ctx.last_emitted_score) {
        (None, _, _) => true,
        (Some(pk), Some(ps), Some(pscore)) => pk != kind || ps != severity || score >= pscore.saturating_add(10),
        _ => true,
    }
}

} // verus!

verus! {

// ---------------------------------------------------------------------------
// Band state transitions
// ---------------------------------------------------------------------------

/// A peak handed to the engine.
#[derive(Clone, Copy, Debug, PartialEq, Eq, Structural)]
pub struct PeakInput {
    pub frequency_start_hz: u64,
    pub frequency_end_hz: u64,
    pub detected_at_ms: u64,
    pub power_key: u32,
}

/// An anomaly handed to the engine.
#[derive(Clone, Copy, Debug, PartialEq, Eq, Structural)]
pub struct AnomalyInput {
    pub frequency_start_hz: u64,
    pub frequency_end_hz: u64,
    pub detected_at_ms: u64,
    pub source_sequence: u64,
    pub anomaly_type: AnomalyType,
    pub severity: AlertSeverity,
    pub power_key: u32,
}

/// Drops the remembered peaks older than `cutoff`, oldest first.
pub open spec fn prune_peaks_spec(s: Seq<PeakObservation>, cutoff: u64) -> Seq<PeakObservation>
    decreases s.len(),
{
    if s.len() > 0 && s[0].detected_at_ms < cutoff {
        prune_peaks_spec(s.drop_first(), cutoff)
    } else {
        s
    }
}

/// Drops the remembered anomalies older than `cutoff`, oldest first.
pub open spec fn prune_anomalies_spec(s: Seq<AnomalyObservation>, cutoff: u64) -> Seq<AnomalyObservation>
    decreases s.len(),
{
    if s.len() > 0 && s[0].detected_at_ms < cutoff {
        prune_anomalies_spec(s.drop_first(), cutoff)
    } else {
        s
    }
}

fn prune_peaks(q: &mut VecDeque<PeakObservation>, cutoff: u64)
    ensures
        final(q)@ == prune_peaks_spec(old(q)@, cutoff),
{
    while q.len() > 0 && q[0].detected_at_ms < cutoff
        invariant
            prune_peaks_spec(q@, cutoff) == prune_peaks_spec(old(q)@, cutoff),
        decreases q@.len(),
    {
        let ghost before = q@;
        let _ = q.pop_front();
        assert(q@ =~= before.drop_first());
    }
}

fn prune_anomalies(q: &mut VecDeque<AnomalyObservation>, cutoff: u64)
    ensures
        final(q)@ == prune_anomalies_spec(old(q)@, cutoff),
{
    while q.len() > 0 && q[0].detected_at_ms < cutoff
        invariant
            prune_anomalies_spec(q@, cutoff) == prune_anomalies_spec(old(q)@, cutoff),
        decreases q@.len(),
    {
        let ghost before = q@;
        let _ = q.pop_front();
        assert(q@ =~= before.drop_first());
    }
}

pub open spec fn models(v: Seq<BandContext>) -> Seq<BandModel> {
    v.map_values(|c: BandContext| c.model())
}

pub open spec fn has_key(b: BandModel, start: u64, end: u64) -> bool {
    b.frequency_start_hz == start && b.frequency_end_hz == end
}

/// The position of the band `(start, end)`, if it is remembered.
pub open spec fn find_band_spec(bands: Seq<BandModel>, start: u64, end: u64) -> Option<int>
    decreases bands.len(),
{
    if bands.len() == 0 {
        None
    } else {
        match find_band_spec(bands.drop_last(), start, end) {
            Some(i) => Some(i),
            None => if has_key(bands.last(), start, end) {
                Some(bands.len() - 1)
            } else {
                None
            },
        }
    }
}

/// No two remembered bands share a frequency range.
pub open spec fn keys_unique(bands: Seq<BandModel>) -> bool {
    forall|i: int, j: int|
        #![trigger bands[i], bands[j]]
        0 <= i < j < bands.len() ==> !has_key(bands[i], bands[j].frequency_start_hz, bands[j].frequency_end_hz)
}

proof fn lemma_find_band_facts(bands: Seq<BandModel>, start: u64, end: u64)
    ensures
        match find_band_spec(bands, start, end) {
            Some(i) => 0 <= i < bands.len() && has_key(bands[i], start, end) && forall|j: int|
                0 <= j < i ==> !has_key(#[trigger] bands[j], start, end),
            None => forall|j: int| 0 <= j < bands.len() ==> !has_key(#[trigger] bands[j], start, end),
        },
    decreases bands.len(),
{
    if bands.len() > 0 {
        lemma_find_band_facts(bands.drop_last(), start, end);
        assert forall|j: int| 0 <= j < bands.len() - 1 implies bands.drop_last()[j] == bands[j] by {}
    }
}

proof fn lemma_find_band_prefix(bands: Seq<BandModel>, k: int, start: u64, end: u64)
    requires
        0 <= k <= bands.len(),
        find_band_spec(bands.take(k), start, end).is_some(),
    ensures
        find_band_spec(bands, start, end) == find_band_spec(bands.take(k), start, end),
    decreases bands.len() - k,
{
    if k < bands.len() {
        assert(bands.take(k + 1).drop_last() =~= bands.take(k));
        lemma_find_band_prefix(bands, k + 1, start, end);
    } else {
        assert(bands.take(k) =~= bands);
    }
}

fn find_band(bands: &Vec<BandContext>, start: u64, end: u64) -> (r: Option<usize>)
    ensures
        match r {
            Some(i) => find_band_spec(models(bands@), start, end) == Some(i as int),
            None => find_band_spec(models(bands@), start, end).is_none(),
        },
{
    let ghost m = models(bands@);
    let mut i: usize = 0;
    while i < bands.len()
        invariant
            0 <= i <= bands.len(),
            m == models(bands@),
            find_band_spec(m.take(i as int), start, end).is_none(),
        decreases bands.len() - i,
    {
        proof {
            assert(m.take(i + 1).drop_last() =~= m.take(i as int));
            assert(m.take(i + 1).last() == bands@[i as int].model());
        }
        if bands[i].frequency_start_hz == start && bands[i].frequency_end_hz == end {
            proof {
                lemma_find_band_prefix(m, i + 1, start, end);
            }
            return Some(i);
        }
        i = i + 1;
    }
    proof {
        assert(m.take(i as int) =~= m);
    }
    None
}

/// A band nothing is remembered about yet.
pub open spec fn empty_band(start: u64, end: u64) -> BandModel {
    BandModel {
        frequency_start_hz: start,
        frequency_end_hz: end,
        first_seen_ms: None,
        last_seen_ms: None,
        peaks: Seq::<PeakObservation>::empty(),
        anomalies: Seq::<AnomalyObservation>::empty(),
        last_emitted_score: None,
        last_emitted_severity: None,
        last_emitted_kind: None,
    }
}

fn new_band(start: u64, end: u64) -> (c: BandContext)
    ensures
        c.model() == empty_band(start, end),
{
    BandContext {
        frequency_start_hz: start,
        frequency_end_hz: end,
        first_seen_ms: None,
        last_seen_ms: None,
        recent_peaks: VecDeque::new(),
        recent_anomalies: VecDeque::new(),
        last_emitted_score: None,
        last_emitted_severity: None,
        last_emitted_kind: None,
    }
}

/// A band after a peak was seen in it at `now_ms`.
pub open spec fn touch_peak(b: BandModel, p: PeakInput, now_ms: u64, cutoff: u64) -> BandModel {
    BandModel {
        first_seen_ms: Some(
            match b.first_seen_ms {
                Some(f) => f,
                None => now_ms,
            },
        ),
        last_seen_ms: Some(now_ms),
        peaks: prune_peaks_spec(
            b.peaks.push(PeakObservation { detected_at_ms: p.detected_at_ms, power_key: p.power_key }),
            cutoff,
        ),
        ..b
    }
}

/// A band after an anomaly was seen in it at `now_ms`.
pub open spec fn touch_anomaly(b: BandModel, a: AnomalyInput, now_ms: u64, cutoff: u64) -> BandModel {
    BandModel {
        first_seen_ms: Some(
            match b.first_seen_ms {
                Some(f) => f,
                None => now_ms,
            },
        ),
        last_seen_ms: Some(now_ms),
        anomalies: prune_anomalies_spec(
            b.anomalies.push(
                AnomalyObservation {
                    detected_at_ms: a.detected_at_ms,
                    source_sequence: a.source_sequence,
                    anomaly_type: a.anomaly_type,
                    severity: a.severity,
                    power_key: a.power_key,
                },
            ),
            cutoff,
        ),
        ..b
    }
}

/// The bands after one peak: its band is updated, or added when new.
pub open spec fn observe_peak_spec(bands: Seq<BandModel>, p: PeakInput, now_ms: u64, cutoff: u64) -> Seq<
    BandModel,
> {
    match find_band_spec(bands, p.frequency_start_hz, p.frequency_end_hz) {
        Some(i) => bands.update(i, touch_peak(bands[i], p, now_ms, cutoff)),
        None => bands.push(
            touch_peak(empty_band(p.frequency_start_hz, p.frequency_end_hz), p, now_ms, cutoff),
        ),
    }
}

/// The bands after one anomaly.
pub open spec fn observe_anomaly_spec(
    bands: Seq<BandModel>,
    a: AnomalyInput,
    now_ms: u64,
    cutoff: u64,
) -> Seq<BandModel> {
    match find_band_spec(bands, a.frequency_start_hz, a.frequency_end_hz) {
        Some(i) => bands.update(i, touch_anomaly(bands[i], a, now_ms, cutoff)),
        None => bands.push(
            touch_anomaly(empty_band(a.frequency_start_hz, a.frequency_end_hz), a, now_ms, cutoff),
        ),
    }
}

pub open spec fn observe_peaks_spec(bands: Seq<BandModel>, ps: Seq<PeakInput>, now_ms: u64, cutoff: u64) -> Seq<
    BandModel,
>
    decreases ps.len(),
{
    if ps.len() == 0 {
        bands
    } else {
        observe_peak_spec(observe_peaks_spec(bands, ps.drop_last(), now_ms, cutoff), ps.last(), now_ms, cutoff)
    }
}

pub open spec fn observe_anomalies_spec(
    bands: Seq<BandModel>,
    xs: Seq<AnomalyInput>,
    now_ms: u64,
    cutoff: u64,
) -> Seq<BandModel>
    decreases xs.len(),
{
    if xs.len() == 0 {
        bands
    } else {
        observe_anomaly_spec(
            observe_anomalies_spec(bands, xs.drop_last(), now_ms, cutoff),
            xs.last(),
            now_ms,
            cutoff,
        )
    }
}

/// A band with its expired observations dropped.
pub open spec fn prune_band(b: BandModel, cutoff: u64) -> BandModel {
    BandModel {
        peaks: prune_peaks_spec(b.peaks, cutoff),
        anomalies: prune_anomalies_spec(b.anomalies, cutoff),
        ..b
    }
}

/// A (pruned) band is kept while it was seen within the window or still holds
/// observations.
pub open spec fn band_active(b: BandModel, cutoff: u64) -> bool {
    (match b.last_seen_ms {
        Some(l) => l >= cutoff,
        None => false,
    }) || b.peaks.len() > 0 || b.anomalies.len() > 0
}

/// The bands after dropping expired observations and inactive bands.
pub open spec fn retain_active_spec(bands: Seq<BandModel>, cutoff: u64) -> Seq<BandModel>
    decreases bands.len(),
{
    if bands.len() == 0 {
        bands
    } else {
        let rest = retain_active_spec(bands.drop_last(), cutoff);
        let b = prune_band(bands.last(), cutoff);
        if band_active(b, cutoff) { rest.push(b) } else { rest }
    }
}

} // verus!

verus! {

/// Correlates peaks and anomalies per band over a sliding window.
pub struct IgorEngine {
    correlation_window_ms: u64,
    persistence_window_ms: u64,
    min_peak_count: usize,
    score_threshold: u32,
    bands: Vec<BandContext>,
}

fn touch_peak_exec(ctx: &mut BandContext, p: &PeakInput, now_ms: u64, cutoff: u64)
    ensures
        final(ctx).model() == touch_peak(old(ctx).model(), *p, now_ms, cutoff),
{
    if ctx.first_seen_ms.is_none() {
        ctx.first_seen_ms = Some(now_ms);
    }
    ctx.last_seen_ms = Some(now_ms);
    ctx.recent_peaks.push_back(PeakObservation { detected_at_ms: p.detected_at_ms, power_key: p.power_key });
    prune_peaks(&mut ctx.recent_peaks, cutoff);
}

fn touch_anomaly_exec(ctx: &mut BandContext, a: &AnomalyInput, now_ms: u64, cutoff: u64)
    ensures
        final(ctx).model() == touch_anomaly(old(ctx).model(), *a, now_ms, cutoff),
{
    if ctx.first_seen_ms.is_none() {
        ctx.first_seen_ms = Some(now_ms);
    }
    ctx.last_seen_ms = Some(now_ms);
    ctx.recent_anomalies.push_back(
        AnomalyObservation {
            detected_at_ms: a.detected_at_ms,
            source_sequence: a.source_sequence,
            anomaly_type: a.anomaly_type,
            severity: a.severity,
            power_key: a.power_key,
        },
    );
    prune_anomalies(&mut ctx.recent_anomalies, cutoff);
}

proof fn lemma_models_replace(v: Seq<BandContext>, w: Seq<BandContext>, i: int, c: BandContext)
    requires
        0 <= i < v.len(),
        w == v.remove(i).insert(i, c),
    ensures
        models(w) == models(v).update(i, c.model()),
{
    assert(models(w) =~= models(v).update(i, c.model()));
}

impl IgorEngine {
    /// An engine with no bands remembered.
    pub fn new(
        correlation_window_ms: u64,
        persistence_window_ms: u64,
        min_peak_count: usize,
        score_threshold: u32,
    ) -> (e: Self)
        ensures
            e.bands_model() == Seq::<BandModel>::empty(),
            e.correlation_window_ms() == correlation_window_ms,
            e.persistence_window_ms() == persistence_window_ms,
            e.min_peak_count() == min_peak_count,
            e.score_threshold() == score_threshold,
    {
        let e = IgorEngine {
            correlation_window_ms,
            persistence_window_ms,
            min_peak_count,
            score_threshold,
            bands: Vec::new(),
        };
        assert(models(e.bands@) =~= Seq::<BandModel>::empty());
        e
    }

    pub closed spec fn bands_model(&self) -> Seq<BandModel> {
        models(self.bands@)
    }

    pub closed spec fn correlation_window_ms(&self) -> u64 {
        self.correlation_window_ms
    }

    pub closed spec fn persistence_window_ms(&self) -> u64 {
        self.persistence_window_ms
    }

    pub closed spec fn min_peak_count(&self) -> usize {
        self.min_peak_count
    }

    pub closed spec fn score_threshold(&self) -> u32 {
        self.score_threshold
    }

    fn observe_peak(&mut self, p: &PeakInput, now_ms: u64, cutoff: u64)
        ensures
            models(final(self).bands@) == observe_peak_spec(models(old(self).bands@), *p, now_ms, cutoff),
            final(self).correlation_window_ms == old(self).correlation_window_ms,
            final(self).persistence_window_ms == old(self).persistence_window_ms,
            final(self).min_peak_count == old(self).min_peak_count,
            final(self).score_threshold == old(self).score_threshold,
    {
        proof {
            lemma_find_band_facts(models(self.bands@), p.frequency_start_hz, p.frequency_end_hz);
        }
        match find_band(&self.bands, p.frequency_start_hz, p.frequency_end_hz) {
            Some(i) => {
                let ghost before = self.bands@;
                let mut ctx = self.bands.remove(i);
                assert(ctx.model() == models(before)[i as int]);
                touch_peak_exec(&mut ctx, p, now_ms, cutoff);
                self.bands.insert(i, ctx);
                proof {
                    lemma_models_replace(before, self.bands@, i as int, ctx);
                }
            },
            None => {
                let mut ctx = new_band(p.frequency_start_hz, p.frequency_end_hz);
                touch_peak_exec(&mut ctx, p, now_ms, cutoff);
                let ghost before = self.bands@;
                self.bands.push(ctx);
                proof {
                    assert(models(self.bands@) =~= models(before).push(ctx.model()));
                }
            },
        }
    }

    fn observe_anomaly(&mut self, a: &AnomalyInput, now_ms: u64, cutoff: u64)
        ensures
            models(final(self).bands@) == observe_anomaly_spec(models(old(self).bands@), *a, now_ms, cutoff),
            final(self).correlation_window_ms == old(self).correlation_window_ms,
            final(self).persistence_window_ms == old(self).persistence_window_ms,
            final(self).min_peak_count == old(self).min_peak_count,
            final(self).score_threshold == old(self).score_threshold,
    {
        proof {
            lemma_find_band_facts(models(self.bands@), a.frequency_start_hz, a.frequency_end_hz);
        }
        match find_band(&self.bands, a.frequency_start_hz, a.frequency_end_hz) {
            Some(i) => {
                let ghost before = self.bands@;
                let mut ctx = self.bands.remove(i);
                assert(ctx.model() == models(before)[i as int]);
                touch_anomaly_exec(&mut ctx, a, now_ms, cutoff);
                self.bands.insert(i, ctx);
                proof {
                    lemma_models_replace(before, self.bands@, i as int, ctx);
                }
            },
            None => {
                let mut ctx = new_band(a.frequency_start_hz, a.frequency_end_hz);
                touch_anomaly_exec(&mut ctx, a, now_ms, cutoff);
                let ghost before = self.bands@;
                self.bands.push(ctx);
                proof {
                    assert(models(self.bands@) =~= models(before).push(ctx.model()));
                }
            },
        }
    }

    fn observe_peaks(&mut self, peaks: &[PeakInput], now_ms: u64, cutoff: u64)
        ensures
            models(final(self).bands@) == observe_peaks_spec(models(old(self).bands@), peaks@, now_ms, cutoff),
            final(self).correlation_window_ms == old(self).correlation_window_ms,
            final(self).persistence_window_ms == old(self).persistence_window_ms,
            final(self).min_peak_count == old(self).min_peak_count,
            final(self).score_threshold == old(self).score_threshold,
    {
        let mut i: usize = 0;
        while i < peaks.len()
            invariant
                0 <= i <= peaks@.len(),
                models(self.bands@) == observe_peaks_spec(models(old(self).bands@), peaks@.take(i as int), now_ms, cutoff),
                self.correlation_window_ms == old(self).correlation_window_ms,
                self.persistence_window_ms == old(self).persistence_window_ms,
                self.min_peak_count == old(self).min_peak_count,
                self.score_threshold == old(self).score_threshold,
            decreases peaks@.len() - i,
        {
            self.observe_peak(&peaks[i], now_ms, cutoff);
            proof {
                assert(peaks@.take(i + 1).drop_last() =~= peaks@.take(i as int));
            }
            i = i + 1;
        }
        proof {
            assert(peaks@.take(i as int) =~= peaks@);
        }
    }

    fn observe_anomalies(&mut self, anomalies: &[AnomalyInput], now_ms: u64, cutoff: u64)
        ensures
            models(final(self).bands@) == observe_anomalies_spec(models(old(self).bands@), anomalies@, now_ms, cutoff),
            final(self).correlation_window_ms == old(self).correlation_window_ms,
            final(self).persistence_window_ms == old(self).persistence_window_ms,
            final(self).min_peak_count == old(self).min_peak_count,
            final(self).score_threshold == old(self).score_threshold,
    {
        let mut i: usize = 0;
        while i < anomalies.len()
            invariant
                0 <= i <= anomalies@.len(),
                models(self.bands@) == observe_anomalies_spec(models(old(self).bands@), anomalies@.take(i as int), now_ms, cutoff),
                self.correlation_window_ms == old(self).correlation_window_ms,
                self.persistence_window_ms == old(self).persistence_window_ms,
                self.min_peak_count == old(self).min_peak_count,
                self.score_threshold == old(self).score_threshold,
            decreases anomalies@.len() - i,
        {
            self.observe_anomaly(&anomalies[i], now_ms, cutoff);
            proof {
                assert(anomalies@.take(i + 1).drop_last() =~= anomalies@.take(i as int));
            }
            i = i + 1;
        }
        proof {
            assert(anomalies@.take(i as int) =~= anomalies@);
        }
    }

    fn retain_active(&mut self, cutoff: u64)
        ensures
            models(final(self).bands@) == retain_active_spec(models(old(self).bands@), cutoff),
            final(self).correlation_window_ms == old(self).correlation_window_ms,
            final(self).persistence_window_ms == old(self).persistence_window_ms,
            final(self).min_peak_count == old(self).min_peak_count,
            final(self).score_threshold == old(self).score_threshold,
    {
        let mut rest: Vec<BandContext> = Vec::new();
        std::mem::swap(&mut rest, &mut self.bands);
        let ghost orig = rest@;
        let ghost n = orig.len();
        assert(models(self.bands@) =~= retain_active_spec(models(orig).take(0), cutoff));
        while rest.len() > 0
            invariant
                rest@.len() <= n,
                n == orig.len(),
                rest@ == orig.subrange(n - rest@.len(), n as int),
                models(self.bands@) == retain_active_spec(models(orig).take(n - rest@.len()), cutoff),
                orig == old(self).bands@,
                self.correlation_window_ms == old(self).correlation_window_ms,
                self.persistence_window_ms == old(self).persistence_window_ms,
                self.min_peak_count == old(self).min_peak_count,
                self.score_threshold == old(self).score_threshold,
            decreases rest@.len(),
        {
            let ghost k = n - rest@.len();
            let mut ctx = rest.remove(0);
            assert(ctx == orig[k]);
            assert(rest@ =~= orig.subrange(n - rest@.len(), n as int));
            prune_peaks(&mut ctx.recent_peaks, cutoff);
            prune_anomalies(&mut ctx.recent_anomalies, cutoff);
            let seen_recently = match ctx.last_seen_ms {
                Some(l) => l >= cutoff,
                None => false,
            };
            let ghost before = self.bands@;
            proof {
                assert(models(orig).take(k + 1).drop_last() =~= models(orig).take(k));
                assert(models(orig).take(k + 1).last() == orig[k].model());
                assert(ctx.model() == prune_band(orig[k].model(), cutoff));
            }
            if seen_recently || ctx.recent_peaks.len() > 0 || ctx.recent_anomalies.len() > 0 {
                self.bands.push(ctx);
                proof {
                    assert(models(self.bands@) =~= models(before).push(ctx.model()));
                }
            }
        }
        proof {
            assert(models(orig).take(n as int) =~= models(orig));
        }
    }
}

} // verus!

verus! {

// ---------------------------------------------------------------------------
// Assessments
// ---------------------------------------------------------------------------

/// The largest of the keys (0 when there are none).
pub open spec fn max_key(keys: Seq<u32>) -> u32
    decreases keys.len(),
{
    if keys.len() == 0 {
        0
    } else {
        let r = max_key(keys.drop_last());
        if keys.last() > r { keys.last() } else { r }
    }
}

/// The power keys of a band's anomalies, then of its peaks.
pub open spec fn power_keys(b: BandModel) -> Seq<u32> {
    b.anomalies.map_values(|a: AnomalyObservation| a.power_key) + b.peaks.map_values(
        |p: PeakObservation| p.power_key,
    )
}

/// The content of an assessment (everything but its random identifier).
pub struct IgorDecisionModel {
    pub generated_at_ms: u64,
    pub source_sequence: u64,
    pub finding_kind: IgorFindingKind,
    pub severity: AlertSeverity,
    pub risk_score: u32,
    pub frequency_start_hz: u64,
    pub frequency_end_hz: u64,
    pub evidence_count: u64,
    pub distinct_anomaly_types: Seq<AnomalyType>,
    pub max_power_key: u32,
    pub span_ms: u64,
}

/// An assessment of one band.
#[derive(Clone, Debug, PartialEq)]
pub struct IgorDecision {
    pub id: String,
    pub generated_at_ms: u64,
    pub source_sequence: u64,
    pub finding_kind: IgorFindingKind,
    pub severity: AlertSeverity,
    pub risk_score: u32,
    pub frequency_start_hz: u64,
    pub frequency_end_hz: u64,
    pub evidence_count: u64,
    pub distinct_anomaly_types: Vec<AnomalyType>,
    /// Order key of the strongest reading among the band's observations.
    pub max_power_key: u32,
    /// How long the band has been active, in milliseconds.
    pub span_ms: u64,
}

impl IgorDecision {
    pub open spec fn model(&self) -> IgorDecisionModel {
        IgorDecisionModel {
            generated_at_ms: self.generated_at_ms,
            source_sequence: self.source_sequence,
            finding_kind: self.finding_kind,
            severity: self.severity,
            risk_score: self.risk_score,
            frequency_start_hz: self.frequency_start_hz,
            frequency_end_hz: self.frequency_end_hz,
            evidence_count: self.evidence_count,
            distinct_anomaly_types: self.distinct_anomaly_types@,
            max_power_key: self.max_power_key,
            span_ms: self.span_ms,
        }
    }
}

/// The assessment reported for a band.
pub open spec fn decision_for(
    b: BandModel,
    kind: IgorFindingKind,
    severity: AlertSeverity,
    score: u32,
    now_ms: u64,
    sweep_sequence: u64,
) -> IgorDecisionModel {
    IgorDecisionModel {
        generated_at_ms: now_ms,
        source_sequence: if b.anomalies.len() > 0 { b.anomalies.last().source_sequence } else { sweep_sequence },
        finding_kind: kind,
        severity,
        risk_score: score,
        frequency_start_hz: b.frequency_start_hz,
        frequency_end_hz: b.frequency_end_hz,
        evidence_count: if b.peaks.len() + b.anomalies.len() > u64::MAX {
            u64::MAX
        } else {
            (b.peaks.len() + b.anomalies.len()) as u64
        },
        distinct_anomaly_types: distinct_types_spec(b.anomalies),
        max_power_key: max_key(power_keys(b)),
        span_ms: match span_spec(b) {
            Some(s) => s,
            None => 0,
        },
    }
}

/// One impacted band: its observations are pruned and, when it supports a
/// finding scoring at least the threshold that is news for the band, the
/// finding is reported and remembered as the band's last report.
pub open spec fn emit_step_spec(
    bands: Seq<BandModel>,
    key: (u64, u64),
    min_peak_count: usize,
    persistence_window_ms: u64,
    score_threshold: u32,
    cutoff: u64,
    now_ms: u64,
    sweep_sequence: u64,
) -> (Seq<BandModel>, Option<IgorDecisionModel>) {
    match find_band_spec(bands, key.0, key.1) {
        None => (bands, None),
        Some(i) => {
            let b = prune_band(bands[i], cutoff);
            match classify_spec(b, min_peak_count, persistence_window_ms) {
                None => (bands.update(i, b), None),
                Some(kind) => {
                    let score = score_spec(b, min_peak_count, persistence_window_ms);
                    let severity = severity_from_score_spec(score);
                    if score < score_threshold || !should_emit_spec(b, kind, severity, score) {
                        (bands.update(i, b), None)
                    } else {
                        (
                            bands.update(
                                i,
                                BandModel {
                                    last_emitted_score: Some(score),
                                    last_emitted_severity: Some(severity),
                                    last_emitted_kind: Some(kind),
                                    ..b
                                },
                            ),
                            Some(decision_for(b, kind, severity, score, now_ms, sweep_sequence)),
                        )
                    }
                },
            }
        },
    }
}

pub open spec fn emit_all_spec(
    bands: Seq<BandModel>,
    keys: Seq<(u64, u64)>,
    min_peak_count: usize,
    persistence_window_ms: u64,
    score_threshold: u32,
    cutoff: u64,
    now_ms: u64,
    sweep_sequence: u64,
) -> (Seq<BandModel>, Seq<IgorDecisionModel>)
    decreases keys.len(),
{
    if keys.len() == 0 {
        (bands, Seq::<IgorDecisionModel>::empty())
    } else {
        let (b1, d1) = emit_all_spec(
            bands,
            keys.drop_last(),
            min_peak_count,
            persistence_window_ms,
            score_threshold,
            cutoff,
            now_ms,
            sweep_sequence,
        );
        let (b2, d) = emit_step_spec(
            b1,
            keys.last(),
            min_peak_count,
            persistence_window_ms,
            score_threshold,
            cutoff,
            now_ms,
            sweep_sequence,
        );
        (
            b2,
            match d {
                Some(x) => d1.push(x),
                None => d1,
            },
        )
    }
}

/// Keys in order of first appearance, each once.
pub open spec fn dedup_keys(keys: Seq<(u64, u64)>) -> Seq<(u64, u64)>
    decreases keys.len(),
{
    if keys.len() == 0 {
        keys
    } else {
        let r = dedup_keys(keys.drop_last());
        if r.contains(keys.last()) { r } else { r.push(keys.last()) }
    }
}

/// The bands touched by a sweep: those of its peaks, then of its anomalies.
pub open spec fn impacted_keys(peaks: Seq<PeakInput>, anomalies: Seq<AnomalyInput>) -> Seq<(u64, u64)> {
    dedup_keys(
        peaks.map_values(|p: PeakInput| (p.frequency_start_hz, p.frequency_end_hz)) + anomalies.map_values(
            |a: AnomalyInput| (a.frequency_start_hz, a.frequency_end_hz),
        ),
    )
}

/// `now - window`, or 0 when the window reaches back past time zero.
pub open spec fn cutoff_spec(now_ms: u64, window_ms: u64) -> u64 {
    if now_ms >= window_ms { (now_ms - window_ms) as u64 } else { 0 }
}

/// One correlation round: remember the sweep's peaks and anomalies, forget
/// what left the correlation window, then assess every touched band.
pub open spec fn correlate_spec(
    bands: Seq<BandModel>,
    correlation_window_ms: u64,
    persistence_window_ms: u64,
    min_peak_count: usize,
    score_threshold: u32,
    sweep_sequence: u64,
    now_ms: u64,
    peaks: Seq<PeakInput>,
    anomalies: Seq<AnomalyInput>,
) -> (Seq<BandModel>, Seq<IgorDecisionModel>) {
    let cutoff = cutoff_spec(now_ms, correlation_window_ms);
    let b1 = observe_peaks_spec(bands, peaks, now_ms, cutoff);
    let b2 = observe_anomalies_spec(b1, anomalies, now_ms, cutoff);
    let b3 = retain_active_spec(b2, cutoff);
    emit_all_spec(
        b3,
        impacted_keys(peaks, anomalies),
        min_peak_count,
        persistence_window_ms,
        score_threshold,
        cutoff,
        now_ms,
        sweep_sequence,
    )
}

fn max_power_key(ctx: &BandContext) -> (m: u32)
    ensures
        m == max_key(power_keys(ctx.model())),
{
    let ghost keys = power_keys(ctx.model());
    let ghost na = ctx.recent_anomalies@.len();
    let mut m: u32 = 0;
    let mut i: usize = 0;
    while i < ctx.recent_anomalies.len()
        invariant
            0 <= i <= na,
            na == ctx.recent_anomalies@.len(),
            keys == power_keys(ctx.model()),
            m == max_key(keys.take(i as int)),
        decreases na - i,
    {
        let k = ctx.recent_anomalies[i].power_key;
        proof {
            assert(keys.take(i + 1).drop_last() =~= keys.take(i as int));
            assert(keys.take(i + 1).last() == keys[i as int]);
        }
        if k > m {
            m = k;
        }
        i = i + 1;
    }
    let mut j: usize = 0;
    while j < ctx.recent_peaks.len()
        invariant
            0 <= j <= ctx.recent_peaks@.len(),
            na == ctx.recent_anomalies@.len(),
            keys == power_keys(ctx.model()),
            keys.len() == na + ctx.recent_peaks@.len(),
            m == max_key(keys.take(na + j)),
        decreases ctx.recent_peaks@.len() - j,
    {
        let k = ctx.recent_peaks[j].power_key;
        proof {
            assert(keys.take(na + j + 1).drop_last() =~= keys.take(na + j));
            assert(keys.take(na + j + 1).last() == keys[na + j]);
        }
        if k > m {
            m = k;
        }
        j = j + 1;
    }
    proof {
        assert(keys.take(na + j) =~= keys);
    }
    m
}

fn copy_types(v: &Vec<AnomalyType>) -> (r: Vec<AnomalyType>)
    ensures
        r@ == v@,
{
    let mut r: Vec<AnomalyType> = Vec::new();
    let mut i: usize = 0;
    while i < v.len()
        invariant
            0 <= i <= v.len(),
            r@ == v@.take(i as int),
        decreases v.len() - i,
    {
        r.push(v[i]);
        proof {
            assert(v@.take(i + 1) =~= v@.take(i as int).push(v@[i as int]));
        }
        i = i + 1;
    }
    proof {
        assert(v@.take(i as int) =~= v@);
    }
    r
}

/// Every assessment carries an identifier in the hyphenated form.
pub open spec fn decision_ids_formed(v: Seq<IgorDecision>) -> bool {
    forall|k: int| 0 <= k < v.len() ==> crate::ids::event_id_formed((#[trigger] v[k]).id@)
}

impl IgorEngine {
    fn emit_band(&mut self, start: u64, end: u64, cutoff: u64, now_ms: u64, sweep_sequence: u64) -> (r: Option<
        IgorDecision,
    >)
        ensures
            (models(final(self).bands@), match r {
                Some(d) => Some(d.model()),
                None => None,
            }) == emit_step_spec(
                models(old(self).bands@),
                (start, end),
                old(self).min_peak_count,
                old(self).persistence_window_ms,
                old(self).score_threshold,
                cutoff,
                now_ms,
                sweep_sequence,
            ),
            final(self).correlation_window_ms == old(self).correlation_window_ms,
            final(self).persistence_window_ms == old(self).persistence_window_ms,
            final(self).min_peak_count == old(self).min_peak_count,
            final(self).score_threshold == old(self).score_threshold,
            r matches Some(d) ==> crate::ids::event_id_formed(d.id@),
    {
        proof {
            lemma_find_band_facts(models(self.bands@), start, end);
        }
        let i = match find_band(&self.bands, start, end) {
            None => return None,
            Some(i) => i,
        };
        let ghost before = self.bands@;
        let mut ctx = self.bands.remove(i);
        assert(ctx.model() == models(before)[i as int]);
        prune_peaks(&mut ctx.recent_peaks, cutoff);
        prune_anomalies(&mut ctx.recent_anomalies, cutoff);
        let ghost b = ctx.model();
        assert(b == prune_band(models(before)[i as int], cutoff));
        let mut result: Option<IgorDecision> = None;
        match classify_band(&ctx, self.min_peak_count, self.persistence_window_ms) {
            None => {},
            Some(kind) => {
                let score = score_band(&ctx, self.min_peak_count, self.persistence_window_ms);
                let severity = severity_from_score(score);
                if score >= self.score_threshold && should_emit(&ctx, kind, severity, score) {
                    let types = distinct_anomaly_types(&ctx.recent_anomalies);
                    let np = ctx.recent_peaks.len() as u64;
                    let na = ctx.recent_anomalies.len() as u64;
                    let evidence_count = np.saturating_add(na);
                    let max_power = max_power_key(&ctx);
                    let span = match span_ms(&ctx) {
                        Some(s) => s,
                        None => 0,
                    };
                    let source_sequence = if ctx.recent_anomalies.len() > 0 {
                        ctx.recent_anomalies[ctx.recent_anomalies.len() - 1].source_sequence
                    } else {
                        sweep_sequence
                    };
                    ctx.last_emitted_score = Some(score);
                    ctx.last_emitted_severity = Some(severity);
                    ctx.last_emitted_kind = Some(kind);
                    let id = crate::ids::new_event_id();
                    result = Some(IgorDecision {
                        id,
                        generated_at_ms: now_ms,
                        source_sequence,
                        finding_kind: kind,
                        severity,
                        risk_score: score,
                        frequency_start_hz: start,
                        frequency_end_hz: end,
                        evidence_count,
                        distinct_anomaly_types: copy_types(&types),
                        max_power_key: max_power,
                        span_ms: span,
                    });
                }
            },
        }
        self.bands.insert(i, ctx);
        proof {
            lemma_models_replace(before, self.bands@, i as int, ctx);
        }
        result
    }

    fn emit_all(&mut self, keys: &Vec<(u64, u64)>, cutoff: u64, now_ms: u64, sweep_sequence: u64) -> (r: Vec<
        IgorDecision,
    >)
        ensures
            (models(final(self).bands@), r@.map_values(|d: IgorDecision| d.model())) == emit_all_spec(
                models(old(self).bands@),
                keys@,
                old(self).min_peak_count,
                old(self).persistence_window_ms,
                old(self).score_threshold,
                cutoff,
                now_ms,
                sweep_sequence,
            ),
            final(self).correlation_window_ms == old(self).correlation_window_ms,
            final(self).persistence_window_ms == old(self).persistence_window_ms,
            final(self).min_peak_count == old(self).min_peak_count,
            final(self).score_threshold == old(self).score_threshold,
            decision_ids_formed(r@),
    {
        let mut out: Vec<IgorDecision> = Vec::new();
        let mut i: usize = 0;
        while i < keys.len()
            invariant
                0 <= i <= keys.len(),
                (models(self.bands@), out@.map_values(|d: IgorDecision| d.model())) == emit_all_spec(
                    models(old(self).bands@),
                    keys@.take(i as int),
                    old(self).min_peak_count,
                    old(self).persistence_window_ms,
                    old(self).score_threshold,
                    cutoff,
                    now_ms,
                    sweep_sequence,
                ),
                self.correlation_window_ms == old(self).correlation_window_ms,
                self.persistence_window_ms == old(self).persistence_window_ms,
                self.min_peak_count == old(self).min_peak_count,
                self.score_threshold == old(self).score_threshold,
                decision_ids_formed(out@),
            decreases keys.len() - i,
        {
            let (start, end) = keys[i];
            let ghost prev_out = out@.map_values(|d: IgorDecision| d.model());
            let d = self.emit_band(start, end, cutoff, now_ms, sweep_sequence);
            proof {
                assert(keys@.take(i + 1).drop_last() =~= keys@.take(i as int));
                assert(keys@.take(i + 1).last() == keys@[i as int]);
            }
            match d {
                Some(x) => {
                    out.push(x);
                    proof {
                        assert(out@.map_values(|d: IgorDecision| d.model()) =~= prev_out.push(x.model()));
                    }
                },
                None => {},
            }
            i = i + 1;
        }
        proof {
            assert(keys@.take(i as int) =~= keys@);
        }
        out
    }
}

fn contains_key(keys: &Vec<(u64, u64)>, key: (u64, u64)) -> (b: bool)
    ensures
        b == keys@.contains(key),
{
    let mut i: usize = 0;
    while i < keys.len()
        invariant
            0 <= i <= keys.len(),
            forall|j: int| 0 <= j < i ==> keys@[j] != key,
        decreases keys.len() - i,
    {
        let (a, b) = keys[i];
        if a == key.0 && b == key.1 {
            assert(keys@[i as int] == key);
            return true;
        }
        i = i + 1;
    }
    false
}

fn impacted_band_keys(peaks: &[PeakInput], anomalies: &[AnomalyInput]) -> (r: Vec<(u64, u64)>)
    ensures
        r@ == impacted_keys(peaks@, anomalies@),
{
    let ghost all = peaks@.map_values(|p: PeakInput| (p.frequency_start_hz, p.frequency_end_hz))
        + anomalies@.map_values(|a: AnomalyInput| (a.frequency_start_hz, a.frequency_end_hz));
    let ghost np = peaks@.len();
    let mut r: Vec<(u64, u64)> = Vec::new();
    let mut i: usize = 0;
    while i < peaks.len()
        invariant
            0 <= i <= np,
            np == peaks@.len(),
            all == peaks@.map_values(|p: PeakInput| (p.frequency_start_hz, p.frequency_end_hz))
                + anomalies@.map_values(|a: AnomalyInput| (a.frequency_start_hz, a.frequency_end_hz)),
            r@ == dedup_keys(all.take(i as int)),
        decreases np - i,
    {
        let key = (peaks[i].frequency_start_hz, peaks[i].frequency_end_hz);
        proof {
            assert(all.take(i + 1).drop_last() =~= all.take(i as int));
            assert(all.take(i + 1).last() == all[i as int]);
            assert(all[i as int] == key);
        }
        if !contains_key(&r, key) {
            r.push(key);
        }
        i = i + 1;
    }
    let mut j: usize = 0;
    while j < anomalies.len()
        invariant
            0 <= j <= anomalies@.len(),
            np == peaks@.len(),
            all == peaks@.map_values(|p: PeakInput| (p.frequency_start_hz, p.frequency_end_hz))
                + anomalies@.map_values(|a: AnomalyInput| (a.frequency_start_hz, a.frequency_end_hz)),
            r@ == dedup_keys(all.take(np + j)),
        decreases anomalies@.len() - j,
    {
        let key = (anomalies[j].frequency_start_hz, anomalies[j].frequency_end_hz);
        proof {
            assert(all.take(np + j + 1).drop_last() =~= all.take(np + j));
            assert(all.take(np + j + 1).last() == all[np + j]);
            assert(all[np + j] == key);
        }
        if !contains_key(&r, key) {
            r.push(key);
        }
        j = j + 1;
    }
    proof {
        assert(all.take(np + j) =~= all);
    }
    r
}

impl IgorEngine {
    /// Correlates one sweep's peaks and anomalies, observed at `now_ms`, and
    /// returns the assessments of the bands they touched.
    pub fn correlate(
        &mut self,
        sweep_sequence: u64,
        now_ms: u64,
        peaks: &[PeakInput],
        anomalies: &[AnomalyInput],
    ) -> (r: Vec<IgorDecision>)
        ensures
            (final(self).bands_model(), r@.map_values(|d: IgorDecision| d.model())) == correlate_spec(
                old(self).bands_model(),
                old(self).correlation_window_ms(),
                old(self).persistence_window_ms(),
                old(self).min_peak_count(),
                old(self).score_threshold(),
                sweep_sequence,
                now_ms,
                peaks@,
                anomalies@,
            ),
            final(self).correlation_window_ms() == old(self).correlation_window_ms(),
            final(self).persistence_window_ms() == old(self).persistence_window_ms(),
            final(self).min_peak_count() == old(self).min_peak_count(),
            final(self).score_threshold() == old(self).score_threshold(),
            decision_ids_formed(r@),
    {
        let cutoff = now_ms.saturating_sub(self.correlation_window_ms);
        self.observe_peaks(peaks, now_ms, cutoff);
        self.observe_anomalies(anomalies, now_ms, cutoff);
        self.retain_active(cutoff);
        let keys = impacted_band_keys(peaks, anomalies);
        self.emit_all(&keys, cutoff, now_ms, sweep_sequence)
    }
}

} // verus!

verus! {

pub open spec fn finding_text(kind: IgorFindingKind) -> Seq<char> {
    match kind {
        IgorFindingKind::CoordinatedEmitter => "coordinated emitter behavior"@,
        IgorFindingKind::PersistentEmitter => "persistent emitter behavior"@,
        IgorFindingKind::EscalatingBandActivity => "escalating band activity"@,
    }
}

/// The type names joined by `, `.
pub open spec fn type_summary(types: Seq<AnomalyType>) -> Seq<char>
    decreases types.len(),
{
    if types.len() == 0 {
        Seq::<char>::empty()
    } else if types.len() == 1 {
        crate::detection::alert_engine::anomaly_type_text(types[0])
    } else {
        type_summary(types.drop_last()) + ", "@ + crate::detection::alert_engine::anomaly_type_text(
            types.last(),
        )
    }
}

pub open spec fn assessment_text(
    kind: IgorFindingKind,
    score: u32,
    seconds: Seq<char>,
    start: u64,
    end: u64,
    evidence_count: u64,
    types: Seq<AnomalyType>,
) -> Seq<char> {
    "IGOR flagged "@ + finding_text(kind) + " with risk score "@ + crate::text::decimal(score as nat)
        + " across "@ + crate::text::decimal((start / 1_000_000) as nat) + "-"@ + crate::text::decimal(
        (end / 1_000_000) as nat,
    ) + " MHz after "@ + crate::text::decimal(evidence_count as nat) + " evidence events over "@
        + seconds + " seconds. Correlated anomaly types: "@ + type_summary(types) + "."@
}

/// The explanation attached to an assessment. `seconds` is the activity span
/// in seconds, already rendered with one decimal.
pub fn describe_assessment(
    kind: IgorFindingKind,
    score: u32,
    seconds: &str,
    frequency_start_hz: u64,
    frequency_end_hz: u64,
    evidence_count: u64,
    distinct_types: &Vec<AnomalyType>,
) -> (m: String)
    ensures
        m@ == assessment_text(
            kind,
            score,
            seconds@,
            frequency_start_hz,
            frequency_end_hz,
            evidence_count,
            distinct_types@,
        ),
{
    let mut m = String::new();
    push_str(&mut m, "IGOR flagged ");
    match kind {
        IgorFindingKind::CoordinatedEmitter => push_str(&mut m, "coordinated emitter behavior"),
        IgorFindingKind::PersistentEmitter => push_str(&mut m, "persistent emitter behavior"),
        IgorFindingKind::EscalatingBandActivity => push_str(&mut m, "escalating band activity"),
    }
    push_str(&mut m, " with risk score ");
    push_decimal(&mut m, score as u64);
    push_str(&mut m, " across ");
    push_decimal(&mut m, frequency_start_hz / 1_000_000);
    push_str(&mut m, "-");
    push_decimal(&mut m, frequency_end_hz / 1_000_000);
    push_str(&mut m, " MHz after ");
    push_decimal(&mut m, evidence_count);
    push_str(&mut m, " evidence events over ");
    push_str(&mut m, seconds);
    push_str(&mut m, " seconds. Correlated anomaly types: ");
    let ghost head = m@;
    let mut i: usize = 0;
    while i < distinct_types.len()
        invariant
            0 <= i <= distinct_types.len(),
            m@ == head + type_summary(distinct_types@.take(i as int)),
        decreases distinct_types.len() - i,
    {
        if i > 0 {
            push_str(&mut m, ", ");
        }
        push_str(&mut m, crate::detection::alert_engine::anomaly_type_name(distinct_types[i]));
        proof {
            let t = distinct_types@.take(i + 1);
            assert(t.drop_last() =~= distinct_types@.take(i as int));
            assert(t.last() == distinct_types@[i as int]);
            if i == 0 {
                assert(distinct_types@.take(0) =~= Seq::<AnomalyType>::empty());
            }
        }
        i = i + 1;
    }
    proof {
        assert(distinct_types@.take(i as int) =~= distinct_types@);
    }
    push_str(&mut m, ".");
    m
}

// ---------------------------------------------------------------------------
// Laws
// ---------------------------------------------------------------------------

/// Every reported assessment meets the score threshold and carries the
/// severity its score maps to.
pub proof fn lemma_emit_all_meets_threshold(
    bands: Seq<BandModel>,
    keys: Seq<(u64, u64)>,
    min_peak_count: usize,
    persistence_window_ms: u64,
    score_threshold: u32,
    cutoff: u64,
    now_ms: u64,
    sweep_sequence: u64,
)
    ensures
        forall|k: int|
            0 <= k < emit_all_spec(
                bands,
                keys,
                min_peak_count,
                persistence_window_ms,
                score_threshold,
                cutoff,
                now_ms,
                sweep_sequence,
            ).1.len() ==> {
                let d = #[trigger] emit_all_spec(
                    bands,
                    keys,
                    min_peak_count,
                    persistence_window_ms,
                    score_threshold,
                    cutoff,
                    now_ms,
                    sweep_sequence,
                ).1[k];
                &&& d.risk_score >= score_threshold
                &&& d.risk_score <= 100
                &&& d.severity == severity_from_score_spec(d.risk_score)
                &&& d.generated_at_ms == now_ms
            },
    decreases keys.len(),
{
    if keys.len() > 0 {
        lemma_emit_all_meets_threshold(
            bands,
            keys.drop_last(),
            min_peak_count,
            persistence_window_ms,
            score_threshold,
            cutoff,
            now_ms,
            sweep_sequence,
        );
        let (b1, d1) = emit_all_spec(
            bands,
            keys.drop_last(),
            min_peak_count,
            persistence_window_ms,
            score_threshold,
            cutoff,
            now_ms,
            sweep_sequence,
        );
        match find_band_spec(b1, keys.last().0, keys.last().1) {
            Some(i) => {
                let b = prune_band(b1[i], cutoff);
                lemma_score_bounded(b, min_peak_count, persistence_window_ms);
            },
            None => {},
        }
    }
}

/// Agreement bonus: a band whose anomalies show two or more distinct types,
/// but not all of repeated pulses, power spike and abnormal occupancy, scores
/// its worst severity weight, 12 per distinct type (at most 36), 8 per anomaly
/// (at most 24), 10 when it has enough peaks, 15 when it persisted, and 10
/// more for the agreement of types, capped at 100.
pub proof fn lemma_score_two_types(b: BandModel, min_peak_count: usize, persistence_window_ms: u64)
    requires
        distinct_types_spec(b.anomalies).len() >= 2,
        !(has_type(b.anomalies, AnomalyType::RepeatedPulses) && has_type(b.anomalies, AnomalyType::PowerSpike)
            && has_type(b.anomalies, AnomalyType::AbnormalOccupancy)),
    ensures
        ({
            let k = distinct_types_spec(b.anomalies).len() as int;
            let n = (b.anomalies.len() as u32) as int;
            let sum = max_severity_weight(b.anomalies) as int + (if k >= 3 { 36 } else { 12 * k }) + (if n >= 3 {
                24
            } else {
                8 * n
            }) + (if b.peaks.len() as u32 >= min_peak_count as u32 { 10int } else { 0int }) + (if persistent_spec(
                b,
                persistence_window_ms,
            ) {
                15int
            } else {
                0int
            }) + 10;
            score_spec(b, min_peak_count, persistence_window_ms) as int == (if sum < 100 { sum } else { 100 })
        }),
{
}

/// No agreement bonus for fewer than two distinct anomaly types: such a band
/// scores only its worst severity weight, 12 per type, 8 per anomaly (at most
/// 24), 10 for enough peaks and 15 for persistence, capped at 100.
pub proof fn lemma_score_single_type(b: BandModel, min_peak_count: usize, persistence_window_ms: u64)
    requires
        distinct_types_spec(b.anomalies).len() < 2,
    ensures
        ({
            let k = distinct_types_spec(b.anomalies).len() as int;
            let n = (b.anomalies.len() as u32) as int;
            let sum = max_severity_weight(b.anomalies) as int + 12 * k + (if n >= 3 { 24 } else { 8 * n }) + (if b.peaks.len()
                as u32 >= min_peak_count as u32 {
                10int
            } else {
                0int
            }) + (if persistent_spec(b, persistence_window_ms) { 15int } else { 0int });
            score_spec(b, min_peak_count, persistence_window_ms) as int == (if sum < 100 { sum } else { 100 })
        }),
{
    lemma_distinct_types_has(b.anomalies);
}

/// Agreement bonus for the full pattern: repeated pulses, a power spike and
/// abnormal occupancy together add 20 instead of 10.
pub proof fn lemma_score_full_pattern(b: BandModel, min_peak_count: usize, persistence_window_ms: u64)
    requires
        has_type(b.anomalies, AnomalyType::RepeatedPulses),
        has_type(b.anomalies, AnomalyType::PowerSpike),
        has_type(b.anomalies, AnomalyType::AbnormalOccupancy),
    ensures
        ({
            let n = (b.anomalies.len() as u32) as int;
            let sum = max_severity_weight(b.anomalies) as int + 36 + (if n >= 3 { 24 } else { 8 * n }) + (if b.peaks.len()
                as u32 >= min_peak_count as u32 {
                10int
            } else {
                0int
            }) + (if persistent_spec(b, persistence_window_ms) { 15int } else { 0int }) + 20;
            score_spec(b, min_peak_count, persistence_window_ms) as int == (if sum < 100 { sum } else { 100 })
        }),
{
    assert(distinct_types_spec(b.anomalies).len() >= 3);
}

/// The risk score never exceeds 100.
pub proof fn lemma_score_bounded(b: BandModel, min_peak_count: usize, persistence_window_ms: u64)
    ensures
        score_spec(b, min_peak_count, persistence_window_ms) <= 100,
{
}

/// A band that has just reported a finding stays silent about the same kind
/// and severity until its score rises by at least 10.
pub proof fn lemma_no_repeat_report(b: BandModel, kind: IgorFindingKind, severity: AlertSeverity, score: u32, later: u32)
    requires
        score <= 100,
        later < score + 10,
    ensures
        !should_emit_spec(
            BandModel {
                last_emitted_score: Some(score),
                last_emitted_severity: Some(severity),
                last_emitted_kind: Some(kind),
                ..b
            },
            kind,
            severity,
            later,
        ),
{
}


// ---------------------------------------------------------------------------
// Reports across correlation rounds
// ---------------------------------------------------------------------------

/// The band `(start, end)` is remembered, and its last report was a finding
/// of `kind` and `severity` scoring `score`.
pub open spec fn last_report_is(
    bands: Seq<BandModel>,
    start: u64,
    end: u64,
    kind: IgorFindingKind,
    severity: AlertSeverity,
    score: u32,
) -> bool {
    match find_band_spec(bands, start, end) {
        Some(i) => bands[i].last_emitted_kind == Some(kind) && bands[i].last_emitted_severity == Some(severity)
            && bands[i].last_emitted_score == Some(score),
        None => false,
    }
}

/// The assessment is of the band `(start, end)`.
pub open spec fn for_band(d: IgorDecisionModel, start: u64, end: u64) -> bool {
    d.frequency_start_hz == start && d.frequency_end_hz == end
}

/// The assessment repeats a report of `kind`, `severity` and `score`: same
/// kind and severity, and a score less than 10 above (saturating).
pub open spec fn repeats(d: IgorDecisionModel, kind: IgorFindingKind, severity: AlertSeverity, score: u32) -> bool {
    &&& d.finding_kind == kind
    &&& d.severity == severity
    &&& (d.risk_score as int) < (if score as int + 10 > u32::MAX { u32::MAX as int } else { score as int + 10 })
}

proof fn lemma_find_update(bands: Seq<BandModel>, j: int, x: BandModel, start: u64, end: u64)
    requires
        0 <= j < bands.len(),
        x.frequency_start_hz == bands[j].frequency_start_hz,
        x.frequency_end_hz == bands[j].frequency_end_hz,
    ensures
        find_band_spec(bands.update(j, x), start, end) == find_band_spec(bands, start, end),
    decreases bands.len(),
{
    let u = bands.update(j, x);
    if j == bands.len() - 1 {
        assert(u.drop_last() =~= bands.drop_last());
    } else {
        assert(u.drop_last() =~= bands.drop_last().update(j, x));
        lemma_find_update(bands.drop_last(), j, x, start, end);
    }
}

proof fn lemma_find_push(bands: Seq<BandModel>, x: BandModel, start: u64, end: u64)
    ensures
        find_band_spec(bands.push(x), start, end) == match find_band_spec(bands, start, end) {
            Some(i) => Some(i),
            None => if has_key(x, start, end) {
                Some(bands.len() as int)
            } else {
                None
            },
        },
{
    assert(bands.push(x).drop_last() =~= bands);
}

/// Replacing a band by one with the same key and last report keeps keys
/// unique and every band's report.
proof fn lemma_replace_same_report(
    bands: Seq<BandModel>,
    j: int,
    x: BandModel,
    start: u64,
    end: u64,
    kind: IgorFindingKind,
    severity: AlertSeverity,
    score: u32,
)
    requires
        0 <= j < bands.len(),
        keys_unique(bands),
        x.frequency_start_hz == bands[j].frequency_start_hz,
        x.frequency_end_hz == bands[j].frequency_end_hz,
        x.last_emitted_kind == bands[j].last_emitted_kind,
        x.last_emitted_severity == bands[j].last_emitted_severity,
        x.last_emitted_score == bands[j].last_emitted_score,
    ensures
        keys_unique(bands.update(j, x)),
        last_report_is(bands, start, end, kind, severity, score) ==> last_report_is(
            bands.update(j, x),
            start,
            end,
            kind,
            severity,
            score,
        ),
        find_band_spec(bands.update(j, x), start, end) == find_band_spec(bands, start, end),
{
    lemma_find_update(bands, j, x, start, end);
    lemma_find_band_facts(bands, start, end);
    let u = bands.update(j, x);
    if let Some(i) = find_band_spec(bands, start, end) {
        assert(u[i].last_emitted_kind == bands[i].last_emitted_kind);
        assert(u[i].last_emitted_severity == bands[i].last_emitted_severity);
        assert(u[i].last_emitted_score == bands[i].last_emitted_score);
    }
    assert forall|a: int, b: int|
        #![trigger u[a], u[b]]
        0 <= a < b < u.len() implies !has_key(u[a], u[b].frequency_start_hz, u[b].frequency_end_hz) by {
        assert(!has_key(bands[a], bands[b].frequency_start_hz, bands[b].frequency_end_hz));
    }
}

/// Adding a band whose key is not remembered keeps keys unique and every
/// band's report.
proof fn lemma_push_new_key(
    bands: Seq<BandModel>,
    x: BandModel,
    start: u64,
    end: u64,
    kind: IgorFindingKind,
    severity: AlertSeverity,
    score: u32,
)
    requires
        keys_unique(bands),
        find_band_spec(bands, x.frequency_start_hz, x.frequency_end_hz).is_none(),
    ensures
        keys_unique(bands.push(x)),
        last_report_is(bands, start, end, kind, severity, score) ==> last_report_is(
            bands.push(x),
            start,
            end,
            kind,
            severity,
            score,
        ),
{
    lemma_find_push(bands, x, start, end);
    lemma_find_band_facts(bands, x.frequency_start_hz, x.frequency_end_hz);
    lemma_find_band_facts(bands, start, end);
    let u = bands.push(x);
    if let Some(i) = find_band_spec(bands, start, end) {
        assert(u[i] == bands[i]);
    }
    assert forall|a: int, b: int|
        #![trigger u[a], u[b]]
        0 <= a < b < u.len() implies !has_key(u[a], u[b].frequency_start_hz, u[b].frequency_end_hz) by {
        if b < bands.len() {
            assert(!has_key(bands[a], bands[b].frequency_start_hz, bands[b].frequency_end_hz));
        } else {
            assert(!has_key(bands[a], x.frequency_start_hz, x.frequency_end_hz));
        }
    }
}

proof fn lemma_observe_peaks_report(
    bands: Seq<BandModel>,
    ps: Seq<PeakInput>,
    now_ms: u64,
    cutoff: u64,
    start: u64,
    end: u64,
    kind: IgorFindingKind,
    severity: AlertSeverity,
    score: u32,
)
    requires
        keys_unique(bands),
    ensures
        keys_unique(observe_peaks_spec(bands, ps, now_ms, cutoff)),
        last_report_is(bands, start, end, kind, severity, score) ==> last_report_is(
            observe_peaks_spec(bands, ps, now_ms, cutoff),
            start,
            end,
            kind,
            severity,
            score,
        ),
    decreases ps.len(),
{
    if ps.len() > 0 {
        lemma_observe_peaks_report(bands, ps.drop_last(), now_ms, cutoff, start, end, kind, severity, score);
        let b1 = observe_peaks_spec(bands, ps.drop_last(), now_ms, cutoff);
        let p = ps.last();
        lemma_find_band_facts(b1, p.frequency_start_hz, p.frequency_end_hz);
        match find_band_spec(b1, p.frequency_start_hz, p.frequency_end_hz) {
            Some(i) => {
                lemma_replace_same_report(b1, i, touch_peak(b1[i], p, now_ms, cutoff), start, end, kind, severity, score);
            },
            None => {
                lemma_push_new_key(
                    b1,
                    touch_peak(empty_band(p.frequency_start_hz, p.frequency_end_hz), p, now_ms, cutoff),
                    start,
                    end,
                    kind,
                    severity,
                    score,
                );
            },
        }
    }
}

proof fn lemma_observe_anomalies_report(
    bands: Seq<BandModel>,
    xs: Seq<AnomalyInput>,
    now_ms: u64,
    cutoff: u64,
    start: u64,
    end: u64,
    kind: IgorFindingKind,
    severity: AlertSeverity,
    score: u32,
)
    requires
        keys_unique(bands),
    ensures
        keys_unique(observe_anomalies_spec(bands, xs, now_ms, cutoff)),
        last_report_is(bands, start, end, kind, severity, score) ==> last_report_is(
            observe_anomalies_spec(bands, xs, now_ms, cutoff),
            start,
            end,
            kind,
            severity,
            score,
        ),
    decreases xs.len(),
{
    if xs.len() > 0 {
        lemma_observe_anomalies_report(bands, xs.drop_last(), now_ms, cutoff, start, end, kind, severity, score);
        let b1 = observe_anomalies_spec(bands, xs.drop_last(), now_ms, cutoff);
        let a = xs.last();
        lemma_find_band_facts(b1, a.frequency_start_hz, a.frequency_end_hz);
        match find_band_spec(b1, a.frequency_start_hz, a.frequency_end_hz) {
            Some(i) => {
                lemma_replace_same_report(
                    b1,
                    i,
                    touch_anomaly(b1[i], a, now_ms, cutoff),
                    start,
                    end,
                    kind,
                    severity,
                    score,
                );
            },
            None => {
                lemma_push_new_key(
                    b1,
                    touch_anomaly(empty_band(a.frequency_start_hz, a.frequency_end_hz), a, now_ms, cutoff),
                    start,
                    end,
                    kind,
                    severity,
                    score,
                );
            },
        }
    }
}

proof fn lemma_retain_find_none(bands: Seq<BandModel>, cutoff: u64, start: u64, end: u64)
    requires
        find_band_spec(bands, start, end).is_none(),
    ensures
        find_band_spec(retain_active_spec(bands, cutoff), start, end).is_none(),
    decreases bands.len(),
{
    if bands.len() > 0 {
        lemma_retain_find_none(bands.drop_last(), cutoff, start, end);
        let rest = retain_active_spec(bands.drop_last(), cutoff);
        lemma_find_push(rest, prune_band(bands.last(), cutoff), start, end);
    }
}

proof fn lemma_retain_report(
    bands: Seq<BandModel>,
    cutoff: u64,
    start: u64,
    end: u64,
    kind: IgorFindingKind,
    severity: AlertSeverity,
    score: u32,
)
    requires
        keys_unique(bands),
    ensures
        keys_unique(retain_active_spec(bands, cutoff)),
        last_report_is(bands, start, end, kind, severity, score) ==> last_report_is(
            retain_active_spec(bands, cutoff),
            start,
            end,
            kind,
            severity,
            score,
        ) || find_band_spec(retain_active_spec(bands, cutoff), start, end).is_none(),
    decreases bands.len(),
{
    if bands.len() > 0 {
        let d = bands.drop_last();
        let last = bands.last();
        let n = bands.len() - 1;
        assert forall|a: int, b: int|
            #![trigger d[a], d[b]]
            0 <= a < b < d.len() implies !has_key(d[a], d[b].frequency_start_hz, d[b].frequency_end_hz) by {
            assert(!has_key(bands[a], bands[b].frequency_start_hz, bands[b].frequency_end_hz));
        }
        lemma_retain_report(d, cutoff, start, end, kind, severity, score);
        let rest = retain_active_spec(d, cutoff);
        let b = prune_band(last, cutoff);
        // The last band's key is not among the others.
        lemma_find_band_facts(d, last.frequency_start_hz, last.frequency_end_hz);
        if find_band_spec(d, last.frequency_start_hz, last.frequency_end_hz).is_some() {
            let i = find_band_spec(d, last.frequency_start_hz, last.frequency_end_hz).unwrap();
            assert(!has_key(bands[i], bands[n].frequency_start_hz, bands[n].frequency_end_hz));
            assert(false);
        }
        lemma_retain_find_none(d, cutoff, last.frequency_start_hz, last.frequency_end_hz);
        if band_active(b, cutoff) {
            lemma_push_new_key(rest, b, start, end, kind, severity, score);
            lemma_find_push(rest, b, start, end);
        }
        if last_report_is(bands, start, end, kind, severity, score) {
            lemma_find_band_facts(d, start, end);
            match find_band_spec(d, start, end) {
                Some(i) => {
                    assert(d[i] == bands[i]);
                    assert(last_report_is(d, start, end, kind, severity, score));
                    assert(!has_key(bands[i], bands[n].frequency_start_hz, bands[n].frequency_end_hz));
                    assert(!has_key(b, start, end));
                },
                None => {
                    lemma_retain_find_none(d, cutoff, start, end);
                    if band_active(b, cutoff) {
                        assert(retain_active_spec(bands, cutoff) == rest.push(b));
                        assert(rest.push(b)[rest.len() as int] == b);
                    }
                },
            }
        }
    }
}

proof fn lemma_emit_step_report(
    bands: Seq<BandModel>,
    key: (u64, u64),
    min_peak_count: usize,
    persistence_window_ms: u64,
    score_threshold: u32,
    cutoff: u64,
    now_ms: u64,
    sweep_sequence: u64,
    start: u64,
    end: u64,
    kind: IgorFindingKind,
    severity: AlertSeverity,
    score: u32,
)
    requires
        keys_unique(bands),
    ensures
        ({
            let (nb, d) = emit_step_spec(
                bands,
                key,
                min_peak_count,
                persistence_window_ms,
                score_threshold,
                cutoff,
                now_ms,
                sweep_sequence,
            );
            &&& keys_unique(nb)
            &&& find_band_spec(nb, start, end) == find_band_spec(bands, start, end)
            &&& (d matches Some(x) ==> for_band(x, key.0, key.1))
            &&& (find_band_spec(bands, start, end).is_none() ==> !(d matches Some(x) && for_band(x, start, end)))
            &&& (key != (start, end) && last_report_is(bands, start, end, kind, severity, score) ==> last_report_is(
                nb,
                start,
                end,
                kind,
                severity,
                score,
            ))
            &&& (key == (start, end) && last_report_is(bands, start, end, kind, severity, score) ==> match d {
                Some(x) => !repeats(x, kind, severity, score),
                None => last_report_is(nb, start, end, kind, severity, score),
            })
        }),
{
    lemma_find_band_facts(bands, key.0, key.1);
    lemma_find_band_facts(bands, start, end);
    match find_band_spec(bands, key.0, key.1) {
        None => {},
        Some(i) => {
            let b = prune_band(bands[i], cutoff);
            match classify_spec(b, min_peak_count, persistence_window_ms) {
                None => {
                    lemma_replace_same_report(bands, i, b, start, end, kind, severity, score);
                },
                Some(k) => {
                    let sc = score_spec(b, min_peak_count, persistence_window_ms);
                    let sev = severity_from_score_spec(sc);
                    if sc < score_threshold || !should_emit_spec(b, k, sev, sc) {
                        lemma_replace_same_report(bands, i, b, start, end, kind, severity, score);
                    } else {
                        let y = BandModel {
                            last_emitted_score: Some(sc),
                            last_emitted_severity: Some(sev),
                            last_emitted_kind: Some(k),
                            ..b
                        };
                        lemma_find_update(bands, i, y, start, end);
                        let u = bands.update(i, y);
                        assert forall|a: int, c: int|
                            #![trigger u[a], u[c]]
                            0 <= a < c < u.len() implies !has_key(
                                u[a],
                                u[c].frequency_start_hz,
                                u[c].frequency_end_hz,
                            ) by {
                            assert(!has_key(bands[a], bands[c].frequency_start_hz, bands[c].frequency_end_hz));
                        }
                        if key != (start, end) && last_report_is(bands, start, end, kind, severity, score) {
                            let j = find_band_spec(bands, start, end).unwrap();
                            assert(j != i);
                            assert(u[j] == bands[j]);
                        }
                    }
                },
            }
        },
    }
}

proof fn lemma_emit_all_report(
    bands: Seq<BandModel>,
    keys: Seq<(u64, u64)>,
    min_peak_count: usize,
    persistence_window_ms: u64,
    score_threshold: u32,
    cutoff: u64,
    now_ms: u64,
    sweep_sequence: u64,
    start: u64,
    end: u64,
    kind: IgorFindingKind,
    severity: AlertSeverity,
    score: u32,
)
    requires
        keys_unique(bands),
        keys.no_duplicates(),
    ensures
        ({
            let (nb, ds) = emit_all_spec(
                bands,
                keys,
                min_peak_count,
                persistence_window_ms,
                score_threshold,
                cutoff,
                now_ms,
                sweep_sequence,
            );
            &&& keys_unique(nb)
            &&& find_band_spec(nb, start, end) == find_band_spec(bands, start, end)
            &&& forall|k: int|
                0 <= k < ds.len() ==> keys.contains(((#[trigger] ds[k]).frequency_start_hz, ds[k].frequency_end_hz))
            &&& (last_report_is(bands, start, end, kind, severity, score) ==> forall|k: int|
                0 <= k < ds.len() && for_band(#[trigger] ds[k], start, end) ==> !repeats(ds[k], kind, severity, score))
            &&& (last_report_is(bands, start, end, kind, severity, score) && (forall|k: int|
                0 <= k < ds.len() ==> !for_band(#[trigger] ds[k], start, end)) ==> last_report_is(
                nb,
                start,
                end,
                kind,
                severity,
                score,
            ))
            &&& (find_band_spec(bands, start, end).is_none() ==> forall|k: int|
                0 <= k < ds.len() ==> !for_band(#[trigger] ds[k], start, end))
        }),
    decreases keys.len(),
{
    if keys.len() > 0 {
        let pre = keys.drop_last();
        let key = keys.last();
        assert forall|i: int, j: int| 0 <= i < pre.len() && 0 <= j < pre.len() && i != j implies pre[i] != pre[j] by {
            assert(pre[i] == keys[i] && pre[j] == keys[j]);
        }
        lemma_emit_all_report(
            bands,
            pre,
            min_peak_count,
            persistence_window_ms,
            score_threshold,
            cutoff,
            now_ms,
            sweep_sequence,
            start,
            end,
            kind,
            severity,
            score,
        );
        let (b1, d1) = emit_all_spec(
            bands,
            pre,
            min_peak_count,
            persistence_window_ms,
            score_threshold,
            cutoff,
            now_ms,
            sweep_sequence,
        );
        lemma_emit_step_report(
            b1,
            key,
            min_peak_count,
            persistence_window_ms,
            score_threshold,
            cutoff,
            now_ms,
            sweep_sequence,
            start,
            end,
            kind,
            severity,
            score,
        );
        let (b2, d) = emit_step_spec(
            b1,
            key,
            min_peak_count,
            persistence_window_ms,
            score_threshold,
            cutoff,
            now_ms,
            sweep_sequence,
        );
        let ds = emit_all_spec(
            bands,
            keys,
            min_peak_count,
            persistence_window_ms,
            score_threshold,
            cutoff,
            now_ms,
            sweep_sequence,
        ).1;
        assert forall|k: int| 0 <= k < d1.len() implies #[trigger] ds[k] == d1[k] by {}
        assert forall|k: int| 0 <= k < ds.len() implies keys.contains(
            ((#[trigger] ds[k]).frequency_start_hz, ds[k].frequency_end_hz),
        ) by {
            if k < d1.len() {
                let w = choose|w: int| 0 <= w < pre.len() && pre[w] == (d1[k].frequency_start_hz, d1[k].frequency_end_hz);
                assert(keys[w] == pre[w]);
            } else {
                assert(keys[keys.len() - 1] == key);
            }
        }
        // When the last key is the band's, no earlier key is.
        if key == (start, end) {
            assert forall|k: int| 0 <= k < d1.len() implies !for_band(#[trigger] d1[k], start, end) by {
                if for_band(d1[k], start, end) {
                    let w = choose|w: int| 0 <= w < pre.len() && pre[w] == (d1[k].frequency_start_hz, d1[k].frequency_end_hz);
                    assert(keys[w] == keys[keys.len() - 1]);
                }
            }
        }
        if last_report_is(bands, start, end, kind, severity, score) {
            if key == (start, end) {
                assert(last_report_is(b1, start, end, kind, severity, score));
            }
            assert forall|k: int| 0 <= k < ds.len() && for_band(#[trigger] ds[k], start, end) implies !repeats(
                ds[k],
                kind,
                severity,
                score,
            ) by {
                if k < d1.len() {
                    assert(ds[k] == d1[k]);
                }
            }
            if forall|k: int| 0 <= k < ds.len() ==> !for_band(#[trigger] ds[k], start, end) {
                assert forall|k: int| 0 <= k < d1.len() implies !for_band(#[trigger] d1[k], start, end) by {
                    assert(ds[k] == d1[k]);
                }
                if let Some(x) = d {
                    assert(ds[ds.len() - 1] == x);
                }
            }
        }
        if find_band_spec(bands, start, end).is_none() {
            assert forall|k: int| 0 <= k < ds.len() implies !for_band(#[trigger] ds[k], start, end) by {
                if k < d1.len() {
                    assert(ds[k] == d1[k]);
                }
            }
        }
    }
}

proof fn lemma_dedup_no_duplicates(keys: Seq<(u64, u64)>)
    ensures
        dedup_keys(keys).no_duplicates(),
    decreases keys.len(),
{
    if keys.len() > 0 {
        lemma_dedup_no_duplicates(keys.drop_last());
        let r = dedup_keys(keys.drop_last());
        let x = keys.last();
        if !r.contains(x) {
            let u = r.push(x);
            assert forall|i: int, j: int| 0 <= i < u.len() && 0 <= j < u.len() && i != j implies u[i] != u[j] by {
                if i < r.len() && j < r.len() {
                    assert(u[i] == r[i] && u[j] == r[j]);
                } else if i < r.len() {
                    assert(u[i] == r[i]);
                } else {
                    assert(u[j] == r[j]);
                }
            }
        }
    }
}

/// One correlation round never repeats a band's last report: when the band
/// `(start, end)` last reported a finding of `kind` and `severity` scoring
/// `score`, every assessment of that band in the round has another kind,
/// another severity, or a score at least 10 higher (saturating). A band not
/// assessed keeps that last report unless it expired and was forgotten. Band
/// keys stay unique (as they are in a new engine).
pub proof fn lemma_correlate_no_repeat(
    bands: Seq<BandModel>,
    correlation_window_ms: u64,
    persistence_window_ms: u64,
    min_peak_count: usize,
    score_threshold: u32,
    sweep_sequence: u64,
    now_ms: u64,
    peaks: Seq<PeakInput>,
    anomalies: Seq<AnomalyInput>,
    start: u64,
    end: u64,
    kind: IgorFindingKind,
    severity: AlertSeverity,
    score: u32,
)
    requires
        keys_unique(bands),
    ensures
        ({
            let (nb, ds) = correlate_spec(
                bands,
                correlation_window_ms,
                persistence_window_ms,
                min_peak_count,
                score_threshold,
                sweep_sequence,
                now_ms,
                peaks,
                anomalies,
            );
            &&& keys_unique(nb)
            &&& (last_report_is(bands, start, end, kind, severity, score) ==> forall|k: int|
                0 <= k < ds.len() && for_band(#[trigger] ds[k], start, end) ==> !repeats(ds[k], kind, severity, score))
            &&& (last_report_is(bands, start, end, kind, severity, score) && (forall|k: int|
                0 <= k < ds.len() ==> !for_band(#[trigger] ds[k], start, end)) ==> last_report_is(
                nb,
                start,
                end,
                kind,
                severity,
                score,
            ) || find_band_spec(nb, start, end).is_none())
        }),
{
    let cutoff = cutoff_spec(now_ms, correlation_window_ms);
    lemma_observe_peaks_report(bands, peaks, now_ms, cutoff, start, end, kind, severity, score);
    let b1 = observe_peaks_spec(bands, peaks, now_ms, cutoff);
    lemma_observe_anomalies_report(b1, anomalies, now_ms, cutoff, start, end, kind, severity, score);
    let b2 = observe_anomalies_spec(b1, anomalies, now_ms, cutoff);
    lemma_retain_report(b2, cutoff, start, end, kind, severity, score);
    let b3 = retain_active_spec(b2, cutoff);
    lemma_dedup_no_duplicates(
        peaks.map_values(|p: PeakInput| (p.frequency_start_hz, p.frequency_end_hz)) + anomalies.map_values(
            |a: AnomalyInput| (a.frequency_start_hz, a.frequency_end_hz),
        ),
    );
    lemma_emit_all_report(
        b3,
        impacted_keys(peaks, anomalies),
        min_peak_count,
        persistence_window_ms,
        score_threshold,
        cutoff,
        now_ms,
        sweep_sequence,
        start,
        end,
        kind,
        severity,
        score,
    );
}

/// One round of correlation input: the sweep's sequence number, the time it
/// was observed, its peaks and its anomalies.
pub struct CorrelationRound {
    pub sweep_sequence: u64,
    pub now_ms: u64,
    pub peaks: Seq<PeakInput>,
    pub anomalies: Seq<AnomalyInput>,
}

/// The bands after successive correlation rounds, and every assessment they
/// produced, in order.
pub open spec fn correlate_rounds(
    bands: Seq<BandModel>,
    correlation_window_ms: u64,
    persistence_window_ms: u64,
    min_peak_count: usize,
    score_threshold: u32,
    rounds: Seq<CorrelationRound>,
) -> (Seq<BandModel>, Seq<IgorDecisionModel>)
    decreases rounds.len(),
{
    if rounds.len() == 0 {
        (bands, Seq::<IgorDecisionModel>::empty())
    } else {
        let (b1, d1) = correlate_rounds(
            bands,
            correlation_window_ms,
            persistence_window_ms,
            min_peak_count,
            score_threshold,
            rounds.drop_last(),
        );
        let r = rounds.last();
        let (b2, d2) = correlate_spec(
            b1,
            correlation_window_ms,
            persistence_window_ms,
            min_peak_count,
            score_threshold,
            r.sweep_sequence,
            r.now_ms,
            r.peaks,
            r.anomalies,
        );
        (b2, d1 + d2)
    }
}

proof fn lemma_append_first_news(
    d1: Seq<IgorDecisionModel>,
    d2: Seq<IgorDecisionModel>,
    start: u64,
    end: u64,
    kind: IgorFindingKind,
    severity: AlertSeverity,
    score: u32,
)
    requires
        forall|k: int|
            0 <= k < d1.len() && for_band(#[trigger] d1[k], start, end) && (forall|j: int|
                0 <= j < k ==> !for_band(#[trigger] d1[j], start, end)) ==> !repeats(d1[k], kind, severity, score),
        (forall|k: int| 0 <= k < d1.len() ==> !for_band(#[trigger] d1[k], start, end)) ==> forall|k: int|
            0 <= k < d2.len() && for_band(#[trigger] d2[k], start, end) ==> !repeats(d2[k], kind, severity, score),
    ensures
        forall|k: int|
            0 <= k < (d1 + d2).len() && for_band(#[trigger] (d1 + d2)[k], start, end) && (forall|j: int|
                0 <= j < k ==> !for_band(#[trigger] (d1 + d2)[j], start, end)) ==> !repeats(
                (d1 + d2)[k],
                kind,
                severity,
                score,
            ),
        (forall|k: int| 0 <= k < (d1 + d2).len() ==> !for_band(#[trigger] (d1 + d2)[k], start, end)) ==> (forall|
            k: int,
        | 0 <= k < d1.len() ==> !for_band(#[trigger] d1[k], start, end)) && (forall|k: int|
            0 <= k < d2.len() ==> !for_band(#[trigger] d2[k], start, end)),
{
    let ds = d1 + d2;
    if exists|k: int| 0 <= k < d1.len() && for_band(#[trigger] d1[k], start, end) {
        let w = choose|k: int| 0 <= k < d1.len() && for_band(#[trigger] d1[k], start, end);
        assert(ds[w] == d1[w]);
        assert forall|k: int|
            0 <= k < ds.len() && for_band(#[trigger] ds[k], start, end) && (forall|j: int|
                0 <= j < k ==> !for_band(#[trigger] ds[j], start, end)) implies !repeats(ds[k], kind, severity, score) by {
            if k < d1.len() {
                assert(ds[k] == d1[k]);
                assert forall|j: int| 0 <= j < k implies !for_band(#[trigger] d1[j], start, end) by {
                    assert(ds[j] == d1[j]);
                }
            } else {
                assert(!for_band(ds[w], start, end));
            }
        }
    } else {
        assert forall|k: int| 0 <= k < ds.len() && for_band(#[trigger] ds[k], start, end) implies !repeats(
            ds[k],
            kind,
            severity,
            score,
        ) by {
            if k < d1.len() {
                assert(ds[k] == d1[k]);
            } else {
                assert(ds[k] == d2[k - d1.len()]);
            }
        }
    }
    if forall|k: int| 0 <= k < ds.len() ==> !for_band(#[trigger] ds[k], start, end) {
        assert forall|k: int| 0 <= k < d1.len() implies !for_band(#[trigger] d1[k], start, end) by {
            assert(ds[k] == d1[k]);
        }
        assert forall|k: int| 0 <= k < d2.len() implies !for_band(#[trigger] d2[k], start, end) by {
            assert(ds[k + d1.len()] == d2[k]);
        }
    }
}

/// Unchanged findings are not reported again: when the band `(start, end)`
/// last reported a finding of `kind` and `severity` scoring `score`, and the
/// band stays remembered after every one of a series of rounds, then the
/// first assessment of the band in those rounds has another kind, another
/// severity, or a score at least 10 higher (saturating); and when there is no
/// such assessment, the band still holds that last report. Band keys are
/// unique, as they are in a new engine, and stay so.
#[verifier::spinoff_prover]
#[verifier::rlimit(80)]
pub proof fn lemma_rounds_no_repeat(
    bands: Seq<BandModel>,
    correlation_window_ms: u64,
    persistence_window_ms: u64,
    min_peak_count: usize,
    score_threshold: u32,
    rounds: Seq<CorrelationRound>,
    start: u64,
    end: u64,
    kind: IgorFindingKind,
    severity: AlertSeverity,
    score: u32,
)
    requires
        keys_unique(bands),
        last_report_is(bands, start, end, kind, severity, score),
        forall|n: int|
            1 <= n <= rounds.len() ==> find_band_spec(
                correlate_rounds(
                    bands,
                    correlation_window_ms,
                    persistence_window_ms,
                    min_peak_count,
                    score_threshold,
                    #[trigger] rounds.take(n),
                ).0,
                start,
                end,
            ).is_some(),
    ensures
        ({
            let (nb, ds) = correlate_rounds(
                bands,
                correlation_window_ms,
                persistence_window_ms,
                min_peak_count,
                score_threshold,
                rounds,
            );
            &&& keys_unique(nb)
            &&& forall|k: int|
                0 <= k < ds.len() && for_band(#[trigger] ds[k], start, end) && (forall|j: int|
                    0 <= j < k ==> !for_band(#[trigger] ds[j], start, end)) ==> !repeats(ds[k], kind, severity, score)
            &&& (forall|k: int| 0 <= k < ds.len() ==> !for_band(#[trigger] ds[k], start, end)) ==> last_report_is(
                nb,
                start,
                end,
                kind,
                severity,
                score,
            )
        }),
    decreases rounds.len(),
{
    if rounds.len() > 0 {
        let pre = rounds.drop_last();
        assert forall|n: int|
            1 <= n <= pre.len() implies find_band_spec(
            correlate_rounds(
                bands,
                correlation_window_ms,
                persistence_window_ms,
                min_peak_count,
                score_threshold,
                #[trigger] pre.take(n),
            ).0,
            start,
            end,
        ).is_some() by {
            assert(pre.take(n) =~= rounds.take(n));
        }
        lemma_rounds_no_repeat(
            bands,
            correlation_window_ms,
            persistence_window_ms,
            min_peak_count,
            score_threshold,
            pre,
            start,
            end,
            kind,
            severity,
            score,
        );
        let (b1, d1) = correlate_rounds(
            bands,
            correlation_window_ms,
            persistence_window_ms,
            min_peak_count,
            score_threshold,
            pre,
        );
        let r = rounds.last();
        lemma_correlate_no_repeat(
            b1,
            correlation_window_ms,
            persistence_window_ms,
            min_peak_count,
            score_threshold,
            r.sweep_sequence,
            r.now_ms,
            r.peaks,
            r.anomalies,
            start,
            end,
            kind,
            severity,
            score,
        );
        let (b2, d2) = correlate_spec(
            b1,
            correlation_window_ms,
            persistence_window_ms,
            min_peak_count,
            score_threshold,
            r.sweep_sequence,
            r.now_ms,
            r.peaks,
            r.anomalies,
        );
        assert(rounds.take(rounds.len() as int) =~= rounds);
        let whole = correlate_rounds(
            bands,
            correlation_window_ms,
            persistence_window_ms,
            min_peak_count,
            score_threshold,
            rounds,
        );
        assert(whole.0 == b2 && whole.1 == d1 + d2);
        assert(find_band_spec(b2, start, end).is_some());
        assert(keys_unique(b2));
        lemma_append_first_news(d1, d2, start, end, kind, severity, score);
    }
}

} // verus!
