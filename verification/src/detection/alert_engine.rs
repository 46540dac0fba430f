//! Turning anomalies into alerts: coincident pulse/spike escalation and
//! sustained-condition escalation.
use vstd::prelude::*;
use crate::ids::new_event_id;
use crate::models::{AlertSeverity, AnomalyType};
use crate::text::{decimal, push_decimal, push_str};

verus! {

pub open spec fn anomaly_type_text(t: AnomalyType) -> Seq<char> {
    match t {
        AnomalyType::BurstActivity => "burst_activity"@,
        AnomalyType::PowerSpike => "power_spike"@,
        AnomalyType::AbnormalOccupancy => "abnormal_occupancy"@,
        AnomalyType::RepeatedPulses => "repeated_pulses"@,
    }
}

/// The wire name of an anomaly type.
pub fn anomaly_type_name(anomaly_type: AnomalyType) -> (s: &'static str)
    ensures
        s@ == anomaly_type_text(anomaly_type),
{
    match anomaly_type {
        AnomalyType::BurstActivity => "burst_activity",
        AnomalyType::PowerSpike => "power_spike",
        AnomalyType::AbnormalOccupancy => "abnormal_occupancy",
        AnomalyType::RepeatedPulses => "repeated_pulses",
    }
}

/// What the alert engine reads of an anomaly. The reading's strength is
/// carried as its order key (see `crate::power`).
#[derive(Clone, Debug)]
pub struct AnomalyRecord {
    pub id: String,
    pub detected_at_ms: u64,
    pub source_sequence: u64,
    pub anomaly_type: AnomalyType,
    pub severity: AlertSeverity,
    pub frequency_start_hz: u64,
    pub frequency_end_hz: u64,
    pub power_key: u32,
    pub message: String,
}

/// How long one condition (anomaly type on one band) has been observed.
#[derive(Clone, Copy, Debug, PartialEq, Eq, Structural)]
pub struct ConditionWindow {
    pub anomaly_type: AnomalyType,
    pub frequency_start_hz: u64,
    pub frequency_end_hz: u64,
    pub first_seen_ms: u64,
    pub last_seen_ms: u64,
}

/// An alert as the engine decides it. `power_source` is the index, in the
/// anomalies handed to `generate`, of the anomaly whose reading the alert
/// reports.
#[derive(Clone, Debug)]
pub struct AlertDecision {
    pub id: String,
    pub alert_type: String,
    pub severity: AlertSeverity,
    pub message: String,
    pub detected_at_ms: u64,
    pub source_sequence: u64,
    pub frequency_start_hz: u64,
    pub frequency_end_hz: u64,
    pub power_source: usize,
}

/// Everything an alert states except its random identifier.
pub struct AlertModel {
    pub alert_type: Seq<char>,
    pub severity: AlertSeverity,
    pub message: Seq<char>,
    pub detected_at_ms: u64,
    pub source_sequence: u64,
    pub frequency_start_hz: u64,
    pub frequency_end_hz: u64,
    pub power_source: int,
}

impl AlertDecision {
    pub open spec fn model(&self) -> AlertModel {
        AlertModel {
            alert_type: self.alert_type@,
            severity: self.severity,
            message: self.message@,
            detected_at_ms: self.detected_at_ms,
            source_sequence: self.source_sequence,
            frequency_start_hz: self.frequency_start_hz,
            frequency_end_hz: self.frequency_end_hz,
            power_source: self.power_source as int,
        }
    }
}

// ---------------------------------------------------------------------------
// Bands and coincident pulse/spike activity
// ---------------------------------------------------------------------------

pub open spec fn band_of(x: AnomalyRecord) -> (u64, u64) {
    (x.frequency_start_hz, x.frequency_end_hz)
}

/// The bands of the anomalies, each once, in order of first appearance.
pub open spec fn group_keys(a: Seq<AnomalyRecord>) -> Seq<(u64, u64)>
    decreases a.len(),
{
    if a.len() == 0 {
        Seq::empty()
    } else {
        let keys = group_keys(a.drop_last());
        if keys.contains(band_of(a.last())) {
            keys
        } else {
            keys.push(band_of(a.last()))
        }
    }
}

/// Some anomaly of type `t` lies on band `key`.
pub open spec fn band_has_type(a: Seq<AnomalyRecord>, key: (u64, u64), t: AnomalyType) -> bool {
    exists|i: int| 0 <= i < a.len() && #[trigger] band_of(a[i]) == key && a[i].anomaly_type == t
}

/// Repeated pulses and a power spike were both seen on band `key`.
pub open spec fn coincident(a: Seq<AnomalyRecord>, key: (u64, u64)) -> bool {
    band_has_type(a, key, AnomalyType::RepeatedPulses) && band_has_type(a, key, AnomalyType::PowerSpike)
}

/// Among the first `n` anomalies, the index of the strongest one on band
/// `key`; of equally strong ones, the last.
pub open spec fn strongest_upto(a: Seq<AnomalyRecord>, key: (u64, u64), n: int) -> Option<int>
    decreases n,
{
    if n <= 0 {
        None
    } else {
        let best = strongest_upto(a, key, n - 1);
        if band_of(a[n - 1]) == key {
            match best {
                None => Some(n - 1),
                Some(j) => if a[n - 1].power_key >= a[j].power_key {
                    Some(n - 1)
                } else {
                    Some(j)
                },
            }
        } else {
            best
        }
    }
}

pub open spec fn strongest(a: Seq<AnomalyRecord>, key: (u64, u64)) -> int {
    strongest_upto(a, key, a.len() as int).unwrap()
}

pub open spec fn coincident_message(key: (u64, u64)) -> Seq<char> {
    "Repeated pulse activity coincided with a power spike between "@ + decimal(
        (key.0 / 1_000_000) as nat,
    ) + "-"@ + decimal((key.1 / 1_000_000) as nat) + " MHz."@
}

/// The critical alert raised for a band with coincident pulses and spike.
pub open spec fn coincident_alert(a: Seq<AnomalyRecord>, key: (u64, u64)) -> AlertModel {
    let s = strongest(a, key);
    AlertModel {
        alert_type: "coincident_pulse_spike"@,
        severity: AlertSeverity::Critical,
        message: coincident_message(key),
        detected_at_ms: a[s].detected_at_ms,
        source_sequence: a[s].source_sequence,
        frequency_start_hz: key.0,
        frequency_end_hz: key.1,
        power_source: s,
    }
}

/// The coincident alerts for the bands in `keys`, in their order.
pub open spec fn coincident_alerts(a: Seq<AnomalyRecord>, keys: Seq<(u64, u64)>) -> Seq<AlertModel>
    decreases keys.len(),
{
    if keys.len() == 0 {
        Seq::empty()
    } else {
        let r = coincident_alerts(a, keys.drop_last());
        if coincident(a, keys.last()) {
            r.push(coincident_alert(a, keys.last()))
        } else {
            r
        }
    }
}

pub open spec fn pulse_or_spike(t: AnomalyType) -> bool {
    t == AnomalyType::RepeatedPulses || t == AnomalyType::PowerSpike
}

/// The anomaly at `j` is folded into its band's coincident alert.
pub open spec fn absorbed(a: Seq<AnomalyRecord>, j: int) -> bool {
    pulse_or_spike(a[j].anomaly_type) && coincident(a, band_of(a[j]))
}

/// The anomaly at `i` gets no alert of its own: an absorbed anomaly carries
/// its identifier.
pub open spec fn skipped(a: Seq<AnomalyRecord>, i: int) -> bool {
    exists|j: int| 0 <= j < a.len() && #[trigger] absorbed(a, j) && a[j].id@ == a[i].id@
}

// ---------------------------------------------------------------------------
// Sustained conditions
// ---------------------------------------------------------------------------

pub open spec fn condition_matches(w: ConditionWindow, x: AnomalyRecord) -> bool {
    w.anomaly_type == x.anomaly_type && w.frequency_start_hz == x.frequency_start_hz
        && w.frequency_end_hz == x.frequency_end_hz
}

/// The first window that tracks the condition of `x`.
pub open spec fn find_condition(c: Seq<ConditionWindow>, x: AnomalyRecord) -> Option<int>
    decreases c.len(),
{
    if c.len() == 0 {
        None
    } else {
        match find_condition(c.drop_last(), x) {
            Some(i) => Some(i),
            None => if condition_matches(c.last(), x) {
                Some(c.len() - 1)
            } else {
                None
            },
        }
    }
}

/// The windows after observing `x`, and the time its condition was first seen.
pub open spec fn observe_condition(c: Seq<ConditionWindow>, x: AnomalyRecord) -> (Seq<ConditionWindow>, u64) {
    match find_condition(c, x) {
        Some(i) => (c.update(i, ConditionWindow { last_seen_ms: x.detected_at_ms, ..c[i] }), c[i].first_seen_ms),
        None => (
            c.push(
                ConditionWindow {
                    anomaly_type: x.anomaly_type,
                    frequency_start_hz: x.frequency_start_hz,
                    frequency_end_hz: x.frequency_end_hz,
                    first_seen_ms: x.detected_at_ms,
                    last_seen_ms: x.detected_at_ms,
                },
            ),
            x.detected_at_ms,
        ),
    }
}

pub open spec fn sat_sub(a: u64, b: u64) -> u64 {
    if a >= b { (a - b) as u64 } else { 0 }
}

pub open spec fn sustained_suffix() -> Seq<char> {
    " Condition has persisted for more than 30 seconds."@
}

/// The alert for the anomaly at `i` whose condition was first seen at `first`.
pub open spec fn condition_alert(a: Seq<AnomalyRecord>, i: int, first: u64, sustained_ms: u64) -> AlertModel {
    let x = a[i];
    let sustained = sat_sub(x.detected_at_ms, first) >= sustained_ms;
    AlertModel {
        alert_type: anomaly_type_text(x.anomaly_type),
        severity: if sustained { AlertSeverity::Critical } else { x.severity },
        message: if sustained { x.message@ + sustained_suffix() } else { x.message@ },
        detected_at_ms: x.detected_at_ms,
        source_sequence: x.source_sequence,
        frequency_start_hz: x.frequency_start_hz,
        frequency_end_hz: x.frequency_end_hz,
        power_source: i,
    }
}

/// The windows and per-anomaly alerts after the first `n` anomalies, skipping
/// those folded into coincident alerts.
pub open spec fn condition_alerts(
    c: Seq<ConditionWindow>,
    a: Seq<AnomalyRecord>,
    n: int,
    sustained_ms: u64,
) -> (Seq<ConditionWindow>, Seq<AlertModel>)
    decreases n,
{
    if n <= 0 {
        (c, Seq::empty())
    } else {
        let (c1, out) = condition_alerts(c, a, n - 1, sustained_ms);
        if skipped(a, n - 1) {
            (c1, out)
        } else {
            let (c2, first) = observe_condition(c1, a[n - 1]);
            (c2, out.push(condition_alert(a, n - 1, first, sustained_ms)))
        }
    }
}

/// All alerts for one batch: coincident alerts first, then per-anomaly ones.
pub open spec fn batch_alerts(c: Seq<ConditionWindow>, a: Seq<AnomalyRecord>, sustained_ms: u64) -> Seq<AlertModel> {
    coincident_alerts(a, group_keys(a)) + condition_alerts(c, a, a.len() as int, sustained_ms).1
}

// ---------------------------------------------------------------------------
// Executable steps
// ---------------------------------------------------------------------------

fn contains_band(keys: &Vec<(u64, u64)>, key: (u64, u64)) -> (b: bool)
    ensures
        b == keys@.contains(key),
{
    let mut i: usize = 0;
    while i < keys.len()
        invariant
            0 <= i <= keys.len(),
            forall|j: int| 0 <= j < i ==> keys@[j] != key,
        decreases keys.len() - i,
    {
        if keys[i].0 == key.0 && keys[i].1 == key.1 {
            assert(keys@[i as int] == key);
            return true;
        }
        i = i + 1;
    }
    false
}

fn band_keys(a: &[AnomalyRecord]) -> (keys: Vec<(u64, u64)>)
    ensures
        keys@ == group_keys(a@),
{
    let mut keys: Vec<(u64, u64)> = Vec::new();
    let mut i: usize = 0;
    while i < a.len()
        invariant
            0 <= i <= a.len(),
            keys@ == group_keys(a@.take(i as int)),
        decreases a.len() - i,
    {
        let key = (a[i].frequency_start_hz, a[i].frequency_end_hz);
        proof {
            let t = a@.take(i + 1);
            assert(t.drop_last() =~= a@.take(i as int));
            assert(t.last() == a@[i as int]);
        }
        if !contains_band(&keys, key) {
            keys.push(key);
        }
        i = i + 1;
    }
    assert(a@.take(a.len() as int) =~= a@);
    keys
}

fn has_type_on_band(a: &[AnomalyRecord], key: (u64, u64), t: AnomalyType) -> (b: bool)
    ensures
        b == band_has_type(a@, key, t),
{
    let mut i: usize = 0;
    while i < a.len()
        invariant
            0 <= i <= a.len(),
            forall|j: int| 0 <= j < i ==> !(#[trigger] band_of(a@[j]) == key && a@[j].anomaly_type == t),
        decreases a.len() - i,
    {
        if a[i].frequency_start_hz == key.0 && a[i].frequency_end_hz == key.1 && a[i].anomaly_type == t {
            assert(band_of(a@[i as int]) == key);
            return true;
        }
        i = i + 1;
    }
    false
}

fn is_coincident(a: &[AnomalyRecord], key: (u64, u64)) -> (b: bool)
    ensures
        b == coincident(a@, key),
{
    has_type_on_band(a, key, AnomalyType::RepeatedPulses) && has_type_on_band(a, key, AnomalyType::PowerSpike)
}

proof fn lemma_strongest_facts(a: Seq<AnomalyRecord>, key: (u64, u64), n: int)
    requires
        0 <= n <= a.len(),
    ensures
        strongest_upto(a, key, n) matches Some(j) ==> 0 <= j < n && band_of(a[j]) == key,
        (exists|i: int| 0 <= i < n && #[trigger] band_of(a[i]) == key) ==> strongest_upto(a, key, n) is Some,
    decreases n,
{
    if n > 0 {
        lemma_strongest_facts(a, key, n - 1);
        if strongest_upto(a, key, n - 1) is None && band_of(a[n - 1]) != key {
            assert forall|i: int| 0 <= i < n && #[trigger] band_of(a[i]) == key implies false by {
                if i < n - 1 {
                    assert(exists|k: int| 0 <= k < n - 1 && #[trigger] band_of(a[k]) == key);
                }
            }
        }
    }
}

fn strongest_on_band(a: &[AnomalyRecord], key: (u64, u64)) -> (r: Option<usize>)
    ensures
        r matches Some(s) ==> strongest_upto(a@, key, a.len() as int) == Some(s as int),
        r is None ==> strongest_upto(a@, key, a.len() as int) is None,
{
    let mut best: Option<usize> = None;
    let mut i: usize = 0;
    while i < a.len()
        invariant
            0 <= i <= a.len(),
            best matches Some(s) ==> strongest_upto(a@, key, i as int) == Some(s as int) && s < i,
            best is None ==> strongest_upto(a@, key, i as int) is None,
        decreases a.len() - i,
    {
        if a[i].frequency_start_hz == key.0 && a[i].frequency_end_hz == key.1 {
            match best {
                None => {
                    best = Some(i);
                },
                Some(j) => {
                    if a[i].power_key >= a[j].power_key {
                        best = Some(i);
                    }
                },
            }
        }
        i = i + 1;
    }
    best
}

fn coincident_alert_for(a: &[AnomalyRecord], key: (u64, u64)) -> (d: AlertDecision)
    requires
        coincident(a@, key),
    ensures
        d.model() == coincident_alert(a@, key),
        crate::ids::event_id_formed(d.id@),
{
    proof {
        lemma_strongest_facts(a@, key, a@.len() as int);
        let i = choose|i: int| 0 <= i < a.len() && #[trigger] band_of(a@[i]) == key && a@[i].anomaly_type
            == AnomalyType::RepeatedPulses;
        assert(0 <= i < a.len() && band_of(a@[i]) == key);
    }
    let s = match strongest_on_band(a, key) {
        Some(s) => s,
        None => {
            assert(false);
            0
        },
    };
    proof {
        lemma_strongest_facts(a@, key, a@.len() as int);
    }
    let mut message = String::new();
    push_str(&mut message, "Repeated pulse activity coincided with a power spike between ");
    push_decimal(&mut message, key.0 / 1_000_000);
    push_str(&mut message, "-");
    push_decimal(&mut message, key.1 / 1_000_000);
    push_str(&mut message, " MHz.");
    let mut alert_type = String::new();
    push_str(&mut alert_type, "coincident_pulse_spike");
    AlertDecision {
        id: new_event_id(),
        alert_type,
        severity: AlertSeverity::Critical,
        message,
        detected_at_ms: a[s].detected_at_ms,
        source_sequence: a[s].source_sequence,
        frequency_start_hz: key.0,
        frequency_end_hz: key.1,
        power_source: s,
    }
}

fn absorbed_flags(a: &[AnomalyRecord]) -> (f: Vec<bool>)
    ensures
        f.len() == a.len(),
        forall|j: int| 0 <= j < a.len() ==> f@[j] == absorbed(a@, j),
{
    let mut f: Vec<bool> = Vec::new();
    let mut j: usize = 0;
    while j < a.len()
        invariant
            0 <= j <= a.len(),
            f.len() == j,
            forall|k: int| 0 <= k < j ==> f@[k] == absorbed(a@, k),
        decreases a.len() - j,
    {
        let t = a[j].anomaly_type;
        let flag = (t == AnomalyType::RepeatedPulses || t == AnomalyType::PowerSpike) && is_coincident(
            a,
            (a[j].frequency_start_hz, a[j].frequency_end_hz),
        );
        f.push(flag);
        j = j + 1;
    }
    f
}

fn is_skipped(a: &[AnomalyRecord], flags: &Vec<bool>, i: usize) -> (b: bool)
    requires
        i < a.len(),
        flags.len() == a.len(),
        forall|j: int| 0 <= j < a.len() ==> flags@[j] == absorbed(a@, j),
    ensures
        b == skipped(a@, i as int),
{
    let mut j: usize = 0;
    while j < a.len()
        invariant
            0 <= j <= a.len(),
            i < a.len(),
            flags.len() == a.len(),
            forall|k: int| 0 <= k < a.len() ==> flags@[k] == absorbed(a@, k),
            forall|k: int| 0 <= k < j ==> !(#[trigger] absorbed(a@, k) && a@[k].id@ == a@[i as int].id@),
        decreases a.len() - j,
    {
        if flags[j] && a[j].id == a[i].id {
            assert(absorbed(a@, j as int));
            return true;
        }
        j = j + 1;
    }
    false
}

proof fn lemma_find_condition_facts(c: Seq<ConditionWindow>, x: AnomalyRecord)
    ensures
        find_condition(c, x) matches Some(i) ==> 0 <= i < c.len() && condition_matches(c[i], x) && forall|k: int|
            0 <= k < i ==> !condition_matches(#[trigger] c[k], x),
        find_condition(c, x) is None ==> forall|k: int| 0 <= k < c.len() ==> !condition_matches(#[trigger] c[k], x),
    decreases c.len(),
{
    if c.len() > 0 {
        lemma_find_condition_facts(c.drop_last(), x);
        assert forall|k: int| 0 <= k < c.len() - 1 implies #[trigger] c[k] == c.drop_last()[k] by {}
    }
}

proof fn lemma_find_condition_first(c: Seq<ConditionWindow>, x: AnomalyRecord, i: int)
    requires
        0 <= i < c.len(),
        condition_matches(c[i], x),
        forall|k: int| 0 <= k < i ==> !condition_matches(#[trigger] c[k], x),
    ensures
        find_condition(c, x) == Some(i),
{
    lemma_find_condition_facts(c, x);
    match find_condition(c, x) {
        Some(j) => {
            if j < i {
                assert(!condition_matches(c[j], x));
            }
            if j > i {
                assert(!condition_matches(c[i], x));
            }
        },
        None => {
            assert(!condition_matches(c[i], x));
        },
    }
}

fn condition_alert_for(a: &[AnomalyRecord], i: usize, first: u64, sustained_ms: u64) -> (d: AlertDecision)
    requires
        i < a.len(),
    ensures
        d.model() == condition_alert(a@, i as int, first, sustained_ms),
        crate::ids::event_id_formed(d.id@),
{
    let x = &a[i];
    let sustained = x.detected_at_ms.saturating_sub(first) >= sustained_ms;
    let mut alert_type = String::new();
    push_str(&mut alert_type, anomaly_type_name(x.anomaly_type));
    let mut message = x.message.clone();
    if sustained {
        push_str(&mut message, " Condition has persisted for more than 30 seconds.");
    }
    AlertDecision {
        id: new_event_id(),
        alert_type,
        severity: if sustained { AlertSeverity::Critical } else { x.severity },
        message,
        detected_at_ms: x.detected_at_ms,
        source_sequence: x.source_sequence,
        frequency_start_hz: x.frequency_start_hz,
        frequency_end_hz: x.frequency_end_hz,
        power_source: i,
    }
}

pub open spec fn alert_models(v: Seq<AlertDecision>) -> Seq<AlertModel> {
    v.map_values(|d: AlertDecision| d.model())
}

pub open spec fn all_ids_formed(v: Seq<AlertDecision>) -> bool {
    forall|k: int| 0 <= k < v.len() ==> crate::ids::event_id_formed((#[trigger] v[k]).id@)
}

/// Raises alerts from batches of anomalies, remembering how long each
/// condition has been seen.
pub struct AlertEngine {
    sustained_critical_ms: u64,
    active_conditions: Vec<ConditionWindow>,
}

impl AlertEngine {
    /// An engine with no conditions observed, escalating a condition to
    /// critical once it has lasted `sustained_critical_ms` milliseconds.
    pub fn new(sustained_critical_ms: u64) -> (e: Self)
        ensures
            e.sustained_ms() == sustained_critical_ms,
            e.conditions() == Seq::<ConditionWindow>::empty(),
    {
        AlertEngine { sustained_critical_ms, active_conditions: Vec::new() }
    }

    pub closed spec fn sustained_ms(&self) -> u64 {
        self.sustained_critical_ms
    }

    pub closed spec fn conditions(&self) -> Seq<ConditionWindow> {
        self.active_conditions@
    }

    fn observe(&mut self, x: &AnomalyRecord) -> (first: u64)
        ensures
            (final(self).conditions(), first) == observe_condition(old(self).conditions(), *x),
            final(self).sustained_ms() == old(self).sustained_ms(),
    {
        proof {
            lemma_find_condition_facts(self.active_conditions@, *x);
        }
        let mut i: usize = 0;
        while i < self.active_conditions.len()
            invariant
                0 <= i <= self.active_conditions.len(),
                self.active_conditions@ == old(self).active_conditions@,
                self.sustained_critical_ms == old(self).sustained_critical_ms,
                forall|k: int| 0 <= k < i ==> !condition_matches(#[trigger] self.active_conditions@[k], *x),
            decreases self.active_conditions.len() - i,
        {
            let w = self.active_conditions[i];
            if w.anomaly_type == x.anomaly_type && w.frequency_start_hz == x.frequency_start_hz
                && w.frequency_end_hz == x.frequency_end_hz {
                proof {
                    lemma_find_condition_first(self.active_conditions@, *x, i as int);
                }
                let updated = ConditionWindow { last_seen_ms: x.detected_at_ms, ..w };
                self.active_conditions.set(i, updated);
                return w.first_seen_ms;
            }
            i = i + 1;
        }
        self.active_conditions.push(
            ConditionWindow {
                anomaly_type: x.anomaly_type,
                frequency_start_hz: x.frequency_start_hz,
                frequency_end_hz: x.frequency_end_hz,
                first_seen_ms: x.detected_at_ms,
                last_seen_ms: x.detected_at_ms,
            },
        );
        x.detected_at_ms
    }

    /// The alerts for one batch of anomalies: a critical alert for each band on
    /// which repeated pulses and a power spike coincide (in order of the bands'
    /// first appearance), then one alert per remaining anomaly, escalated to
    /// critical once its condition has lasted the sustained period.
    pub fn generate(&mut self, anomalies: &[AnomalyRecord]) -> (alerts: Vec<AlertDecision>)
        ensures
            alert_models(alerts@) == batch_alerts(old(self).conditions(), anomalies@, old(self).sustained_ms()),
            all_ids_formed(alerts@),
            final(self).conditions() == condition_alerts(
                old(self).conditions(),
                anomalies@,
                anomalies@.len() as int,
                old(self).sustained_ms(),
            ).0,
            final(self).sustained_ms() == old(self).sustained_ms(),
    {
        let ghost c0 = self.active_conditions@;
        let ghost a = anomalies@;
        let mut alerts: Vec<AlertDecision> = Vec::new();
        let keys = band_keys(anomalies);
        let mut k: usize = 0;
        while k < keys.len()
            invariant
                0 <= k <= keys.len(),
                a == anomalies@,
                keys@ == group_keys(a),
                alert_models(alerts@) == coincident_alerts(a, keys@.take(k as int)),
                all_ids_formed(alerts@),
                self.active_conditions@ == c0,
                self.sustained_critical_ms == old(self).sustained_critical_ms,
            decreases keys.len() - k,
        {
            let key = keys[k];
            proof {
                let t = keys@.take(k + 1);
                assert(t.drop_last() =~= keys@.take(k as int));
                assert(t.last() == key);
            }
            if is_coincident(anomalies, key) {
                let d = coincident_alert_for(anomalies, key);
                let ghost before = alerts@;
                alerts.push(d);
                proof {
                    assert(alert_models(alerts@) =~= alert_models(before).push(d.model()));
                }
            }
            k = k + 1;
        }
        proof {
            assert(keys@.take(keys.len() as int) =~= keys@);
        }
        let flags = absorbed_flags(anomalies);
        let ghost head = alert_models(alerts@);
        let mut i: usize = 0;
        while i < anomalies.len()
            invariant
                0 <= i <= anomalies.len(),
                a == anomalies@,
                flags.len() == a.len(),
                forall|j: int| 0 <= j < a.len() ==> flags@[j] == absorbed(a, j),
                head == coincident_alerts(a, group_keys(a)),
                alert_models(alerts@) == head + condition_alerts(c0, a, i as int, self.sustained_critical_ms).1,
                self.active_conditions@ == condition_alerts(c0, a, i as int, self.sustained_critical_ms).0,
                all_ids_formed(alerts@),
                self.sustained_critical_ms == old(self).sustained_critical_ms,
            decreases anomalies.len() - i,
        {
            if !is_skipped(anomalies, &flags, i) {
                let first = self.observe(&anomalies[i]);
                let d = condition_alert_for(anomalies, i, first, self.sustained_critical_ms);
                let ghost before = alerts@;
                alerts.push(d);
                proof {
                    assert(alert_models(alerts@) =~= alert_models(before).push(d.model()));
                }
            }
            i = i + 1;
        }
        alerts
    }
}


// ---------------------------------------------------------------------------
// Laws
// ---------------------------------------------------------------------------

proof fn lemma_group_keys_cover(a: Seq<AnomalyRecord>, i: int)
    requires
        0 <= i < a.len(),
    ensures
        group_keys(a).contains(band_of(a[i])),
    decreases a.len(),
{
    let keys = group_keys(a.drop_last());
    let b = band_of(a.last());
    if i < a.len() - 1 {
        lemma_group_keys_cover(a.drop_last(), i);
        assert(a.drop_last()[i] == a[i]);
        let j = choose|j: int| 0 <= j < keys.len() && keys[j] == band_of(a[i]);
        if !keys.contains(b) {
            assert(keys.push(b)[j] == band_of(a[i]));
        }
    } else if !keys.contains(b) {
        assert(keys.push(b)[keys.len() as int] == b);
    }
}

proof fn lemma_coincident_alerts_include(a: Seq<AnomalyRecord>, keys: Seq<(u64, u64)>, key: (u64, u64))
    requires
        keys.contains(key),
        coincident(a, key),
    ensures
        coincident_alerts(a, keys).contains(coincident_alert(a, key)),
    decreases keys.len(),
{
    if keys.last() == key {
        let r = coincident_alerts(a, keys.drop_last());
        assert(coincident_alerts(a, keys) == r.push(coincident_alert(a, key)));
        assert(r.push(coincident_alert(a, key))[r.len() as int] == coincident_alert(a, key));
    } else {
        let j = choose|j: int| 0 <= j < keys.len() && keys[j] == key;
        assert(keys.drop_last()[j] == key);
        lemma_coincident_alerts_include(a, keys.drop_last(), key);
        let r = coincident_alerts(a, keys.drop_last());
        let w = choose|w: int| 0 <= w < r.len() && r[w] == coincident_alert(a, key);
        if coincident(a, keys.last()) {
            assert(coincident_alerts(a, keys)[w] == coincident_alert(a, key));
        }
    }
}

/// What every per-anomaly alert of a batch looks like: it reports an anomaly
/// of the batch that was not folded into a coincident alert, under that
/// anomaly's type name.
proof fn lemma_condition_alerts_shape(c: Seq<ConditionWindow>, a: Seq<AnomalyRecord>, n: int, ms: u64)
    requires
        0 <= n <= a.len(),
    ensures
        forall|k: int|
            0 <= k < condition_alerts(c, a, n, ms).1.len() ==> {
                let m = #[trigger] condition_alerts(c, a, n, ms).1[k];
                &&& 0 <= m.power_source < n
                &&& !skipped(a, m.power_source)
                &&& m.alert_type == anomaly_type_text(a[m.power_source].anomaly_type)
            },
    decreases n,
{
    if n > 0 {
        lemma_condition_alerts_shape(c, a, n - 1, ms);
    }
}

proof fn lemma_condition_alerts_prefix(c: Seq<ConditionWindow>, a: Seq<AnomalyRecord>, m: int, n: int, ms: u64)
    requires
        0 <= m <= n,
    ensures
        condition_alerts(c, a, m, ms).1.len() <= condition_alerts(c, a, n, ms).1.len(),
        forall|k: int|
            0 <= k < condition_alerts(c, a, m, ms).1.len() ==> condition_alerts(c, a, n, ms).1[k]
                == #[trigger] condition_alerts(c, a, m, ms).1[k],
    decreases n - m,
{
    if m < n {
        lemma_condition_alerts_prefix(c, a, m, n - 1, ms);
    }
}

pub open spec fn same_condition(v: ConditionWindow, w: ConditionWindow) -> bool {
    v.anomaly_type == w.anomaly_type && v.frequency_start_hz == w.frequency_start_hz && v.frequency_end_hz
        == w.frequency_end_hz && v.first_seen_ms == w.first_seen_ms
}

/// A condition, once tracked, stays tracked at the same place with the same
/// first-seen time, whatever later batches bring: windows are only added or
/// have their last-seen time moved.
pub proof fn lemma_first_seen_kept(c: Seq<ConditionWindow>, a: Seq<AnomalyRecord>, n: int, ms: u64)
    ensures
        condition_alerts(c, a, n, ms).0.len() >= c.len(),
        forall|k: int|
            0 <= k < c.len() ==> same_condition(#[trigger] condition_alerts(c, a, n, ms).0[k], c[k]),
    decreases n,
{
    if n > 0 {
        lemma_first_seen_kept(c, a, n - 1, ms);
        let c1 = condition_alerts(c, a, n - 1, ms).0;
        if !skipped(a, n - 1) {
            lemma_find_condition_facts(c1, a[n - 1]);
        }
    }
}

proof fn lemma_find_condition_kept(c: Seq<ConditionWindow>, d: Seq<ConditionWindow>, x: AnomalyRecord, w: int)
    requires
        find_condition(c, x) == Some(w),
        d.len() >= c.len(),
        forall|k: int| 0 <= k < c.len() ==> same_condition(#[trigger] d[k], c[k]),
    ensures
        find_condition(d, x) == Some(w),
        d[w].first_seen_ms == c[w].first_seen_ms,
{
    lemma_find_condition_facts(c, x);
    assert(same_condition(d[w], c[w]));
    assert forall|k: int| 0 <= k < w implies !condition_matches(#[trigger] d[k], x) by {
        assert(same_condition(d[k], c[k]));
        assert(!condition_matches(c[k], x));
    }
    lemma_find_condition_first(d, x, w);
}

/// A repeated-pulse anomaly and a power-spike anomaly on the same band make
/// the batch carry a critical `coincident_pulse_spike` alert for that band,
/// and neither of them is reported by an alert of its own.
pub proof fn lemma_coincident_escalation(
    c: Seq<ConditionWindow>,
    a: Seq<AnomalyRecord>,
    ms: u64,
    p: int,
    s: int,
)
    requires
        0 <= p < a.len(),
        0 <= s < a.len(),
        a[p].anomaly_type == AnomalyType::RepeatedPulses,
        a[s].anomaly_type == AnomalyType::PowerSpike,
        band_of(a[p]) == band_of(a[s]),
    ensures
        exists|k: int|
            0 <= k < batch_alerts(c, a, ms).len() && {
                let m = #[trigger] batch_alerts(c, a, ms)[k];
                &&& m.alert_type == "coincident_pulse_spike"@
                &&& m.severity == AlertSeverity::Critical
                &&& m.frequency_start_hz == a[p].frequency_start_hz
                &&& m.frequency_end_hz == a[p].frequency_end_hz
            },
        forall|k: int|
            0 <= k < batch_alerts(c, a, ms).len() && (#[trigger] batch_alerts(c, a, ms)[k]).power_source
                == p ==> batch_alerts(c, a, ms)[k].alert_type == "coincident_pulse_spike"@,
        forall|k: int|
            0 <= k < batch_alerts(c, a, ms).len() && (#[trigger] batch_alerts(c, a, ms)[k]).power_source
                == s ==> batch_alerts(c, a, ms)[k].alert_type == "coincident_pulse_spike"@,
{
    let key = band_of(a[p]);
    assert(band_of(a[p]) == key && a[p].anomaly_type == AnomalyType::RepeatedPulses);
    assert(band_of(a[s]) == key && a[s].anomaly_type == AnomalyType::PowerSpike);
    assert(coincident(a, key));
    lemma_group_keys_cover(a, p);
    lemma_coincident_alerts_include(a, group_keys(a), key);
    let co = coincident_alerts(a, group_keys(a));
    let per = condition_alerts(c, a, a.len() as int, ms).1;
    assert(batch_alerts(c, a, ms) == co + per);
    let w = choose|w: int| 0 <= w < co.len() && co[w] == coincident_alert(a, key);
    assert(batch_alerts(c, a, ms)[w] == coincident_alert(a, key));
    assert(absorbed(a, p));
    assert(absorbed(a, s));
    assert(skipped(a, p));
    assert(skipped(a, s));
    lemma_coincident_alerts_shape(a, group_keys(a));
    lemma_condition_alerts_shape(c, a, a.len() as int, ms);
    reveal_strlit("coincident_pulse_spike");
    reveal_strlit("burst_activity");
    reveal_strlit("power_spike");
    reveal_strlit("abnormal_occupancy");
    reveal_strlit("repeated_pulses");
    assert forall|k: int|
        0 <= k < batch_alerts(c, a, ms).len() && (#[trigger] batch_alerts(c, a, ms)[k]).power_source
            == p implies batch_alerts(c, a, ms)[k].alert_type == "coincident_pulse_spike"@ by {
        if k >= co.len() {
            assert(batch_alerts(c, a, ms)[k] == per[k - co.len()]);
        } else {
            assert(batch_alerts(c, a, ms)[k] == co[k]);
        }
    }
    assert forall|k: int|
        0 <= k < batch_alerts(c, a, ms).len() && (#[trigger] batch_alerts(c, a, ms)[k]).power_source
            == s implies batch_alerts(c, a, ms)[k].alert_type == "coincident_pulse_spike"@ by {
        if k >= co.len() {
            assert(batch_alerts(c, a, ms)[k] == per[k - co.len()]);
        } else {
            assert(batch_alerts(c, a, ms)[k] == co[k]);
        }
    }
}

proof fn lemma_coincident_alerts_shape(a: Seq<AnomalyRecord>, keys: Seq<(u64, u64)>)
    ensures
        forall|k: int|
            0 <= k < coincident_alerts(a, keys).len() ==> (#[trigger] coincident_alerts(a, keys)[k]).alert_type
                == "coincident_pulse_spike"@,
    decreases keys.len(),
{
    if keys.len() > 0 {
        lemma_coincident_alerts_shape(a, keys.drop_last());
    }
}

/// A condition first seen at least the sustained period before a later
/// anomaly of the same type on the same band, and still tracked by the engine,
/// makes that anomaly's alert critical, with the persistence note appended.
pub proof fn lemma_sustained_escalation(c: Seq<ConditionWindow>, a: Seq<AnomalyRecord>, ms: u64, i: int, w: int)
    requires
        0 <= i < a.len(),
        !skipped(a, i),
        find_condition(c, a[i]) == Some(w),
        sat_sub(a[i].detected_at_ms, c[w].first_seen_ms) >= ms,
    ensures
        exists|k: int|
            0 <= k < batch_alerts(c, a, ms).len() && {
                let m = #[trigger] batch_alerts(c, a, ms)[k];
                &&& m.power_source == i
                &&& m.severity == AlertSeverity::Critical
                &&& m.message == a[i].message@ + sustained_suffix()
            },
{
    let c1 = condition_alerts(c, a, i, ms).0;
    lemma_first_seen_kept(c, a, i, ms);
    lemma_find_condition_kept(c, c1, a[i], w);
    let out_i = condition_alerts(c, a, i, ms).1;
    let out_n = condition_alerts(c, a, a.len() as int, ms).1;
    let m = condition_alert(a, i, c[w].first_seen_ms, ms);
    assert(condition_alerts(c, a, i + 1, ms).1 == out_i.push(m));
    lemma_condition_alerts_prefix(c, a, i + 1, a.len() as int, ms);
    assert(condition_alerts(c, a, i + 1, ms).1[out_i.len() as int] == m);
    assert(out_n[out_i.len() as int] == m);
    let co = coincident_alerts(a, group_keys(a));
    let k: int = (co.len() + out_i.len()) as int;
    assert(batch_alerts(c, a, ms)[k] == m);
}


/// Conditions are kept per anomaly type and band: observing an anomaly whose
/// type and band no tracked window has (windows of other types on the same
/// band do not count) opens a window of its own, first and last seen at the
/// anomaly's detection time, and leaves every other window as it was; the
/// condition is first seen at the anomaly's own time.
pub proof fn lemma_new_condition_window(c: Seq<ConditionWindow>, x: AnomalyRecord)
    requires
        forall|k: int|
            0 <= k < c.len() ==> !((#[trigger] c[k]).anomaly_type == x.anomaly_type && c[k].frequency_start_hz
                == x.frequency_start_hz && c[k].frequency_end_hz == x.frequency_end_hz),
    ensures
        observe_condition(c, x).1 == x.detected_at_ms,
        observe_condition(c, x).0 == c.push(
            ConditionWindow {
                anomaly_type: x.anomaly_type,
                frequency_start_hz: x.frequency_start_hz,
                frequency_end_hz: x.frequency_end_hz,
                first_seen_ms: x.detected_at_ms,
                last_seen_ms: x.detected_at_ms,
            },
        ),
{
    lemma_find_condition_facts(c, x);
}

/// A lone anomaly of a new condition is not escalated: when a batch holds one
/// anomaly whose type and band no tracked window has, and the sustained period
/// is positive, the batch raises exactly one alert, with the anomaly's own
/// severity and message, and the engine starts tracking its condition from
/// the anomaly's detection time.
pub proof fn lemma_new_condition_not_escalated(c: Seq<ConditionWindow>, x: AnomalyRecord, sustained_ms: u64)
    requires
        sustained_ms > 0,
        forall|k: int|
            0 <= k < c.len() ==> !((#[trigger] c[k]).anomaly_type == x.anomaly_type && c[k].frequency_start_hz
                == x.frequency_start_hz && c[k].frequency_end_hz == x.frequency_end_hz),
    ensures
        batch_alerts(c, seq![x], sustained_ms).len() == 1,
        batch_alerts(c, seq![x], sustained_ms)[0].severity == x.severity,
        batch_alerts(c, seq![x], sustained_ms)[0].message == x.message@,
        batch_alerts(c, seq![x], sustained_ms)[0].detected_at_ms == x.detected_at_ms,
        condition_alerts(c, seq![x], 1, sustained_ms).0 == c.push(
            ConditionWindow {
                anomaly_type: x.anomaly_type,
                frequency_start_hz: x.frequency_start_hz,
                frequency_end_hz: x.frequency_end_hz,
                first_seen_ms: x.detected_at_ms,
                last_seen_ms: x.detected_at_ms,
            },
        ),
{
    let a = seq![x];
    lemma_new_condition_window(c, x);
    // One anomaly is never coincident: that needs both a pulse and a spike.
    assert forall|key: (u64, u64)| !coincident(a, key) by {
        if band_has_type(a, key, AnomalyType::RepeatedPulses) && band_has_type(a, key, AnomalyType::PowerSpike) {
            let i = choose|i: int| 0 <= i < a.len() && #[trigger] band_of(a[i]) == key && a[i].anomaly_type
                == AnomalyType::RepeatedPulses;
            let j = choose|j: int| 0 <= j < a.len() && #[trigger] band_of(a[j]) == key && a[j].anomaly_type
                == AnomalyType::PowerSpike;
            assert(i == 0 && j == 0);
        }
    }
    assert(!skipped(a, 0)) by {
        if skipped(a, 0) {
            let j = choose|j: int| 0 <= j < a.len() && #[trigger] absorbed(a, j) && a[j].id@ == a[0].id@;
            assert(!coincident(a, band_of(a[j])));
        }
    }
    let keys = group_keys(a);
    assert(a.drop_last().len() == 0);
    assert(group_keys(a.drop_last()).len() == 0);
    assert(keys =~= seq![band_of(x)]);
    assert(!coincident(a, band_of(x)));
    assert(keys.drop_last() =~= Seq::<(u64, u64)>::empty());
    assert(keys.last() == band_of(x));
    assert(coincident_alerts(a, keys.drop_last()) =~= Seq::<AlertModel>::empty());
    assert(coincident_alerts(a, keys) =~= Seq::<AlertModel>::empty());
    assert(condition_alerts(c, a, 0, sustained_ms).1.len() == 0);
    assert(batch_alerts(c, a, sustained_ms) =~= seq![condition_alert(a, 0, x.detected_at_ms, sustained_ms)]);
}
} // verus!
