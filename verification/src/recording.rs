//! Summaries of recording files: which entries count as alerts, anomalies
//! and IGOR findings, and the totals and time span of a session.
use vstd::prelude::*;
use crate::models::{AnomalyType, EventKind, RecordingFileSummary, TelemetryKind};
use crate::text::{chars_of, trim, trim_bounds};

verus! {

/// What a recording entry counts as in a session summary.
#[derive(Clone, Copy, Debug, PartialEq, Eq, Structural)]
pub enum RecordingEventKind {
    Alert,
    Anomaly,
    Igor,
    Other,
}

pub open spec fn canonical_entry_kind(k: EventKind) -> RecordingEventKind {
    match k {
        EventKind::AlertEvent => RecordingEventKind::Alert,
        EventKind::IgorAnalysis => RecordingEventKind::Igor,
        _ => RecordingEventKind::Other,
    }
}

pub open spec fn legacy_entry_kind(k: TelemetryKind) -> RecordingEventKind {
    match k {
        TelemetryKind::Alert => RecordingEventKind::Alert,
        TelemetryKind::Anomaly => RecordingEventKind::Anomaly,
        TelemetryKind::IgorAssessment => RecordingEventKind::Igor,
        _ => RecordingEventKind::Other,
    }
}

/// How an entry of the versioned format counts.
pub fn canonical_kind(k: EventKind) -> (r: RecordingEventKind)
    ensures
        r == canonical_entry_kind(k),
{
    match k {
        EventKind::AlertEvent => RecordingEventKind::Alert,
        EventKind::IgorAnalysis => RecordingEventKind::Igor,
        _ => RecordingEventKind::Other,
    }
}

/// How an entry of the legacy format counts.
pub fn legacy_kind(k: TelemetryKind) -> (r: RecordingEventKind)
    ensures
        r == legacy_entry_kind(k),
{
    match k {
        TelemetryKind::Alert => RecordingEventKind::Alert,
        TelemetryKind::Anomaly => RecordingEventKind::Anomaly,
        TelemetryKind::IgorAssessment => RecordingEventKind::Igor,
        _ => RecordingEventKind::Other,
    }
}

/// One entry of a recording, as far as the summary needs it.
#[derive(Clone, Copy, Debug, PartialEq, Eq, Structural)]
pub struct ParsedRecordingLine {
    pub recorded_at_ms: u64,
    pub event_kind: RecordingEventKind,
}

/// Totals and time span of a recording session.
#[derive(Clone, Copy, Debug, PartialEq, Eq, Structural)]
pub struct RecordingMetrics {
    pub started_at_ms: Option<u64>,
    pub ended_at_ms: Option<u64>,
    pub event_count: u64,
    pub alert_count: u64,
    pub anomaly_count: u64,
    pub igor_count: u64,
}

pub open spec fn count_kind(lines: Seq<ParsedRecordingLine>, k: RecordingEventKind) -> nat
    decreases lines.len(),
{
    if lines.len() == 0 {
        0
    } else {
        count_kind(lines.drop_last(), k) + if lines.last().event_kind == k { 1nat } else { 0nat }
    }
}

/// The summary of a session's entries: first and last entry time, number of
/// entries, and how many count as alerts, anomalies and IGOR findings.
pub open spec fn summary_of(lines: Seq<ParsedRecordingLine>) -> RecordingMetrics {
    RecordingMetrics {
        started_at_ms: if lines.len() == 0 { None } else { Some(lines[0].recorded_at_ms) },
        ended_at_ms: if lines.len() == 0 { None } else { Some(lines.last().recorded_at_ms) },
        event_count: lines.len() as u64,
        alert_count: count_kind(lines, RecordingEventKind::Alert) as u64,
        anomaly_count: count_kind(lines, RecordingEventKind::Anomaly) as u64,
        igor_count: count_kind(lines, RecordingEventKind::Igor) as u64,
    }
}

proof fn lemma_count_bounded(lines: Seq<ParsedRecordingLine>, k: RecordingEventKind)
    ensures
        count_kind(lines, k) <= lines.len(),
    decreases lines.len(),
{
    if lines.len() > 0 {
        lemma_count_bounded(lines.drop_last(), k);
    }
}

impl RecordingMetrics {
    /// The summary of no entries.
    pub fn empty() -> (m: Self)
        ensures
            m == summary_of(Seq::empty()),
    {
        RecordingMetrics {
            started_at_ms: None,
            ended_at_ms: None,
            event_count: 0,
            alert_count: 0,
            anomaly_count: 0,
            igor_count: 0,
        }
    }

    /// Counts one more entry.
    pub fn record(&mut self, line: ParsedRecordingLine)
        requires
            old(self).event_count < u64::MAX,
            old(self).alert_count < u64::MAX,
            old(self).anomaly_count < u64::MAX,
            old(self).igor_count < u64::MAX,
        ensures
            final(self).started_at_ms == (match old(self).started_at_ms {
                Some(s) => Some(s),
                None => Some(line.recorded_at_ms),
            }),
            final(self).ended_at_ms == Some(line.recorded_at_ms),
            final(self).event_count == old(self).event_count + 1,
            final(self).alert_count == old(self).alert_count + if line.event_kind == RecordingEventKind::Alert {
                1int
            } else {
                0int
            },
            final(self).anomaly_count == old(self).anomaly_count + if line.event_kind
                == RecordingEventKind::Anomaly {
                1int
            } else {
                0int
            },
            final(self).igor_count == old(self).igor_count + if line.event_kind == RecordingEventKind::Igor {
                1int
            } else {
                0int
            },
    {
        if self.started_at_ms.is_none() {
            self.started_at_ms = Some(line.recorded_at_ms);
        }
        self.ended_at_ms = Some(line.recorded_at_ms);
        self.event_count = self.event_count + 1;
        match line.event_kind {
            RecordingEventKind::Alert => self.alert_count = self.alert_count + 1,
            RecordingEventKind::Anomaly => self.anomaly_count = self.anomaly_count + 1,
            RecordingEventKind::Igor => self.igor_count = self.igor_count + 1,
            RecordingEventKind::Other => {},
        }
    }
}

/// The summary of a session's entries, in file order.
pub fn summarize_lines(lines: &[ParsedRecordingLine]) -> (m: RecordingMetrics)
    requires
        lines.len() < u64::MAX,
    ensures
        m == summary_of(lines@),
{
    let mut m = RecordingMetrics::empty();
    let mut i: usize = 0;
    while i < lines.len()
        invariant
            0 <= i <= lines.len(),
            lines.len() < u64::MAX,
            m == summary_of(lines@.take(i as int)),
        decreases lines.len() - i,
    {
        proof {
            let t = lines@.take(i + 1);
            assert(t.drop_last() =~= lines@.take(i as int));
            assert(t.last() == lines@[i as int]);
            lemma_count_bounded(lines@.take(i as int), RecordingEventKind::Alert);
            lemma_count_bounded(lines@.take(i as int), RecordingEventKind::Anomaly);
            lemma_count_bounded(lines@.take(i as int), RecordingEventKind::Igor);
            if i > 0 {
                assert(t[0] == lines@.take(i as int)[0]);
            }
        }
        m.record(lines[i]);
        i = i + 1;
    }
    proof {
        assert(lines@.take(i as int) =~= lines@);
    }
    m
}

/// A line that holds nothing but whitespace is not an entry.
pub fn is_blank(line: &str) -> (b: bool)
    ensures
        b == (trim(line@).len() == 0),
{
    let v = chars_of(line);
    let (a, z) = trim_bounds(&v, 0, v.len());
    proof {
        assert(v@.subrange(0, v@.len() as int) =~= v@);
    }
    a == z
}

pub open spec fn migrated_alert_type_text(t: AnomalyType) -> Seq<char> {
    match t {
        AnomalyType::BurstActivity => "anomaly_burstactivity"@,
        AnomalyType::PowerSpike => "anomaly_powerspike"@,
        AnomalyType::AbnormalOccupancy => "anomaly_abnormaloccupancy"@,
        AnomalyType::RepeatedPulses => "anomaly_repeatedpulses"@,
    }
}

/// The alert type given to a legacy anomaly entry when it migrates to an
/// alert: `anomaly_` and the anomaly type's name in lower case.
pub fn migrated_alert_type(t: AnomalyType) -> (s: String)
    ensures
        s@ == migrated_alert_type_text(t),
{
    match t {
        AnomalyType::BurstActivity => String::from_str("anomaly_burstactivity"),
        AnomalyType::PowerSpike => String::from_str("anomaly_powerspike"),
        AnomalyType::AbnormalOccupancy => String::from_str("anomaly_abnormaloccupancy"),
        AnomalyType::RepeatedPulses => String::from_str("anomaly_repeatedpulses"),
    }
}

/// Every entry counts as exactly one of alert, anomaly, IGOR finding or
/// other, so the three counted kinds never exceed the number of entries.
pub proof fn lemma_kinds_partition(lines: Seq<ParsedRecordingLine>)
    ensures
        count_kind(lines, RecordingEventKind::Alert) + count_kind(lines, RecordingEventKind::Anomaly)
            + count_kind(lines, RecordingEventKind::Igor) + count_kind(lines, RecordingEventKind::Other)
            == lines.len(),
    decreases lines.len(),
{
    if lines.len() > 0 {
        lemma_kinds_partition(lines.drop_last());
    }
}

/// `output` lists `input` newest first by modification time, keeping the
/// input order among equally old files: `output[i]` is `input[p[i]]` for a
/// permutation `p`.
pub open spec fn newest_first_by(
    input: Seq<RecordingFileSummary>,
    output: Seq<RecordingFileSummary>,
    p: Seq<int>,
) -> bool {
    &&& p.len() == input.len()
    &&& output.len() == input.len()
    &&& forall|i: int| 0 <= i < p.len() ==> 0 <= #[trigger] p[i] < input.len() && output[i] == input[p[i]]
    &&& forall|i: int, j: int| 0 <= i < j < p.len() ==> #[trigger] p[i] != #[trigger] p[j]
    &&& forall|i: int, j: int|
        0 <= i < j < output.len() ==> (#[trigger] output[i]).modified_at_ms >= (#[trigger] output[j]).modified_at_ms
    &&& forall|i: int, j: int|
        0 <= i < j < output.len() && (#[trigger] output[i]).modified_at_ms == (#[trigger] output[j]).modified_at_ms
            ==> p[i] < p[j]
}

pub open spec fn newest_first(input: Seq<RecordingFileSummary>, output: Seq<RecordingFileSummary>) -> bool {
    exists|p: Seq<int>| newest_first_by(input, output, p)
}

/// Orders recordings newest first (a stable sort on modification time,
/// descending).
pub fn sort_newest_first(recordings: Vec<RecordingFileSummary>) -> (sorted: Vec<RecordingFileSummary>)
    ensures
        newest_first(recordings@, sorted@),
{
    let ghost orig = recordings@;
    let ghost n = orig.len();
    let total = recordings.len();
    assert(n == total);
    let mut rest = recordings;
    let mut out: Vec<RecordingFileSummary> = Vec::new();
    let ghost mut p: Seq<int> = Seq::empty();
    let mut t: usize = 0;
    while rest.len() > 0
        invariant
            n == orig.len(),
            n <= usize::MAX,
            t + rest.len() == n,
            rest@ == orig.subrange(t as int, n as int),
            newest_first_by(orig.take(t as int), out@, p),
        decreases rest.len(),
    {
        let x = rest.remove(0);
        assert(x == orig[t as int]);
        assert(rest@ =~= orig.subrange(t + 1, n as int));
        let mut pos: usize = 0;
        while pos < out.len() && out[pos].modified_at_ms >= x.modified_at_ms
            invariant
                0 <= pos <= out.len(),
                forall|i: int| 0 <= i < pos ==> (#[trigger] out@[i]).modified_at_ms >= x.modified_at_ms,
            decreases out.len() - pos,
        {
            pos = pos + 1;
        }
        let ghost old_out = out@;
        let ghost old_p = p;
        let ghost prefix = orig.take(t as int);
        let ghost next = orig.take(t + 1);
        out.insert(pos, x);
        proof {
            p = old_p.insert(pos as int, t as int);
            assert(pos < old_out.len() ==> old_out[pos as int].modified_at_ms < x.modified_at_ms);
            assert forall|i: int| pos <= i < old_out.len() implies (#[trigger] old_out[i]).modified_at_ms
                < x.modified_at_ms by {
                if i > pos {
                    assert(old_out[pos as int].modified_at_ms >= old_out[i].modified_at_ms);
                }
            }
            assert forall|i: int| 0 <= i < p.len() implies 0 <= #[trigger] p[i] < next.len() && out@[i] == next[p[i]] by {
                if i < pos {
                    assert(p[i] == old_p[i]);
                    assert(out@[i] == old_out[i]);
                } else if i == pos {
                } else {
                    assert(p[i] == old_p[i - 1]);
                    assert(out@[i] == old_out[i - 1]);
                }
            }
            assert forall|i: int, j: int| 0 <= i < j < p.len() implies #[trigger] p[i] != #[trigger] p[j] by {
                if i < pos && j < pos {
                } else if i < pos && j == pos {
                    assert(old_p[i] < t);
                } else if i < pos && j > pos {
                    assert(p[j] == old_p[j - 1]);
                } else if i == pos {
                    assert(p[j] == old_p[j - 1]);
                    assert(old_p[j - 1] < t);
                } else {
                    assert(p[i] == old_p[i - 1]);
                    assert(p[j] == old_p[j - 1]);
                }
            }
            assert forall|i: int, j: int|
                0 <= i < j < out@.len() implies (#[trigger] out@[i]).modified_at_ms
                    >= (#[trigger] out@[j]).modified_at_ms by {
                if j < pos {
                } else if j == pos {
                    assert(out@[i] == old_out[i]);
                } else if i < pos {
                    assert(out@[i] == old_out[i]);
                    assert(out@[j] == old_out[j - 1]);
                } else if i == pos {
                    assert(out@[j] == old_out[j - 1]);
                } else {
                    assert(out@[i] == old_out[i - 1]);
                    assert(out@[j] == old_out[j - 1]);
                }
            }
            assert forall|i: int, j: int|
                0 <= i < j < out@.len() && (#[trigger] out@[i]).modified_at_ms
                    == (#[trigger] out@[j]).modified_at_ms implies p[i] < p[j] by {
                if j < pos {
                } else if j == pos {
                    assert(out@[i] == old_out[i]);
                    assert(old_p[i] < t);
                } else if i < pos {
                    assert(out@[i] == old_out[i]);
                    assert(out@[j] == old_out[j - 1]);
                    assert(p[j] == old_p[j - 1]);
                } else if i == pos {
                    assert(out@[j] == old_out[j - 1]);
                } else {
                    assert(out@[i] == old_out[i - 1]);
                    assert(out@[j] == old_out[j - 1]);
                    assert(p[i] == old_p[i - 1]);
                    assert(p[j] == old_p[j - 1]);
                }
            }
            assert forall|i: int| 0 <= i < prefix.len() implies #[trigger] next[i] == prefix[i] by {}
            assert(newest_first_by(next, out@, p));
        }
        t = t + 1;
    }
    proof {
        assert(orig.take(t as int) =~= orig);
    }
    out
}

} // verus!
