//! The counting side of the signal classifier: grouping peaks into
//! segments, numbering labels, and tallying predictions.
use vstd::prelude::*;

verus! {

/// Peaks further apart than this (in milliseconds) start a new segment.
pub const SEGMENT_GAP_MS: u64 = 2_000;

/// A feature dataset needs at least this many rows to train on.
pub const MIN_TRAINING_ROWS: usize = 5;

/// What segmenting needs of a peak.
#[derive(Clone, Copy, Debug, PartialEq, Eq, Structural)]
pub struct PeakPoint {
    pub detected_at_ms: u64,
    pub frequency_start_hz: u64,
    pub frequency_end_hz: u64,
}

/// Consecutive peaks on overlapping bands, each within the gap of the
/// previous one. `members` are the indices of its peaks, in order.
#[derive(Clone, Debug)]
pub struct PeakSegment {
    pub start_ms: u64,
    pub end_ms: u64,
    pub frequency_start_hz: u64,
    pub frequency_end_hz: u64,
    pub members: Vec<usize>,
}

pub struct SegmentModel {
    pub start_ms: u64,
    pub end_ms: u64,
    pub frequency_start_hz: u64,
    pub frequency_end_hz: u64,
    pub members: Seq<usize>,
}

impl PeakSegment {
    pub open spec fn model(&self) -> SegmentModel {
        SegmentModel {
            start_ms: self.start_ms,
            end_ms: self.end_ms,
            frequency_start_hz: self.frequency_start_hz,
            frequency_end_hz: self.frequency_end_hz,
            members: self.members@,
        }
    }
}

pub open spec fn segment_models(v: Seq<PeakSegment>) -> Seq<SegmentModel> {
    v.map_values(|s: PeakSegment| s.model())
}

pub open spec fn min_u64(a: u64, b: u64) -> u64 {
    if a <= b { a } else { b }
}

pub open spec fn max_u64(a: u64, b: u64) -> u64 {
    if a >= b { a } else { b }
}

/// Peak `p` continues segment `s`: the bands overlap and it came within the
/// gap after the segment's last peak.
pub open spec fn continues(s: SegmentModel, p: PeakPoint) -> bool {
    &&& p.frequency_start_hz <= s.frequency_end_hz
    &&& p.frequency_end_hz >= s.frequency_start_hz
    &&& (if p.detected_at_ms >= s.end_ms { p.detected_at_ms - s.end_ms } else { 0 }) <= SEGMENT_GAP_MS
}

/// The segments of the first `n` peaks: each peak extends the last segment
/// when it continues it, and opens a new one otherwise.
pub open spec fn segments_of(peaks: Seq<PeakPoint>, n: int) -> Seq<SegmentModel>
    decreases n,
{
    if n <= 0 {
        Seq::empty()
    } else {
        let segs = segments_of(peaks, n - 1);
        let p = peaks[n - 1];
        if segs.len() > 0 && continues(segs.last(), p) {
            let s = segs.last();
            segs.update(
                segs.len() - 1,
                SegmentModel {
                    end_ms: p.detected_at_ms,
                    frequency_start_hz: min_u64(s.frequency_start_hz, p.frequency_start_hz),
                    frequency_end_hz: max_u64(s.frequency_end_hz, p.frequency_end_hz),
                    members: s.members.push((n - 1) as usize),
                    ..s
                },
            )
        } else {
            segs.push(
                SegmentModel {
                    start_ms: p.detected_at_ms,
                    end_ms: p.detected_at_ms,
                    frequency_start_hz: p.frequency_start_hz,
                    frequency_end_hz: p.frequency_end_hz,
                    members: seq![(n - 1) as usize],
                },
            )
        }
    }
}

/// The segments of a sequence of peaks, in order.
pub fn segment_peaks(peaks: &[PeakPoint]) -> (segs: Vec<PeakSegment>)
    ensures
        segment_models(segs@) == segments_of(peaks@, peaks@.len() as int),
{
    let mut segs: Vec<PeakSegment> = Vec::new();
    let mut i: usize = 0;
    while i < peaks.len()
        invariant
            0 <= i <= peaks.len(),
            segment_models(segs@) == segments_of(peaks@, i as int),
        decreases peaks.len() - i,
    {
        let p = peaks[i];
        let n = segs.len();
        let mut extended = false;
        if n > 0 {
            let s = &segs[n - 1];
            let gap = p.detected_at_ms.saturating_sub(s.end_ms);
            if p.frequency_start_hz <= s.frequency_end_hz && p.frequency_end_hz >= s.frequency_start_hz
                && gap <= SEGMENT_GAP_MS {
                let ghost before = segs@;
                let mut last = segs.pop().unwrap();
                assert(last == before[n - 1]);
                last.end_ms = p.detected_at_ms;
                if p.frequency_start_hz < last.frequency_start_hz {
                    last.frequency_start_hz = p.frequency_start_hz;
                }
                if p.frequency_end_hz > last.frequency_end_hz {
                    last.frequency_end_hz = p.frequency_end_hz;
                }
                last.members.push(i);
                segs.push(last);
                extended = true;
                proof {
                    assert(segment_models(segs@) =~= segment_models(before).update(n - 1, last.model()));
                }
            }
        }
        if !extended {
            let mut members: Vec<usize> = Vec::new();
            members.push(i);
            let ghost before = segs@;
            let seg = PeakSegment {
                start_ms: p.detected_at_ms,
                end_ms: p.detected_at_ms,
                frequency_start_hz: p.frequency_start_hz,
                frequency_end_hz: p.frequency_end_hz,
                members,
            };
            segs.push(seg);
            proof {
                assert(seg.model().members =~= seq![i]);
                assert(segment_models(segs@) =~= segment_models(before).push(seg.model()));
            }
        }
        i = i + 1;
    }
    segs
}

/// The distinct labels among the first `n`, in order of first appearance.
pub open spec fn distinct_labels(labels: Seq<Seq<char>>, n: int) -> Seq<Seq<char>>
    decreases n,
{
    if n <= 0 {
        Seq::empty()
    } else {
        let d = distinct_labels(labels, n - 1);
        if d.contains(labels[n - 1]) {
            d
        } else {
            d.push(labels[n - 1])
        }
    }
}

/// Labels are numbered by first appearance: a row's index is the position of
/// its label among the distinct labels.
pub open spec fn label_numbering(labels: Seq<Seq<char>>, indices: Seq<u32>) -> bool {
    &&& indices.len() == labels.len()
    &&& forall|i: int|
        0 <= i < labels.len() ==> {
            let d = distinct_labels(labels, labels.len() as int);
            &&& 0 <= #[trigger] indices[i] < d.len()
            &&& d[indices[i] as int] == labels[i]
        }
}

pub open spec fn label_views(labels: Seq<String>) -> Seq<Seq<char>> {
    labels.map_values(|l: String| l@)
}

proof fn lemma_distinct_prefix(labels: Seq<Seq<char>>, m: int, n: int)
    requires
        0 <= m <= n,
    ensures
        distinct_labels(labels, m).len() <= distinct_labels(labels, n).len(),
        forall|k: int|
            0 <= k < distinct_labels(labels, m).len() ==> distinct_labels(labels, n)[k]
                == #[trigger] distinct_labels(labels, m)[k],
    decreases n - m,
{
    if m < n {
        lemma_distinct_prefix(labels, m, n - 1);
    }
}

fn find_label(distinct: &Vec<String>, label: &String) -> (r: Option<usize>)
    ensures
        match r {
            Some(k) => k < distinct.len() && distinct@[k as int]@ == label@,
            None => forall|k: int| 0 <= k < distinct.len() ==> distinct@[k]@ != label@,
        },
{
    let mut k: usize = 0;
    while k < distinct.len()
        invariant
            0 <= k <= distinct.len(),
            forall|j: int| 0 <= j < k ==> distinct@[j]@ != label@,
        decreases distinct.len() - k,
    {
        if distinct[k] == *label {
            return Some(k);
        }
        k = k + 1;
    }
    None
}

/// Numbers the labels of a dataset by first appearance, and lists the
/// distinct labels in that order.
pub fn number_labels(labels: &Vec<String>) -> (r: (Vec<u32>, Vec<String>))
    requires
        labels.len() <= u32::MAX,
    ensures
        label_numbering(label_views(labels@), r.0@),
        label_views(r.1@) == distinct_labels(label_views(labels@), labels.len() as int),
{
    let ghost lv = label_views(labels@);
    let mut indices: Vec<u32> = Vec::new();
    let mut distinct: Vec<String> = Vec::new();
    let mut i: usize = 0;
    while i < labels.len()
        invariant
            0 <= i <= labels.len(),
            labels.len() <= u32::MAX,
            lv == label_views(labels@),
            label_views(distinct@) == distinct_labels(lv, i as int),
            distinct.len() <= i,
            indices.len() == i,
            forall|j: int|
                0 <= j < i ==> {
                    let d = distinct_labels(lv, i as int);
                    &&& 0 <= #[trigger] indices@[j] < d.len()
                    &&& d[indices@[j] as int] == lv[j]
                },
        decreases labels.len() - i,
    {
        proof {
            lemma_distinct_prefix(lv, i as int, i + 1);
        }
        let ghost d0 = distinct_labels(lv, i as int);
        let label = &labels[i];
        assert(lv[i as int] == label@);
        match find_label(&distinct, label) {
            Some(k) => {
                proof {
                    assert(label_views(distinct@)[k as int] == label@);
                    assert(d0.contains(lv[i as int]));
                }
                indices.push(k as u32);
            },
            None => {
                proof {
                    assert forall|k: int| 0 <= k < d0.len() implies d0[k] != lv[i as int] by {
                        assert(label_views(distinct@)[k] == distinct@[k]@);
                    }
                }
                let n = distinct.len();
                let ghost before = distinct@;
                distinct.push(label.clone());
                proof {
                    assert(label_views(distinct@) =~= label_views(before).push(label@));
                }
                indices.push(n as u32);
            },
        }
        i = i + 1;
    }
    (indices, distinct)
}

pub open spec fn correct_upto(predictions: Seq<u32>, actual: Seq<u32>, n: int) -> nat
    decreases n,
{
    if n <= 0 {
        0
    } else {
        correct_upto(predictions, actual, n - 1) + if predictions[n - 1] == actual[n - 1] { 1nat } else { 0nat }
    }
}

pub open spec fn pair_count(predictions: Seq<u32>, actual: Seq<u32>) -> int {
    if predictions.len() <= actual.len() { predictions.len() as int } else { actual.len() as int }
}

/// How many predictions match the actual class, pairing them up in order.
pub fn count_correct(predictions: &[u32], actual: &[u32]) -> (c: usize)
    ensures
        c == correct_upto(predictions@, actual@, pair_count(predictions@, actual@)),
{
    let n = if predictions.len() <= actual.len() { predictions.len() } else { actual.len() };
    let mut c: usize = 0;
    let mut i: usize = 0;
    while i < n
        invariant
            0 <= i <= n,
            n == pair_count(predictions@, actual@),
            c == correct_upto(predictions@, actual@, i as int),
            c <= i,
        decreases n - i,
    {
        if predictions[i] == actual[i] {
            c = c + 1;
        }
        i = i + 1;
    }
    c
}

/// Tallies for one class.
#[derive(Clone, Copy, Debug, PartialEq, Eq, Structural)]
pub struct ClassCounts {
    /// Paired rows predicted as the class that are of the class.
    pub true_positive: usize,
    /// Predictions of the class.
    pub predicted_positive: usize,
    /// Actual rows of the class.
    pub actual_positive: usize,
}

pub open spec fn hits_upto(predictions: Seq<u32>, actual: Seq<u32>, class: u32, n: int) -> nat
    decreases n,
{
    if n <= 0 {
        0
    } else {
        hits_upto(predictions, actual, class, n - 1) + if predictions[n - 1] == class && actual[n - 1]
            == class {
            1nat
        } else {
            0nat
        }
    }
}

pub open spec fn occurrences(s: Seq<u32>, class: u32, n: int) -> nat
    decreases n,
{
    if n <= 0 {
        0
    } else {
        occurrences(s, class, n - 1) + if s[n - 1] == class { 1nat } else { 0nat }
    }
}

fn count_occurrences(s: &[u32], class: u32) -> (c: usize)
    ensures
        c == occurrences(s@, class, s@.len() as int),
{
    let mut c: usize = 0;
    let mut i: usize = 0;
    while i < s.len()
        invariant
            0 <= i <= s.len(),
            c == occurrences(s@, class, i as int),
            c <= i,
        decreases s.len() - i,
    {
        if s[i] == class {
            c = c + 1;
        }
        i = i + 1;
    }
    c
}

/// The tallies of one class over paired predictions and actual classes.
pub fn class_counts(predictions: &[u32], actual: &[u32], class: u32) -> (r: ClassCounts)
    ensures
        r.true_positive == hits_upto(predictions@, actual@, class, pair_count(predictions@, actual@)),
        r.predicted_positive == occurrences(predictions@, class, predictions@.len() as int),
        r.actual_positive == occurrences(actual@, class, actual@.len() as int),
{
    let n = if predictions.len() <= actual.len() { predictions.len() } else { actual.len() };
    let mut tp: usize = 0;
    let mut i: usize = 0;
    while i < n
        invariant
            0 <= i <= n,
            n == pair_count(predictions@, actual@),
            tp == hits_upto(predictions@, actual@, class, i as int),
            tp <= i,
        decreases n - i,
    {
        if predictions[i] == class && actual[i] == class {
            tp = tp + 1;
        }
        i = i + 1;
    }
    ClassCounts {
        true_positive: tp,
        predicted_positive: count_occurrences(predictions, class),
        actual_positive: count_occurrences(actual, class),
    }
}

/// Training needs at least `MIN_TRAINING_ROWS` rows.
pub fn enough_training_rows(rows: usize) -> (b: bool)
    ensures
        b == (rows >= MIN_TRAINING_ROWS),
{
    rows >= MIN_TRAINING_ROWS
}

// ---------------------------------------------------------------------------
// Laws
// ---------------------------------------------------------------------------

/// The peak indices of the segments, segment after segment.
pub open spec fn all_members(segs: Seq<SegmentModel>) -> Seq<usize>
    decreases segs.len(),
{
    if segs.len() == 0 {
        Seq::empty()
    } else {
        all_members(segs.drop_last()) + segs.last().members
    }
}

/// Segmenting the first `n` peaks puts every one of them in exactly one
/// segment, in order: read segment after segment, the members are
/// `0, 1, ..., n - 1`, and no segment is empty.
pub proof fn lemma_segments_partition(peaks: Seq<PeakPoint>, n: int)
    requires
        0 <= n <= peaks.len(),
        n <= usize::MAX,
    ensures
        all_members(segments_of(peaks, n)) == Seq::new(n as nat, |i: int| i as usize),
        forall|k: int|
            0 <= k < segments_of(peaks, n).len() ==> (#[trigger] segments_of(peaks, n)[k]).members.len() > 0,
    decreases n,
{
    if n > 0 {
        lemma_segments_partition(peaks, n - 1);
        let segs = segments_of(peaks, n - 1);
        let p = peaks[n - 1];
        let v = (n - 1) as usize;
        if segs.len() > 0 && continues(segs.last(), p) {
            let s = segs.last();
            let t = segments_of(peaks, n);
            assert(t.drop_last() =~= segs.drop_last());
            assert(t.last().members == s.members.push(v));
            assert(all_members(segs) == all_members(segs.drop_last()) + s.members);
            assert(all_members(t) =~= all_members(segs).push(v));
        } else {
            let t = segments_of(peaks, n);
            assert(t.drop_last() =~= segs);
            assert(all_members(t) =~= all_members(segs) + seq![v]);
        }
        assert(all_members(segments_of(peaks, n)) =~= Seq::new(n as nat, |i: int| i as usize));
    }
}

proof fn lemma_hits_bounded(predictions: Seq<u32>, actual: Seq<u32>, class: u32, n: int)
    ensures
        hits_upto(predictions, actual, class, n) <= occurrences(predictions, class, n),
        hits_upto(predictions, actual, class, n) <= occurrences(actual, class, n),
    decreases n,
{
    if n > 0 {
        lemma_hits_bounded(predictions, actual, class, n - 1);
    }
}

proof fn lemma_occurrences_monotone(s: Seq<u32>, class: u32, m: int, n: int)
    requires
        m <= n,
    ensures
        occurrences(s, class, m) <= occurrences(s, class, n),
    decreases n - m,
{
    if m < n {
        lemma_occurrences_monotone(s, class, m, n - 1);
    }
}

proof fn lemma_correct_bounded(predictions: Seq<u32>, actual: Seq<u32>, n: int)
    requires
        0 <= n,
    ensures
        correct_upto(predictions, actual, n) <= n,
    decreases n,
{
    if n > 0 {
        lemma_correct_bounded(predictions, actual, n - 1);
    }
}

/// The tallies are consistent: at most every paired row is correct, and a
/// class's true positives are among both its predictions and its actual
/// rows, so accuracy, precision and recall never exceed one.
pub proof fn lemma_tallies_bounded(predictions: Seq<u32>, actual: Seq<u32>, class: u32)
    ensures
        correct_upto(predictions, actual, pair_count(predictions, actual)) <= pair_count(predictions, actual),
        hits_upto(predictions, actual, class, pair_count(predictions, actual)) <= occurrences(
            predictions,
            class,
            predictions.len() as int,
        ),
        hits_upto(predictions, actual, class, pair_count(predictions, actual)) <= occurrences(
            actual,
            class,
            actual.len() as int,
        ),
{
    let n = pair_count(predictions, actual);
    lemma_correct_bounded(predictions, actual, n);
    lemma_hits_bounded(predictions, actual, class, n);
    lemma_occurrences_monotone(predictions, class, n, predictions.len() as int);
    lemma_occurrences_monotone(actual, class, n, actual.len() as int);
}


/// Every segment runs from its first peak to its latest one: it has members,
/// its start is the first member's detection time and its end the last
/// member's.
pub proof fn lemma_segment_ends(peaks: Seq<PeakPoint>, n: int)
    requires
        0 <= n <= peaks.len(),
        n <= usize::MAX,
    ensures
        forall|k: int|
            0 <= k < segments_of(peaks, n).len() ==> {
                let s = #[trigger] segments_of(peaks, n)[k];
                &&& s.members.len() > 0
                &&& 0 <= s.members[0] < n
                &&& 0 <= s.members.last() < n
                &&& s.start_ms == peaks[s.members[0] as int].detected_at_ms
                &&& s.end_ms == peaks[s.members.last() as int].detected_at_ms
            },
    decreases n,
{
    if n > 0 {
        lemma_segment_ends(peaks, n - 1);
        let segs = segments_of(peaks, n - 1);
        let t = segments_of(peaks, n);
        assert forall|k: int| 0 <= k < t.len() implies {
            let s = #[trigger] t[k];
            &&& s.members.len() > 0
            &&& 0 <= s.members[0] < n
            &&& 0 <= s.members.last() < n
            &&& s.start_ms == peaks[s.members[0] as int].detected_at_ms
            &&& s.end_ms == peaks[s.members.last() as int].detected_at_ms
        } by {
            let joins = segs.len() > 0 && continues(segs.last(), peaks[n - 1]);
            if k < segs.len() && !(k == segs.len() - 1 && joins) {
                assert(t[k] == segs[k]);
            } else if joins {
                let old_s = segs[segs.len() - 1];
                assert(old_s == segs.last());
                assert(old_s.members.len() > 0);
                assert(t[k].members == old_s.members.push((n - 1) as usize));
                assert(t[k].members[0] == old_s.members[0]);
                assert(t[k].start_ms == old_s.start_ms);
            } else {
                assert(t[k].members == seq![(n - 1) as usize]);
            }
        }
    }
}

/// A peak joins the running segment when it is close to that segment's latest
/// peak: if its band overlaps the last segment's band and it was detected no
/// more than `SEGMENT_GAP_MS` after the last segment's latest member, it is
/// added to that segment, which then ends at the peak and widens to cover the
/// peak's band; no segment is opened.
pub proof fn lemma_close_peak_joins(peaks: Seq<PeakPoint>, n: int)
    requires
        0 <= n < peaks.len(),
        n < usize::MAX,
        segments_of(peaks, n).len() > 0,
        ({
            let s = segments_of(peaks, n).last();
            let p = peaks[n];
            &&& p.frequency_start_hz <= s.frequency_end_hz
            &&& p.frequency_end_hz >= s.frequency_start_hz
            &&& p.detected_at_ms <= peaks[s.members.last() as int].detected_at_ms + SEGMENT_GAP_MS
        }),
    ensures
        segments_of(peaks, n + 1).len() == segments_of(peaks, n).len(),
        segments_of(peaks, n + 1).last().members == segments_of(peaks, n).last().members.push(n as usize),
        segments_of(peaks, n + 1).last().start_ms == segments_of(peaks, n).last().start_ms,
        segments_of(peaks, n + 1).last().end_ms == peaks[n].detected_at_ms,
        segments_of(peaks, n + 1).last().frequency_start_hz == (if peaks[n].frequency_start_hz < segments_of(
            peaks,
            n,
        ).last().frequency_start_hz {
            peaks[n].frequency_start_hz
        } else {
            segments_of(peaks, n).last().frequency_start_hz
        }),
        segments_of(peaks, n + 1).last().frequency_end_hz == (if peaks[n].frequency_end_hz > segments_of(
            peaks,
            n,
        ).last().frequency_end_hz {
            peaks[n].frequency_end_hz
        } else {
            segments_of(peaks, n).last().frequency_end_hz
        }),
        segments_of(peaks, n + 1).drop_last() == segments_of(peaks, n).drop_last(),
{
    lemma_segment_ends(peaks, n);
    let segs = segments_of(peaks, n);
    assert(segs[segs.len() - 1] == segs.last());
    assert(continues(segs.last(), peaks[n]));
    assert(segments_of(peaks, n + 1).drop_last() =~= segs.drop_last());
}

/// A steady run is one segment: peaks on one band, each detected no earlier
/// than the previous and no more than `SEGMENT_GAP_MS` after it, form a single
/// segment holding all of them, from the first peak's time to the last one's,
/// however long the run.
pub proof fn lemma_steady_run_one_segment(peaks: Seq<PeakPoint>, n: int)
    requires
        1 <= n <= peaks.len(),
        n <= usize::MAX,
        peaks[0].frequency_start_hz <= peaks[0].frequency_end_hz,
        forall|k: int|
            0 <= k < n ==> (#[trigger] peaks[k]).frequency_start_hz == peaks[0].frequency_start_hz
                && peaks[k].frequency_end_hz == peaks[0].frequency_end_hz,
        forall|k: int|
            1 <= k < n ==> peaks[k - 1].detected_at_ms <= (#[trigger] peaks[k]).detected_at_ms
                <= peaks[k - 1].detected_at_ms + SEGMENT_GAP_MS,
    ensures
        segments_of(peaks, n).len() == 1,
        segments_of(peaks, n)[0].members == Seq::new(n as nat, |i: int| i as usize),
        segments_of(peaks, n)[0].start_ms == peaks[0].detected_at_ms,
        segments_of(peaks, n)[0].end_ms == peaks[n - 1].detected_at_ms,
        segments_of(peaks, n)[0].frequency_start_hz == peaks[0].frequency_start_hz,
        segments_of(peaks, n)[0].frequency_end_hz == peaks[0].frequency_end_hz,
    decreases n,
{
    if n == 1 {
        assert(segments_of(peaks, 0).len() == 0);
        assert(segments_of(peaks, 1)[0].members =~= Seq::new(1nat, |i: int| i as usize));
    } else {
        lemma_steady_run_one_segment(peaks, n - 1);
        let segs = segments_of(peaks, n - 1);
        assert(segs.last() == segs[0]);
        assert(segs[0].members.last() == (n - 2) as usize);
        assert(peaks[n - 1].detected_at_ms <= peaks[n - 2].detected_at_ms + SEGMENT_GAP_MS);
        lemma_close_peak_joins(peaks, n - 1);
        let t = segments_of(peaks, n);
        assert(t[0] == t.last());
        assert(t[0].members =~= Seq::new(n as nat, |i: int| i as usize));
    }
}
} // verus!
