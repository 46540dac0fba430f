//! Grouping adjacent strong bins of a sweep into peaks.
use vstd::prelude::*;

verus! {

/// `r` is a maximal run of strong bins: every bin from `r.0` to `r.1`
/// (inclusive) is strong, and the bins just outside it are not.
pub open spec fn maximal_run(strong: Seq<bool>, r: (usize, usize)) -> bool {
    &&& r.0 <= r.1 < strong.len()
    &&& forall|i: int| r.0 <= i <= r.1 ==> #[trigger] strong[i]
    &&& r.0 == 0 || !strong[r.0 - 1]
    &&& r.1 + 1 == strong.len() || !strong[r.1 + 1]
}

/// Bin `i` lies in run `r`.
pub open spec fn covers(r: (usize, usize), i: int) -> bool {
    r.0 <= i <= r.1
}

/// `runs` are all the maximal runs of strong bins, from the lowest bin up.
pub open spec fn runs_of(strong: Seq<bool>, runs: Seq<(usize, usize)>) -> bool {
    &&& forall|k: int| 0 <= k < runs.len() ==> maximal_run(strong, #[trigger] runs[k])
    &&& forall|j: int, k: int| 0 <= j < k < runs.len() ==> #[trigger] runs[j].1 + 1 < #[trigger] runs[k].0
    &&& forall|i: int|
        0 <= i < strong.len() && #[trigger] strong[i] ==> exists|k: int|
            0 <= k < runs.len() && #[trigger] covers(runs[k], i)
}

/// The runs of adjacent strong bins, each as its first and last bin index,
/// in bin order.
pub fn strong_runs(strong: &[bool]) -> (runs: Vec<(usize, usize)>)
    ensures
        runs_of(strong@, runs@),
{
    let m = strong;
    let mut runs: Vec<(usize, usize)> = Vec::new();
    let mut active: Option<usize> = None;
    let mut i: usize = 0;
    while i < m.len()
        invariant
            0 <= i <= m.len(),
            forall|k: int| 0 <= k < runs.len() ==> maximal_run(m@, #[trigger] runs@[k]) && runs@[k].1 + 1 < i,
            forall|j: int, k: int| 0 <= j < k < runs.len() ==> #[trigger] runs@[j].1 + 1 < #[trigger] runs@[k].0,
            match active {
                Some(s) => {
                    &&& s < i
                    &&& forall|t: int| s <= t < i ==> #[trigger] m@[t]
                    &&& s == 0 || !m@[s - 1]
                    &&& forall|k: int| 0 <= k < runs.len() ==> #[trigger] runs@[k].1 + 1 < s
                },
                None => i == 0 || !m@[i - 1],
            },
            forall|t: int|
                0 <= t < i && #[trigger] m@[t] ==> (exists|k: int| 0 <= k < runs.len() && #[trigger] covers(runs@[k], t))
                    || (active matches Some(s) && s <= t),
        decreases m.len() - i,
    {
        if m[i] {
            if active.is_none() {
                active = Some(i);
            }
        } else {
            match active {
                Some(s) => {
                    let ghost before = runs@;
                    runs.push((s, i - 1));
                    active = None;
                    proof {
                        assert(maximal_run(m@, (s, (i - 1) as usize)));
                        assert forall|t: int| 0 <= t < i + 1 && #[trigger] m@[t] implies exists|k: int|
                            0 <= k < runs.len() && #[trigger] covers(runs@[k], t) by {
                            if s <= t {
                                assert(covers(runs@[before.len() as int], t));
                            } else {
                                let k = choose|k: int| 0 <= k < before.len() && #[trigger] covers(before[k], t);
                                assert(runs@[k] == before[k] && covers(runs@[k], t));
                            }
                        }
                    }
                },
                None => {},
            }
        }
        i = i + 1;
    }
    match active {
        Some(s) => {
            let ghost before = runs@;
            runs.push((s, m.len() - 1));
            proof {
                assert(maximal_run(m@, (s, (m.len() - 1) as usize)));
                assert forall|t: int| 0 <= t < m.len() && #[trigger] m@[t] implies exists|k: int|
                    0 <= k < runs.len() && #[trigger] covers(runs@[k], t) by {
                    if s <= t {
                        assert(covers(runs@[before.len() as int], t));
                    } else {
                        let k = choose|k: int| 0 <= k < before.len() && #[trigger] covers(before[k], t);
                        assert(runs@[k] == before[k] && covers(runs@[k], t));
                    }
                }
            }
        },
        None => {},
    }
    runs
}

/// The centre and width of a peak spanning `start_hz` to `end_hz`.
pub fn peak_span(start_hz: u64, end_hz: u64) -> (r: (u64, u64))
    ensures
        r.1 == (if end_hz >= start_hz { end_hz - start_hz } else { 0 }),
        r.0 == start_hz + r.1 / 2,
{
    let bandwidth = end_hz.saturating_sub(start_hz);
    (start_hz + bandwidth / 2, bandwidth)
}

proof fn lemma_overlap_equal(m: Seq<bool>, r1: (usize, usize), r2: (usize, usize), i: int)
    requires
        maximal_run(m, r1),
        maximal_run(m, r2),
        covers(r1, i),
        covers(r2, i),
    ensures
        r1 == r2,
{
    if r1.0 < r2.0 {
        assert(m[r2.0 - 1]);
    }
    if r2.0 < r1.0 {
        assert(m[r1.0 - 1]);
    }
    if r1.1 < r2.1 {
        assert(m[r1.1 + 1]);
    }
    if r2.1 < r1.1 {
        assert(m[r2.1 + 1]);
    }
}

proof fn lemma_found_in_other(m: Seq<bool>, a: Seq<(usize, usize)>, b: Seq<(usize, usize)>, k: int) -> (j: int)
    requires
        runs_of(m, a),
        runs_of(m, b),
        0 <= k < a.len(),
    ensures
        0 <= j < b.len(),
        b[j] == a[k],
{
    let r = a[k];
    assert(maximal_run(m, r));
    let i = r.0 as int;
    assert(m[i]);
    let j = choose|j: int| 0 <= j < b.len() && #[trigger] covers(b[j], i);
    assert(maximal_run(m, b[j]));
    lemma_overlap_equal(m, r, b[j], i);
    j
}

proof fn lemma_starts_increase(a: Seq<(usize, usize)>, m: Seq<bool>, j: int, k: int)
    requires
        runs_of(m, a),
        0 <= j < k < a.len(),
    ensures
        a[j].0 < a[k].0,
{
    assert(maximal_run(m, a[j]));
    assert(a[j].1 + 1 < a[k].0);
}

/// Any two listings of all maximal runs of the same bins are the same
/// listing: the peaks of a sweep are determined by which bins are strong.
pub proof fn lemma_runs_unique(strong: Seq<bool>, a: Seq<(usize, usize)>, b: Seq<(usize, usize)>)
    requires
        runs_of(strong, a),
        runs_of(strong, b),
    ensures
        a == b,
{
    let m = strong;
    assert forall|k: int| 0 <= k < a.len() && k < b.len() implies a[k] == b[k] by {
        lemma_prefix_equal(m, a, b, k);
    }
    if a.len() < b.len() {
        let n = a.len() as int;
        let g = lemma_found_in_other(m, b, a, n);
        lemma_prefix_equal(m, a, b, g);
        lemma_starts_increase(b, m, g, n);
    }
    if b.len() < a.len() {
        let n = b.len() as int;
        let g = lemma_found_in_other(m, a, b, n);
        lemma_prefix_equal(m, b, a, g);
        lemma_starts_increase(a, m, g, n);
    }
    assert(a =~= b);
}

proof fn lemma_prefix_equal(m: Seq<bool>, a: Seq<(usize, usize)>, b: Seq<(usize, usize)>, k: int)
    requires
        runs_of(m, a),
        runs_of(m, b),
        0 <= k < a.len(),
        k < b.len(),
    ensures
        a[k] == b[k],
    decreases k,
{
    if k > 0 {
        lemma_prefix_equal(m, a, b, k - 1);
    }
    let f = lemma_found_in_other(m, a, b, k);
    if f < k {
        lemma_prefix_equal(m, a, b, f);
        lemma_starts_increase(a, m, f, k);
    } else if f > k {
        let g = lemma_found_in_other(m, b, a, k);
        if g < k {
            lemma_prefix_equal(m, a, b, g);
            lemma_starts_increase(b, m, g, k);
        } else if g > k {
            lemma_starts_increase(a, m, k, g);
            lemma_starts_increase(b, m, k, f);
        }
    }
}

} // verus!
