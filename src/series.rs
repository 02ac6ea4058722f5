use vstd::prelude::*;

use crate::timeline::{
    changes, close, lemma_close_well_formed, lemma_consecutive_snapshots, lemma_run_well_formed,
    lemma_snapshot_carries, run,
    timeline_of, well_formed, ChangeTypes, Event, Timeline, TimelineModel,
};

verus! {

/// The samples of the signal at place `k`: one `(time, value)` pair for each
/// snapshot that holds the signal, in order of time.
pub open spec fn samples(times: Seq<u64>, snaps: Seq<Seq<ChangeTypes>>, k: int) -> Seq<(u64, ChangeTypes)>
    decreases snaps.len(),
{
    if snaps.len() == 0 {
        seq![]
    } else {
        let rest = samples(times.drop_last(), snaps.drop_last(), k);
        if 0 <= k < snaps.last().len() {
            rest.push((times[snaps.len() - 1], snaps.last()[k]))
        } else {
            rest
        }
    }
}

/// The index of the first snapshot from which on every snapshot holds the
/// signal at place `k`.
pub open spec fn first_sample(snaps: Seq<Seq<ChangeTypes>>, k: int) -> int
    decreases snaps.len(),
{
    if snaps.len() == 0 {
        0
    } else if !(0 <= k < snaps.last().len()) {
        snaps.len() as int
    } else {
        first_sample(snaps.drop_last(), k)
    }
}

/// The densified series of the signal at place `k` of a timeline.
pub open spec fn series_of(m: TimelineModel, k: int) -> Seq<(u64, ChangeTypes)> {
    samples(m.times, m.snapshots, k)
}

proof fn lemma_samples_cover(times: Seq<u64>, snaps: Seq<Seq<ChangeTypes>>, k: int)
    requires
        0 <= k,
        times.len() == snaps.len(),
        forall|i: int, j: int| 0 <= i < j < snaps.len() ==> snaps[i].len() <= snaps[j].len(),
    ensures
        ({
            let f = first_sample(snaps, k);
            let s = samples(times, snaps, k);
            &&& 0 <= f <= snaps.len()
            &&& s.len() == snaps.len() - f
            &&& forall|i: int| 0 <= i < s.len() ==> s[i] == (times[f + i], snaps[f + i][k])
            &&& forall|j: int| f <= j < snaps.len() ==> k < snaps[j].len()
            &&& forall|j: int| 0 <= j < f ==> snaps[j].len() <= k
        }),
    decreases snaps.len(),
{
    if snaps.len() > 0 {
        let n = snaps.len() - 1;
        let t0 = times.drop_last();
        let s0 = snaps.drop_last();
        assert forall|i: int, j: int| 0 <= i < j < s0.len() implies s0[i].len() <= s0[j].len() by {
            assert(s0[i] == snaps[i] && s0[j] == snaps[j]);
        }
        lemma_samples_cover(t0, s0, k);
        if !(k < snaps.last().len()) {
            assert forall|j: int| 0 <= j < snaps.len() implies snaps[j].len() <= k by {
                if j < n {
                    assert(snaps[j].len() <= snaps[n].len());
                }
            }
        } else {
            let f = first_sample(snaps, k);
            let s = samples(times, snaps, k);
            assert forall|i: int| 0 <= i < s.len() implies s[i] == (times[f + i], snaps[f + i][k]) by {
                if f + i < n {
                    assert(t0[f + i] == times[f + i]);
                    assert(s0[f + i] == snaps[f + i]);
                }
            }
            assert forall|j: int| f <= j < snaps.len() implies k < snaps[j].len() by {
                if j < n {
                    assert(s0[j] == snaps[j]);
                }
            }
            assert forall|j: int| 0 <= j < f implies snaps[j].len() <= k by {
                assert(s0[j] == snaps[j]);
            }
        }
    }
}

/// Densification coverage: a signal's series holds exactly one entry for
/// each timestamp from the first one that holds the signal to the last one
/// of the timeline, with no gap, each carrying the signal's value there.
/// Before that first timestamp the signal has no value and no entry.
pub proof fn lemma_series_coverage(m: TimelineModel, k: int)
    requires
        well_formed(m),
        0 <= k,
    ensures
        ({
            let f = first_sample(m.snapshots, k);
            let s = series_of(m, k);
            &&& 0 <= f <= m.times.len()
            &&& s.len() == m.times.len() - f
            &&& forall|i: int| 0 <= i < s.len() ==> s[i].0 == m.times[f + i]
                && s[i].1 == m.snapshots[f + i][k]
            &&& forall|j: int| f <= j < m.snapshots.len() ==> k < m.snapshots[j].len()
            &&& forall|j: int| 0 <= j < f ==> m.snapshots[j].len() <= k
        }),
{
    lemma_samples_cover(m.times, m.snapshots, k);
}

/// Forward fill: once a prefix `a` of the stream is consumed, every entry of
/// the signal's series at a time after the last time closed within `a`
/// carries the value the signal had after `a`, as long as no event of the
/// rest `b` changes it. Taking `a` up to the timestamp that closes the time
/// of one entry, the next entry, with no change of the signal in between,
/// carries the same value.
pub proof fn lemma_forward_fill(a: Seq<Event>, b: Seq<Event>, k: int)
    requires
        run(a) is Some,
        run(a + b) is Some,
        0 <= k < run(a)->Some_0.values.len(),
        forall|i: int| 0 <= i < b.len() ==> !changes(#[trigger] b[i], run(a)->Some_0.ids[k]),
    ensures
        ({
            let m = run(a)->Some_0;
            let s = series_of(timeline_of(a + b)->Some_0, k);
            forall|i: int|
                0 <= i < s.len() && (m.times.len() == 0 || s[i].0 > m.times.last()) ==> s[i].1
                    == m.values[k]
        }),
{
    let m = run(a)->Some_0;
    let r0 = run(a + b)->Some_0;
    lemma_run_well_formed(a);
    lemma_run_well_formed(a + b);
    lemma_close_well_formed(r0);
    let r = close(r0);
    lemma_snapshot_carries(a, b, k);
    lemma_series_coverage(r, k);
    let f = first_sample(r.snapshots, k);
    let s = series_of(r, k);
    assert forall|i: int|
        0 <= i < s.len() && (m.times.len() == 0 || s[i].0 > m.times.last()) implies s[i].1
        == m.values[k] by {
        if f + i < m.times.len() {
            assert(r.times.subrange(0, m.times.len() as int)[f + i] == r.times[f + i]);
            assert(r.times.subrange(0, m.times.len() as int)[m.times.len() - 1] == r.times[m.times.len() - 1]);
            if f + i < m.times.len() - 1 {
                assert(r.times[f + i] < r.times[m.times.len() - 1]);
            }
        }
    }
}

/// Forward fill, entry by entry: in the setting of
/// `lemma_consecutive_snapshots` (a timestamp ending `a` opens a time, `b`
/// is all that is recorded at it, `c` begins with the next timestamp or is
/// empty), the series of the signal at place `k` has consecutive entries
/// for the time closed by `a` and the time opened by it, and where `b` does
/// not change the signal the two entries carry the same value.
pub proof fn lemma_consecutive_entries(a: Seq<Event>, b: Seq<Event>, c: Seq<Event>, k: int)
    requires
        run(a + b + c) is Some,
        a.len() > 0,
        a.last() is Timestamp,
        run(a.drop_last()) is Some,
        run(a.drop_last())->Some_0.pending is Some,
        run(a.drop_last())->Some_0.pending != Some(a.last()->Timestamp_0),
        forall|i: int| 0 <= i < b.len() ==> !(#[trigger] b[i] is Timestamp),
        forall|i: int| 0 <= i < b.len() ==> !changes(#[trigger] b[i], run(a.drop_last())->Some_0.ids[k]),
        c.len() == 0 || (c[0] is Timestamp && c[0]->Timestamp_0 != a.last()->Timestamp_0),
        0 <= k < run(a.drop_last())->Some_0.values.len(),
    ensures
        ({
            let r = timeline_of(a + b + c)->Some_0;
            let s = series_of(r, k);
            let i = run(a)->Some_0.snapshots.len() - 1 - first_sample(r.snapshots, k);
            &&& 0 <= i && i + 1 < s.len()
            &&& s[i].0 == run(a.drop_last())->Some_0.pending->Some_0
            &&& s[i + 1].0 == a.last()->Timestamp_0
            &&& s[i + 1].1 == s[i].1
        }),
{
    lemma_consecutive_snapshots(a, b, c, k);
    let rr = run(a + b + c)->Some_0;
    lemma_run_well_formed(a + b + c);
    lemma_close_well_formed(rr);
    let r = close(rr);
    lemma_series_coverage(r, k);
    let n = run(a)->Some_0.snapshots.len() as int;
    let f = first_sample(r.snapshots, k);
    if f > n - 1 {
        assert(r.snapshots[n - 1].len() <= k);
    }
}

/// The densified series of the signal at place `k` of the timeline: a
/// `(time, value)` entry for each timestamp from the signal's first sample to
/// the last timestamp, gaps filled with the value carried forward.
pub fn densify(timeline: &Timeline, k: usize) -> (r: Vec<(u64, ChangeTypes)>)
    requires
        timeline.wf(),
    ensures
        r@ == series_of(timeline@, k as int),
{
    let times = timeline.times();
    let snaps = timeline.snapshots();
    let ghost m = timeline@;
    let mut r: Vec<(u64, ChangeTypes)> = Vec::new();
    let mut j: usize = 0;
    while j < snaps.len()
        invariant
            m == timeline@,
            times@ == m.times,
            snaps@.map_values(|v: Vec<ChangeTypes>| v@) == m.snapshots,
            m.times.len() == m.snapshots.len(),
            j <= snaps.len(),
            r@ == samples(m.times.subrange(0, j as int), m.snapshots.subrange(0, j as int), k as int),
        decreases snaps.len() - j,
    {
        let ghost t1 = m.times.subrange(0, j + 1);
        let ghost s1 = m.snapshots.subrange(0, j + 1);
        assert(t1.drop_last() =~= m.times.subrange(0, j as int));
        assert(s1.drop_last() =~= m.snapshots.subrange(0, j as int));
        assert(s1.last() == snaps[j as int]@);
        if k < snaps[j].len() {
            r.push((times[j], snaps[j][k]));
        }
        j = j + 1;
    }
    assert(m.times.subrange(0, j as int) =~= m.times);
    assert(m.snapshots.subrange(0, j as int) =~= m.snapshots);
    r
}

} // verus!
