use vstd::prelude::*;

use crate::error::DumpError;

verus! {

/// The value last observed for a signal.
#[allow(non_camel_case_types)]
#[derive(Clone, Copy, Debug, PartialEq, Eq, Structural)]
pub enum ChangeTypes {
    /// A single-bit scalar: `false` stands for 0, `true` for 1.
    Bit_1(bool),
    /// A real value, held as the IEEE-754 bit pattern of its double.
    Bit_64(u64),
}

/// One record of a dump's body, with signal identifiers as text.
#[derive(Debug)]
pub enum Event {
    /// Time advances to the given instant; the changes that follow belong to it.
    Timestamp(u64),
    /// A single-bit scalar takes the value 0 (`false`) or 1 (`true`).
    Scalar(String, bool),
    /// A real-valued signal takes the value with the given bit pattern.
    Real(String, u64),
    /// A scalar enters an unknown or high-impedance state.
    Unknown(String),
    /// A string-valued change.
    Text(String),
    /// Anything else: vector changes, comments, simulation markers.
    Other,
}

/// What applying one event did.
#[derive(Clone, Copy, Debug, PartialEq, Eq, Structural)]
pub enum Applied {
    /// A timestamp: the pending time was closed with a snapshot and the new
    /// one opened (a repeat of the pending time changes nothing).
    Snapshot,
    /// A numeric change: the signal's current value was replaced.
    Recorded,
    /// An unknown, high-impedance or string change: diagnosed and dropped.
    Unsupported,
    /// A record that carries no value for the timeline.
    Ignored,
}

/// The mathematical state of a timeline.
///
/// `ids` and `values` are the rolling state: each signal seen so far, in the
/// order of its first change, with its latest value. `pending` is the time
/// that the last timestamp opened: the changes that follow it belong to it,
/// and its snapshot is taken when the next timestamp or the end of the
/// stream closes it. `times` are the closed timestamps and `snapshots[j]` the
/// values at `times[j]`; entry `k` of a snapshot belongs to `ids[k]`.
pub struct TimelineModel {
    pub ids: Seq<Seq<char>>,
    pub values: Seq<ChangeTypes>,
    pub pending: Option<u64>,
    pub times: Seq<u64>,
    pub snapshots: Seq<Seq<ChangeTypes>>,
}

/// The index of `id` in `ids` (its last occurrence), or -1.
pub open spec fn position(ids: Seq<Seq<char>>, id: Seq<char>) -> int
    decreases ids.len(),
{
    if ids.len() == 0 {
        -1
    } else if ids.last() == id {
        ids.len() - 1
    } else {
        position(ids.drop_last(), id)
    }
}

pub open spec fn empty_model() -> TimelineModel {
    TimelineModel { ids: seq![], values: seq![], pending: None, times: seq![], snapshots: seq![] }
}

/// The rolling state after `id` changes to `v`.
pub open spec fn record(m: TimelineModel, id: Seq<char>, v: ChangeTypes) -> TimelineModel {
    let p = position(m.ids, id);
    if p >= 0 {
        TimelineModel { values: m.values.update(p, v), ..m }
    } else {
        TimelineModel { ids: m.ids.push(id), values: m.values.push(v), ..m }
    }
}

/// The pending time closed: its snapshot is a copy of the current values.
pub open spec fn close(m: TimelineModel) -> TimelineModel {
    match m.pending {
        Some(p) => TimelineModel {
            pending: None,
            times: m.times.push(p),
            snapshots: m.snapshots.push(m.values),
            ..m
        },
        None => m,
    }
}

/// Time advances to `t`: the pending time is closed and `t` opened. A
/// timestamp equal to the pending one changes nothing.
pub open spec fn advance(m: TimelineModel, t: u64) -> TimelineModel {
    if m.pending == Some(t) {
        m
    } else {
        TimelineModel { pending: Some(t), ..close(m) }
    }
}

/// Whether `e` may follow the state `m`: time never goes back.
pub open spec fn in_order(m: TimelineModel, e: Event) -> bool {
    match e {
        Event::Timestamp(t) => match m.pending {
            Some(p) => p <= t,
            None => m.times.len() == 0 || m.times.last() < t,
        },
        _ => true,
    }
}

/// The time that a timestamp must not go below.
pub open spec fn latest_time(m: TimelineModel) -> u64 {
    match m.pending {
        Some(p) => p,
        None => m.times.last(),
    }
}

/// The effect of one event. Unknown, high-impedance and string changes leave
/// every tracked value as it was.
pub open spec fn step(m: TimelineModel, e: Event) -> TimelineModel {
    match e {
        Event::Timestamp(t) => advance(m, t),
        Event::Scalar(id, b) => record(m, id@, ChangeTypes::Bit_1(b)),
        Event::Real(id, bits) => record(m, id@, ChangeTypes::Bit_64(bits)),
        _ => m,
    }
}

/// What `e` does, as reported by `Timeline::apply`.
pub open spec fn applied_kind(e: Event) -> Applied {
    match e {
        Event::Timestamp(_) => Applied::Snapshot,
        Event::Scalar(_, _) => Applied::Recorded,
        Event::Real(_, _) => Applied::Recorded,
        Event::Unknown(_) => Applied::Unsupported,
        Event::Text(_) => Applied::Unsupported,
        Event::Other => Applied::Ignored,
    }
}

/// The state after the events in order, or `None` where time goes back.
pub open spec fn run(events: Seq<Event>) -> Option<TimelineModel>
    decreases events.len(),
{
    if events.len() == 0 {
        Some(empty_model())
    } else {
        match run(events.drop_last()) {
            Some(m) => if in_order(m, events.last()) {
                Some(step(m, events.last()))
            } else {
                None
            },
            None => None,
        }
    }
}

/// The timeline of a whole stream: its run with the last time closed.
pub open spec fn timeline_of(events: Seq<Event>) -> Option<TimelineModel> {
    match run(events) {
        Some(m) => Some(close(m)),
        None => None,
    }
}

/// Whether `e` sets a value for the signal `id`.
pub open spec fn changes(e: Event, id: Seq<char>) -> bool {
    match e {
        Event::Scalar(s, _) => s@ == id,
        Event::Real(s, _) => s@ == id,
        _ => false,
    }
}

/// The structure that every reachable timeline has.
pub open spec fn well_formed(m: TimelineModel) -> bool {
    &&& m.ids.len() == m.values.len()
    &&& m.times.len() == m.snapshots.len()
    &&& forall|i: int, j: int| 0 <= i < j < m.ids.len() ==> m.ids[i] != m.ids[j]
    &&& forall|i: int, j: int| 0 <= i < j < m.times.len() ==> m.times[i] < m.times[j]
    &&& (m.pending is Some && m.times.len() > 0 ==> m.times.last() < m.pending->Some_0)
    &&& forall|j: int| 0 <= j < m.snapshots.len() ==> m.snapshots[j].len() <= m.values.len()
    &&& forall|i: int, j: int|
        0 <= i < j < m.snapshots.len() ==> m.snapshots[i].len() <= m.snapshots[j].len()
}

pub proof fn lemma_position(ids: Seq<Seq<char>>, id: Seq<char>)
    ensures
        -1 <= position(ids, id) < ids.len(),
        position(ids, id) >= 0 ==> ids[position(ids, id)] == id,
        position(ids, id) == -1 <==> !ids.contains(id),
    decreases ids.len(),
{
    if ids.len() > 0 {
        lemma_position(ids.drop_last(), id);
        if ids.last() != id {
            if ids.contains(id) {
                let k = choose|k: int| 0 <= k < ids.len() && ids[k] == id;
                assert(ids.drop_last()[k] == id);
            }
            if ids.drop_last().contains(id) {
                let k = choose|k: int| 0 <= k < ids.len() - 1 && ids.drop_last()[k] == id;
                assert(ids[k] == id);
            }
        } else {
            assert(ids[ids.len() - 1] == id);
        }
    }
}

pub proof fn lemma_record_well_formed(m: TimelineModel, id: Seq<char>, v: ChangeTypes)
    requires
        well_formed(m),
    ensures
        well_formed(record(m, id, v)),
{
    lemma_position(m.ids, id);
    let r = record(m, id, v);
    assert forall|i: int, j: int| 0 <= i < j < r.ids.len() implies r.ids[i] != r.ids[j] by {
        if j == m.ids.len() {
            assert(m.ids.contains(m.ids[i]));
        }
    }
}

pub proof fn lemma_close_well_formed(m: TimelineModel)
    requires
        well_formed(m),
    ensures
        well_formed(close(m)),
        close(m).pending is None,
        close(m).times.len() == m.times.len() + if m.pending is Some { 1int } else { 0int },
        close(m).times.subrange(0, m.times.len() as int) == m.times,
        close(m).snapshots.subrange(0, m.snapshots.len() as int) == m.snapshots,
        close(m).ids == m.ids,
        close(m).values == m.values,
        m.pending is Some ==> close(m).times.last() == m.pending->Some_0 && close(m).snapshots.last()
            == m.values,
{
    assert(close(m).times.subrange(0, m.times.len() as int) =~= m.times);
    assert(close(m).snapshots.subrange(0, m.snapshots.len() as int) =~= m.snapshots);
}

pub proof fn lemma_step_well_formed(m: TimelineModel, e: Event)
    requires
        well_formed(m),
        in_order(m, e),
    ensures
        well_formed(step(m, e)),
{
    match e {
        Event::Scalar(id, b) => lemma_record_well_formed(m, id@, ChangeTypes::Bit_1(b)),
        Event::Real(id, bits) => lemma_record_well_formed(m, id@, ChangeTypes::Bit_64(bits)),
        Event::Timestamp(_) => lemma_close_well_formed(m),
        _ => {},
    }
}

/// Every state that `run` produces is well formed.
pub proof fn lemma_run_well_formed(events: Seq<Event>)
    requires
        run(events) is Some,
    ensures
        well_formed(run(events)->Some_0),
    decreases events.len(),
{
    if events.len() > 0 {
        lemma_run_well_formed(events.drop_last());
        lemma_step_well_formed(run(events.drop_last())->Some_0, events.last());
    }
}

/// A stream that builds is built from a prefix that builds.
pub proof fn lemma_run_prefix(events: Seq<Event>)
    requires
        events.len() > 0,
        run(events) is Some,
    ensures
        run(events.drop_last()) is Some,
        in_order(run(events.drop_last())->Some_0, events.last()),
        run(events)->Some_0 == step(run(events.drop_last())->Some_0, events.last()),
{
}

proof fn lemma_carry(a: Seq<Event>, b: Seq<Event>, k: int)
    requires
        run(a) is Some,
        run(a + b) is Some,
        0 <= k < run(a)->Some_0.values.len(),
        forall|i: int| 0 <= i < b.len() ==> !changes(#[trigger] b[i], run(a)->Some_0.ids[k]),
    ensures
        ({
            let m = run(a)->Some_0;
            let r = run(a + b)->Some_0;
            &&& k < r.ids.len()
            &&& r.ids[k] == m.ids[k]
            &&& r.values[k] == m.values[k]
            &&& r.snapshots.len() >= m.snapshots.len()
            &&& r.times.len() >= m.times.len()
            &&& r.times.subrange(0, m.times.len() as int) == m.times
            &&& forall|j: int|
                m.snapshots.len() <= j < r.snapshots.len() ==> k < r.snapshots[j].len()
                    && r.snapshots[j][k] == m.values[k]
        }),
    decreases b.len(),
{
    let m = run(a)->Some_0;
    lemma_run_well_formed(a);
    if b.len() == 0 {
        assert(a + b =~= a);
        assert(m.times.subrange(0, m.times.len() as int) =~= m.times);
    } else {
        let b0 = b.drop_last();
        let e = b.last();
        assert((a + b).drop_last() =~= a + b0);
        assert((a + b).last() == e);
        lemma_run_prefix(a + b);
        assert forall|i: int| 0 <= i < b0.len() implies !changes(#[trigger] b0[i], m.ids[k]) by {
            assert(b0[i] == b[i]);
        }
        lemma_carry(a, b0, k);
        let r0 = run(a + b0)->Some_0;
        lemma_run_well_formed(a + b0);
        assert(!changes(b[b.len() - 1], m.ids[k]));
        match e {
            Event::Scalar(id, _) => {
                lemma_position(r0.ids, id@);
            },
            Event::Real(id, _) => {
                lemma_position(r0.ids, id@);
            },
            Event::Timestamp(_) => {
                lemma_close_well_formed(r0);
            },
            _ => {},
        }
        let r = run(a + b)->Some_0;
        assert(r.times.subrange(0, m.times.len() as int) =~= r0.times.subrange(0, m.times.len() as int));
    }
}

/// Snapshot completeness: the value that a signal holds once a prefix `a` of
/// the stream is consumed is the value of every snapshot taken after that
/// point, up to the end of the stream `a + b`, as long as no event of `b`
/// changes the signal. (Right after `a` ends with a timestamp that closed
/// the time before it, the last snapshot of `a` is that current value.)
pub proof fn lemma_snapshot_carries(a: Seq<Event>, b: Seq<Event>, k: int)
    requires
        run(a) is Some,
        run(a + b) is Some,
        0 <= k < run(a)->Some_0.values.len(),
        forall|i: int| 0 <= i < b.len() ==> !changes(#[trigger] b[i], run(a)->Some_0.ids[k]),
    ensures
        ({
            let m = run(a)->Some_0;
            let r = timeline_of(a + b)->Some_0;
            &&& r.ids[k] == m.ids[k]
            &&& r.times.len() >= m.times.len()
            &&& r.times.subrange(0, m.times.len() as int) == m.times
            &&& forall|j: int|
                m.snapshots.len() <= j < r.snapshots.len() ==> k < r.snapshots[j].len()
                    && r.snapshots[j][k] == m.values[k]
        }),
{
    lemma_carry(a, b, k);
    lemma_run_well_formed(a + b);
    let r0 = run(a + b)->Some_0;
    lemma_close_well_formed(r0);
    let m = run(a)->Some_0;
    let r = close(r0);
    assert(r.times.subrange(0, m.times.len() as int) =~= r0.times.subrange(0, m.times.len() as int));
}

/// A timestamp that closes a pending time leaves the current values as the
/// last snapshot, taken at that pending time.
pub proof fn lemma_timestamp_captures(events: Seq<Event>)
    requires
        events.len() > 0,
        events.last() is Timestamp,
        run(events) is Some,
        run(events.drop_last())->Some_0.pending is Some,
        run(events.drop_last())->Some_0.pending != Some(events.last()->Timestamp_0),
    ensures
        run(events)->Some_0.snapshots.len() > 0,
        run(events)->Some_0.snapshots.last() == run(events)->Some_0.values,
        run(events)->Some_0.times.last() == run(events.drop_last())->Some_0.pending->Some_0,
{
    lemma_run_prefix(events);
    lemma_run_well_formed(events.drop_last());
}

/// Extending a stream keeps what its prefix built: the prefix builds too,
/// and its timestamps and snapshots stay at the front.
pub proof fn lemma_run_extends(x: Seq<Event>, y: Seq<Event>)
    requires
        run(x + y) is Some,
    ensures
        run(x) is Some,
        run(x + y)->Some_0.times.len() >= run(x)->Some_0.times.len(),
        run(x + y)->Some_0.snapshots.len() >= run(x)->Some_0.snapshots.len(),
        run(x + y)->Some_0.times.subrange(0, run(x)->Some_0.times.len() as int) == run(x)->Some_0.times,
        run(x + y)->Some_0.snapshots.subrange(0, run(x)->Some_0.snapshots.len() as int)
            == run(x)->Some_0.snapshots,
    decreases y.len(),
{
    if y.len() == 0 {
        assert(x + y =~= x);
        let m = run(x)->Some_0;
        assert(m.times.subrange(0, m.times.len() as int) =~= m.times);
        assert(m.snapshots.subrange(0, m.snapshots.len() as int) =~= m.snapshots);
    } else {
        let y0 = y.drop_last();
        assert((x + y).drop_last() =~= x + y0);
        assert((x + y).last() == y.last());
        lemma_run_prefix(x + y);
        lemma_run_extends(x, y0);
        let m = run(x)->Some_0;
        let r0 = run(x + y0)->Some_0;
        let r = run(x + y)->Some_0;
        lemma_run_well_formed(x + y0);
        lemma_close_well_formed(r0);
        assert(r.times.subrange(0, m.times.len() as int) =~= r0.times.subrange(0, m.times.len() as int));
        assert(r.snapshots.subrange(0, m.snapshots.len() as int) =~= r0.snapshots.subrange(
            0,
            m.snapshots.len() as int,
        ));
    }
}

/// Events that hold no timestamp leave the timestamps, the snapshots and the
/// pending time as they were.
pub proof fn lemma_no_timestamp(a: Seq<Event>, b: Seq<Event>)
    requires
        run(a + b) is Some,
        forall|i: int| 0 <= i < b.len() ==> !(#[trigger] b[i] is Timestamp),
    ensures
        run(a) is Some,
        run(a + b)->Some_0.times == run(a)->Some_0.times,
        run(a + b)->Some_0.snapshots == run(a)->Some_0.snapshots,
        run(a + b)->Some_0.pending == run(a)->Some_0.pending,
    decreases b.len(),
{
    if b.len() == 0 {
        assert(a + b =~= a);
    } else {
        let b0 = b.drop_last();
        assert((a + b).drop_last() =~= a + b0);
        assert((a + b).last() == b[b.len() - 1]);
        lemma_run_prefix(a + b);
        assert forall|i: int| 0 <= i < b0.len() implies !(#[trigger] b0[i] is Timestamp) by {
            assert(b0[i] == b[i]);
        }
        lemma_no_timestamp(a, b0);
    }
}

/// Forward fill between consecutive timestamps. The stream is `a + b + c`:
/// the timestamp ending `a` closes the time before it and opens its own,
/// `b` is everything recorded at that time (no timestamp in it), and `c`
/// starts with the next, different timestamp or is empty. Where no event of
/// `b` changes the signal at place `k`, the snapshots of the two
/// consecutive times hold the same value for it.
pub proof fn lemma_consecutive_snapshots(a: Seq<Event>, b: Seq<Event>, c: Seq<Event>, k: int)
    requires
        run(a + b + c) is Some,
        a.len() > 0,
        a.last() is Timestamp,
        run(a.drop_last()) is Some,
        run(a.drop_last())->Some_0.pending is Some,
        run(a.drop_last())->Some_0.pending != Some(a.last()->Timestamp_0),
        forall|i: int| 0 <= i < b.len() ==> !(#[trigger] b[i] is Timestamp),
        forall|i: int| 0 <= i < b.len() ==> !changes(#[trigger] b[i], run(a.drop_last())->Some_0.ids[k]),
        c.len() == 0 || (c[0] is Timestamp && c[0]->Timestamp_0 != a.last()->Timestamp_0),
        0 <= k < run(a.drop_last())->Some_0.values.len(),
    ensures
        ({
            let n = run(a)->Some_0.snapshots.len() as int;
            let r = timeline_of(a + b + c)->Some_0;
            &&& 1 <= n < r.snapshots.len()
            &&& r.times[n - 1] == run(a.drop_last())->Some_0.pending->Some_0
            &&& r.times[n] == a.last()->Timestamp_0
            &&& k < r.snapshots[n - 1].len()
            &&& k < r.snapshots[n].len()
            &&& r.snapshots[n][k] == r.snapshots[n - 1][k]
        }),
{
    let a0 = a.drop_last();
    let t = a.last()->Timestamp_0;
    let m0 = run(a0)->Some_0;
    assert(a + b + c =~= a + (b + c));
    lemma_run_extends(a, b + c);
    lemma_run_prefix(a);
    lemma_run_well_formed(a0);
    lemma_close_well_formed(m0);
    let ma = run(a)->Some_0;
    let n = ma.snapshots.len() as int;
    assert(ma.values == m0.values);
    assert(ma.ids == m0.ids);
    assert(ma.snapshots[n - 1] == m0.values);
    assert(ma.times[n - 1] == m0.pending->Some_0);
    assert(ma.pending == Some(t));
    let ab = a + b;
    assert(a + b + c =~= ab + c);
    lemma_run_extends(ab, c);
    lemma_no_timestamp(a, b);
    lemma_carry(a, b, k);
    let mb = run(ab)->Some_0;
    lemma_run_well_formed(ab);
    lemma_close_well_formed(mb);
    // The snapshot of the time opened by `a` is taken when `c` begins.
    let closed = close(mb);
    assert(closed.snapshots.len() == n + 1);
    assert(closed.snapshots[n] == mb.values);
    assert(closed.times[n] == t);
    assert(closed.snapshots[n - 1] == m0.values) by {
        assert(closed.snapshots.subrange(0, n as int)[n - 1] == closed.snapshots[n - 1]);
    }
    assert(closed.times[n - 1] == m0.pending->Some_0) by {
        assert(closed.times.subrange(0, n as int)[n - 1] == closed.times[n - 1]);
    }
    let r = timeline_of(a + b + c)->Some_0;
    if c.len() == 0 {
        assert(ab + c =~= ab);
    } else {
        let c0 = c[0];
        let rest = c.subrange(1, c.len() as int);
        assert(ab + c =~= ab.push(c0) + rest);
        lemma_run_extends(ab.push(c0), rest);
        assert(ab.push(c0).drop_last() =~= ab);
        lemma_run_prefix(ab.push(c0));
        let mc = run(ab.push(c0))->Some_0;
        assert(mc.snapshots == closed.snapshots);
        assert(mc.times == closed.times);
        let rr = run(a + b + c)->Some_0;
        lemma_run_well_formed(a + b + c);
        lemma_close_well_formed(rr);
        assert(rr.snapshots.subrange(0, n + 1)[n] == rr.snapshots[n]);
        assert(rr.snapshots.subrange(0, n + 1)[n - 1] == rr.snapshots[n - 1]);
        assert(rr.times.subrange(0, n + 1)[n] == rr.times[n]);
        assert(rr.times.subrange(0, n + 1)[n - 1] == rr.times[n - 1]);
        assert(r.snapshots.subrange(0, rr.snapshots.len() as int)[n] == r.snapshots[n]);
        assert(r.snapshots.subrange(0, rr.snapshots.len() as int)[n - 1] == r.snapshots[n - 1]);
        assert(r.times.subrange(0, rr.times.len() as int)[n] == r.times[n]);
        assert(r.times.subrange(0, rr.times.len() as int)[n - 1] == r.times[n - 1]);
    }
}

/// Unsupported kinds are isolated: an unknown, high-impedance or string change
/// inserted anywhere in a stream leaves the whole state as it would be
/// without it, and never makes the stream fail.
pub proof fn lemma_unsupported_isolated(a: Seq<Event>, e: Event, b: Seq<Event>)
    requires
        e is Unknown || e is Text,
    ensures
        run(a.push(e) + b) == run(a + b),
        timeline_of(a.push(e) + b) == timeline_of(a + b),
    decreases b.len(),
{
    if b.len() == 0 {
        assert(a.push(e) + b =~= a.push(e));
        assert(a + b =~= a);
        assert(a.push(e).drop_last() =~= a);
    } else {
        lemma_unsupported_isolated(a, e, b.drop_last());
        assert((a.push(e) + b).drop_last() =~= a.push(e) + b.drop_last());
        assert((a + b).drop_last() =~= a + b.drop_last());
        assert((a.push(e) + b).last() == b.last());
        assert((a + b).last() == b.last());
    }
}

/// The timeline under construction: rolling state plus captured snapshots.
///
/// The rolling state is a pair of vectors searched by identifier rather
/// than a hash map: its order (that of each signal's first change) fixes the
/// order of every snapshot and of the name list, which a hash map's walk
/// would not, and vstd specifies no map keyed by `String`.
pub struct Timeline {
    ids: Vec<String>,
    values: Vec<ChangeTypes>,
    pending: Option<u64>,
    times: Vec<u64>,
    snapshots: Vec<Vec<ChangeTypes>>,
}

impl View for Timeline {
    type V = TimelineModel;

    closed spec fn view(&self) -> TimelineModel {
        TimelineModel {
            ids: self.ids@.map_values(|s: String| s@),
            values: self.values@,
            pending: self.pending,
            times: self.times@,
            snapshots: self.snapshots@.map_values(|v: Vec<ChangeTypes>| v@),
        }
    }
}

/// Index of `id` in `ids`, searched from the end.
fn find_id(ids: &Vec<String>, id: &String) -> (r: Option<usize>)
    ensures
        match r {
            Some(i) => i as int == position(ids@.map_values(|s: String| s@), id@),
            None => position(ids@.map_values(|s: String| s@), id@) == -1,
        },
{
    let ghost all = ids@.map_values(|s: String| s@);
    let mut i: usize = ids.len();
    assert(all.subrange(0, i as int) =~= all);
    while i > 0
        invariant
            i <= ids.len(),
            all == ids@.map_values(|s: String| s@),
            position(all, id@) == position(all.subrange(0, i as int), id@),
        decreases i,
    {
        let ghost pre = all.subrange(0, i as int);
        assert(pre.drop_last() =~= all.subrange(0, i - 1));
        if ids[i - 1] == *id {
            return Some(i - 1);
        }
        i = i - 1;
    }
    assert(all.subrange(0, 0) =~= Seq::<Seq<char>>::empty());
    None
}

/// A fresh copy of `v`.
fn copy_values(v: &Vec<ChangeTypes>) -> (r: Vec<ChangeTypes>)
    ensures
        r@ == v@,
{
    let mut r: Vec<ChangeTypes> = Vec::new();
    let mut i: usize = 0;
    while i < v.len()
        invariant
            i <= v.len(),
            r@ == v@.subrange(0, i as int),
        decreases v.len() - i,
    {
        r.push(v[i]);
        i = i + 1;
        assert(r@ =~= v@.subrange(0, i as int));
    }
    assert(r@ =~= v@);
    r
}

impl Timeline {
    pub open spec fn wf(&self) -> bool {
        well_formed(self@)
    }

    /// An empty timeline: no signal seen, no timestamp captured.
    pub fn new() -> (r: Timeline)
        ensures
            r@ == empty_model(),
            r.wf(),
    {
        let r = Timeline {
            ids: Vec::new(),
            values: Vec::new(),
            pending: None,
            times: Vec::new(),
            snapshots: Vec::new(),
        };
        assert(r@.ids =~= seq![]);
        assert(r@.snapshots =~= seq![]);
        r
    }

    /// Sets the current value of `id`, adding it at the end if it is new.
    fn record_value(&mut self, id: &String, v: ChangeTypes)
        requires
            old(self).wf(),
        ensures
            final(self)@ == record(old(self)@, id@, v),
            final(self).wf(),
    {
        proof {
            lemma_position(self@.ids, id@);
        }
        match find_id(&self.ids, id) {
            Some(i) => {
                self.values.set(i, v);
            },
            None => {
                self.ids.push(id.clone());
                self.values.push(v);
            },
        }
        assert(self@.ids =~= record(old(self)@, id@, v).ids);
        assert(self@.values =~= record(old(self)@, id@, v).values);
        proof {
            lemma_record_well_formed(old(self)@, id@, v);
        }
        assert(self@.snapshots =~= record(old(self)@, id@, v).snapshots);
    }

    /// The signals seen so far, in the order of their first change.
    pub fn ids(&self) -> (r: &Vec<String>)
        ensures
            r@.map_values(|s: String| s@) == self@.ids,
    {
        &self.ids
    }

    /// The current value of each signal, in the order of `ids`.
    pub fn values(&self) -> (r: &Vec<ChangeTypes>)
        ensures
            r@ == self@.values,
    {
        &self.values
    }

    /// The captured timestamps, strictly increasing.
    pub fn times(&self) -> (r: &Vec<u64>)
        ensures
            r@ == self@.times,
    {
        &self.times
    }

    /// The snapshots, one for each timestamp of `times`.
    pub fn snapshots(&self) -> (r: &Vec<Vec<ChangeTypes>>)
        ensures
            r@.map_values(|v: Vec<ChangeTypes>| v@) == self@.snapshots,
    {
        &self.snapshots
    }

    /// The time that the last timestamp opened, whose snapshot is not taken yet.
    pub fn pending(&self) -> (r: Option<u64>)
        ensures
            r == self@.pending,
    {
        self.pending
    }

    /// Closes the pending time, if any: its snapshot is a copy of the
    /// current values. Done at the end of the stream.
    pub fn close(&mut self)
        requires
            old(self).wf(),
        ensures
            final(self).wf(),
            final(self)@ == close(old(self)@),
    {
        proof {
            lemma_close_well_formed(self@);
        }
        match self.pending {
            Some(p) => {
                let snap = copy_values(&self.values);
                self.times.push(p);
                self.snapshots.push(snap);
                self.pending = None;
                assert(self@.snapshots =~= close(old(self)@).snapshots);
            },
            None => {},
        }
    }

    /// Applies one event of the stream. A timestamp closes the pending time,
    /// taking a copy of every current value as its snapshot, and opens its
    /// own; a 0/1 or real change replaces the signal's current value; any
    /// other record leaves the values as they were. A timestamp earlier than
    /// the last one is refused.
    pub fn apply(&mut self, e: &Event) -> (r: Result<Applied, DumpError>)
        requires
            old(self).wf(),
        ensures
            final(self).wf(),
            in_order(old(self)@, *e) ==> r == Ok::<Applied, DumpError>(applied_kind(*e))
                && final(self)@ == step(old(self)@, *e),
            !in_order(old(self)@, *e) ==> final(self)@ == old(self)@ && r == Err::<Applied, DumpError>(
                DumpError::TimeOrder { previous: latest_time(old(self)@), found: e->Timestamp_0 },
            ),
    {
        proof {
            if in_order(self@, *e) {
                lemma_step_well_formed(self@, *e);
            }
        }
        match e {
            Event::Timestamp(t) => {
                match self.pending {
                    Some(p) => {
                        if p > *t {
                            return Err(DumpError::TimeOrder { previous: p, found: *t });
                        }
                        if p == *t {
                            return Ok(Applied::Snapshot);
                        }
                    },
                    None => {
                        let n = self.times.len();
                        if n > 0 && self.times[n - 1] >= *t {
                            return Err(DumpError::TimeOrder { previous: self.times[n - 1], found: *t });
                        }
                    },
                }
                self.close();
                self.pending = Some(*t);
                Ok(Applied::Snapshot)
            },
            Event::Scalar(id, b) => {
                self.record_value(id, ChangeTypes::Bit_1(*b));
                Ok(Applied::Recorded)
            },
            Event::Real(id, bits) => {
                self.record_value(id, ChangeTypes::Bit_64(*bits));
                Ok(Applied::Recorded)
            },
            Event::Unknown(_) => Ok(Applied::Unsupported),
            Event::Text(_) => Ok(Applied::Unsupported),
            Event::Other => Ok(Applied::Ignored),
        }
    }
}

} // verus!
