use vstd::prelude::*;
use std::collections::BTreeMap;

use crate::declarations::{declaration_table, has_root_var, table_of, DeclarationEntry, DeclarationTable};
use crate::error::DumpError;
use crate::names::{declared, find_name, name_of, resolve_names};
use crate::records::{event_id, events_match, events_of, parse_records, parsed_dump};
use crate::timeline::{
    close, empty_model, in_order, timeline_of, latest_time, lemma_position, lemma_run_well_formed, position, run, step, well_formed,
    Applied, ChangeTypes, Event, Timeline, TimelineModel,
};

verus! {

/// Whether `e` is a change of a kind that is diagnosed and dropped.
pub open spec fn unsupported(e: Event) -> bool {
    e is Unknown || e is Text
}

/// Whether `e` is a change that the rolling state records: 0/1 or real.
pub open spec fn sets_value(e: Event) -> bool {
    e is Scalar || e is Real
}

/// The pipeline over a stream of events against a declaration table: each
/// 0/1 or real change must name a declared signal, and time must stay in
/// order; the first event that breaks either stops the run with its error.
/// Unknown, high-impedance and string changes are counted and skipped
/// whatever signal they name. Otherwise the result is the timeline with the
/// number of unsupported changes.
pub open spec fn checked_run(events: Seq<Event>, entries: Seq<DeclarationEntry>) -> Result<
    (TimelineModel, nat),
    DumpError,
>
    decreases events.len(),
{
    if events.len() == 0 {
        Ok((empty_model(), 0))
    } else {
        match checked_run(events.drop_last(), entries) {
            Err(err) => Err(err),
            Ok((m, c)) => {
                let e = events.last();
                if sets_value(e) && !declared(entries, event_id(e)->Some_0@) {
                    Err(DumpError::Undeclared(event_id(e)->Some_0))
                } else if !in_order(m, e) {
                    Err(DumpError::TimeOrder { previous: latest_time(m), found: e->Timestamp_0 })
                } else {
                    Ok((step(m, e), c + if unsupported(e) { 1nat } else { 0nat }))
                }
            },
        }
    }
}

/// A checked run that succeeds builds the same timeline as the plain run,
/// every signal it tracks is declared, and every signal that a change event
/// sets is tracked.
pub proof fn lemma_checked_run(events: Seq<Event>, entries: Seq<DeclarationEntry>)
    requires
        checked_run(events, entries) is Ok,
    ensures
        run(events) == Some(checked_run(events, entries)->Ok_0.0),
        well_formed(checked_run(events, entries)->Ok_0.0),
        checked_run(events, entries)->Ok_0.1 <= events.len(),
        forall|k: int|
            0 <= k < checked_run(events, entries)->Ok_0.0.ids.len() ==> declared(
                entries,
                #[trigger] checked_run(events, entries)->Ok_0.0.ids[k],
            ),
        forall|i: int|
            0 <= i < events.len() && (events[i] is Scalar || events[i] is Real) ==> checked_run(
                events,
                entries,
            )->Ok_0.0.ids.contains(#[trigger] event_id(events[i])->Some_0@),
    decreases events.len(),
{
    if events.len() > 0 {
        let pre = events.drop_last();
        lemma_checked_run(pre, entries);
        lemma_run_well_formed(events);
        let m = checked_run(pre, entries)->Ok_0.0;
        let r = checked_run(events, entries)->Ok_0.0;
        let e = events.last();
        match e {
            Event::Scalar(id, _) => lemma_position(m.ids, id@),
            Event::Real(id, _) => lemma_position(m.ids, id@),
            _ => {},
        }
        assert forall|i: int|
            0 <= i < events.len() && (events[i] is Scalar || events[i] is Real) implies r.ids.contains(
            #[trigger] event_id(events[i])->Some_0@) by {
            if i < events.len() - 1 {
                assert(pre[i] == events[i]);
                let id = event_id(events[i])->Some_0@;
                let k = choose|k: int| 0 <= k < m.ids.len() && m.ids[k] == id;
                assert(r.ids[k] == id);
            } else {
                let id = event_id(events[i])->Some_0@;
                lemma_position(r.ids, id);
                if position(m.ids, id) >= 0 {
                    assert(r.ids[position(m.ids, id)] == id);
                } else {
                    assert(r.ids[r.ids.len() - 1] == id);
                }
            }
        }
    }
}

/// Unsupported kinds are isolated in the checked run as well: an unknown,
/// high-impedance or string change of any signal, declared or not, inserted
/// anywhere into a stream never makes it fail, leaves its outcome and its
/// timeline as they were, and is counted once more.
pub proof fn lemma_checked_unsupported_isolated(
    a: Seq<Event>,
    e: Event,
    b: Seq<Event>,
    entries: Seq<DeclarationEntry>,
)
    requires
        e is Unknown || e is Text,
    ensures
        match checked_run(a + b, entries) {
            Ok((m, c)) => checked_run(a.push(e) + b, entries) == Ok::<(TimelineModel, nat), DumpError>(
                (m, c + 1),
            ),
            Err(err) => checked_run(a.push(e) + b, entries) == Err::<(TimelineModel, nat), DumpError>(
                err,
            ),
        },
    decreases b.len(),
{
    if b.len() == 0 {
        assert(a.push(e) + b =~= a.push(e));
        assert(a + b =~= a);
        assert(a.push(e).drop_last() =~= a);
    } else {
        lemma_checked_unsupported_isolated(a, e, b.drop_last(), entries);
        assert((a.push(e) + b).drop_last() =~= a.push(e) + b.drop_last());
        assert((a + b).drop_last() =~= a + b.drop_last());
        assert((a.push(e) + b).last() == b.last());
        assert((a + b).last() == b.last());
    }
}

/// Once a prefix of the stream fails, the whole stream fails the same way.
proof fn lemma_checked_run_err(events: Seq<Event>, entries: Seq<DeclarationEntry>, i: int)
    requires
        0 <= i <= events.len(),
        checked_run(events.subrange(0, i), entries) is Err,
    ensures
        checked_run(events, entries) == checked_run(events.subrange(0, i), entries),
    decreases events.len() - i,
{
    if i < events.len() {
        let next = events.subrange(0, i + 1);
        assert(next.drop_last() =~= events.subrange(0, i));
        lemma_checked_run_err(events, entries, i + 1);
    } else {
        assert(events.subrange(0, i) =~= events);
    }
}

/// The signal that a 0/1 or real change sets; `None` for any other event.
fn changed_signal(e: &Event) -> (r: Option<&String>)
    ensures
        match r {
            Some(s) => sets_value(*e) && event_id(*e) == Some(*s),
            None => !sets_value(*e),
        },
{
    match e {
        Event::Scalar(id, _) => Some(id),
        Event::Real(id, _) => Some(id),
        _ => None,
    }
}

/// Runs the stream of events against the declaration table, one event at a
/// time, and closes the last time at the end: the timeline with the number
/// of unsupported changes dropped, or the error of the first 0/1 or real
/// change of an undeclared signal or the first timestamp that goes back.
pub fn build_timeline(events: &Vec<Event>, table: &DeclarationTable) -> (r: Result<
    (Timeline, usize),
    DumpError,
>)
    ensures
        match checked_run(events@, table.entries@) {
            Ok((m, c)) => r is Ok && r->Ok_0.0.wf() && r->Ok_0.0@ == close(m) && r->Ok_0.1 == c,
            Err(err) => r == Err::<(Timeline, usize), DumpError>(err),
        },
{
    let mut t = Timeline::new();
    let mut count: usize = 0;
    let mut i: usize = 0;
    assert(events@.subrange(0, 0) =~= Seq::<Event>::empty());
    while i < events.len()
        invariant
            i <= events.len(),
            t.wf(),
            count <= i,
            checked_run(events@.subrange(0, i as int), table.entries@) == Ok::<
                (TimelineModel, nat),
                DumpError,
            >((t@, count as nat)),
        decreases events.len() - i,
    {
        let ghost cur = events@.subrange(0, i + 1);
        assert(cur.drop_last() =~= events@.subrange(0, i as int));
        assert(cur.last() == events@[i as int]);
        let e = &events[i];
        match changed_signal(e) {
            Some(id) => {
                if find_name(&table.entries, id).is_none() {
                    proof {
                        lemma_checked_run_err(events@, table.entries@, i + 1);
                    }
                    return Err(DumpError::Undeclared(id.clone()));
                }
            },
            None => {},
        }
        match t.apply(e) {
            Ok(a) => {
                if a == Applied::Unsupported {
                    count = count + 1;
                }
            },
            Err(err) => {
                proof {
                    lemma_checked_run_err(events@, table.entries@, i + 1);
                }
                return Err(err);
            },
        }
        i = i + 1;
    }
    assert(events@.subrange(0, i as int) =~= events@);
    t.close();
    Ok((t, count))
}

/// A dump taken apart: its header, the declarations visible through the
/// root scopes, each tracked signal with its display name, the timeline of
/// snapshots, and how many unsupported changes were dropped.
pub struct Dump {
    pub header: vcd::Header,
    pub table: DeclarationTable,
    pub names: Vec<(String, String)>,
    pub timeline: Timeline,
    pub unsupported: usize,
}

/// Whether `names` pairs each signal of `m`, in order, with its name in `entries`.
pub open spec fn names_of(names: Seq<(String, String)>, m: TimelineModel, entries: Seq<DeclarationEntry>) -> bool {
    &&& names.len() == m.ids.len()
    &&& forall|k: int|
        0 <= k < names.len() ==> (#[trigger] names[k]).0@ == m.ids[k] && names[k].1@ == name_of(entries, m.ids[k])
}

/// Whether every signal that a 0/1 or real change of `ev` sets is listed in
/// `names`.
pub open spec fn names_cover(names: Seq<(String, String)>, ev: Seq<Event>) -> bool {
    forall|i: int|
        0 <= i < ev.len() && (ev[i] is Scalar || ev[i] is Real) ==> exists|k: int|
            0 <= k < names.len() && (#[trigger] names[k]).0@ == event_id(#[trigger] ev[i])->Some_0@
}

/// Whether `d` is the dump that the header `h` and the events `ev` build.
pub open spec fn dump_built(d: Dump, h: vcd::Header, ev: Seq<Event>) -> bool {
    &&& d.header == h
    &&& table_of(d.table, h.items@)
    &&& checked_run(ev, d.table.entries@) is Ok
    &&& d.timeline@ == close(checked_run(ev, d.table.entries@)->Ok_0.0)
    &&& d.unsupported == checked_run(ev, d.table.entries@)->Ok_0.1
    &&& d.timeline.wf()
    &&& names_of(d.names@, d.timeline@, d.table.entries@)
    &&& names_cover(d.names@, ev)
}

/// The timeline of a built dump is the timeline of its events, so the laws
/// stated over `run` and `timeline_of` (snapshot completeness, forward fill,
/// isolation of unsupported changes) hold of what `load_dump` and
/// `vcd_parser_wrapper` return.
pub proof fn lemma_dump_timeline(d: Dump, h: vcd::Header, ev: Seq<Event>)
    requires
        dump_built(d, h, ev),
    ensures
        timeline_of(ev) == Some(d.timeline@),
        run(ev) is Some,
{
    lemma_checked_run(ev, d.table.entries@);
}

/// Whether building `ev` against the table of `h` stops with `err`.
pub open spec fn build_fails(h: vcd::Header, ev: Seq<Event>, err: DumpError) -> bool {
    exists|t: DeclarationTable|
        table_of(t, h.items@) && #[trigger] checked_run(ev, t.entries@) == Err::<
            (TimelineModel, nat),
            DumpError,
        >(err)
}

/// Whether `ev` builds against the table of `h`: no variable at the root,
/// and the checked run succeeds.
pub open spec fn build_succeeds(h: vcd::Header, ev: Seq<Event>) -> bool {
    &&& !has_root_var(h.items@)
    &&& forall|t: DeclarationTable|
        table_of(t, h.items@) ==> #[trigger] checked_run(ev, t.entries@) is Ok
}

/// Builds a dump from its header and the events of its body: the
/// declaration table first, then the checked run of the events, then the
/// display name of every tracked signal. Every signal that a change event
/// sets gets a name in the result; a signal without declaration is a fatal
/// error, never a missing entry.
pub fn build_dump(header: vcd::Header, events: &Vec<Event>) -> (r: Result<Dump, DumpError>)
    ensures
        has_root_var(header.items@) ==> r == Err::<Dump, DumpError>(DumpError::RootNotScope),
        r is Ok ==> dump_built(r->Ok_0, header, events@),
        r is Err && !has_root_var(header.items@) ==> build_fails(header, events@, r->Err_0),
        build_succeeds(header, events@) ==> r is Ok,
{
    let table = match declaration_table(&header.items) {
        Ok(t) => t,
        Err(err) => return Err(err),
    };
    let (timeline, unsupported) = match build_timeline(events, &table) {
        Ok(x) => x,
        Err(err) => return Err(err),
    };
    let ids = timeline.ids();
    proof {
        lemma_checked_run(events@, table.entries@);
        assert forall|i: int| 0 <= i < ids.len() implies declared(table.entries@, #[trigger] ids[i]@) by {
            assert(ids@.map_values(|s: String| s@)[i] == ids[i]@);
        }
    }
    let names = match resolve_names(ids, &table) {
        Ok(n) => n,
        Err(err) => {
            // Unreachable: the checked run declared every tracked signal.
            assert(false);
            return Err(err);
        },
    };
    let d = Dump { header, table, names, timeline, unsupported };
    proof {
        let m = d.timeline@;
        assert forall|k: int| 0 <= k < m.ids.len() implies m.ids[k] == ids[k]@ by {
            assert(ids@.map_values(|s: String| s@)[k] == ids[k]@);
        }
        assert forall|i: int|
            0 <= i < events.len() && (events[i] is Scalar || events[i] is Real) implies exists|k: int|
            0 <= k < d.names.len() && (#[trigger] d.names[k]).0@ == event_id(
                #[trigger] events[i],
            )->Some_0@ by {
            let id = event_id(events[i])->Some_0@;
            let k = choose|k: int| 0 <= k < m.ids.len() && m.ids[k] == id;
            assert(d.names[k].0@ == id);
        }
    }
    Ok(d)
}

/// Reads a dump from its text: parses the header and the body, turns each
/// record into an event and builds the dump. Malformed text fails with the
/// parser's error; otherwise the result is what `build_dump` makes of the
/// parsed header and the events that stand for the parsed records.
pub fn load_dump(bytes: &[u8]) -> (r: Result<Dump, DumpError>)
    ensures
        parsed_dump(bytes@) is None ==> r is Err && (r->Err_0 == DumpError::Header || r->Err_0
            == DumpError::Body),
        parsed_dump(bytes@) is Some && has_root_var(parsed_dump(bytes@)->Some_0.0.items@) ==> r
            == Err::<Dump, DumpError>(DumpError::RootNotScope),
        r is Ok ==> parsed_dump(bytes@) is Some && exists|ev: Seq<Event>|
            #[trigger] events_match(ev, parsed_dump(bytes@)->Some_0.1) && dump_built(
                r->Ok_0,
                parsed_dump(bytes@)->Some_0.0,
                ev,
            ),
        r is Err && parsed_dump(bytes@) is Some && !has_root_var(
            parsed_dump(bytes@)->Some_0.0.items@,
        ) ==> exists|ev: Seq<Event>|
            #[trigger] events_match(ev, parsed_dump(bytes@)->Some_0.1) && build_fails(
                parsed_dump(bytes@)->Some_0.0,
                ev,
                r->Err_0,
            ),
        parsed_dump(bytes@) is Some && (forall|ev: Seq<Event>|
            #[trigger] events_match(ev, parsed_dump(bytes@)->Some_0.1) ==> build_succeeds(
                parsed_dump(bytes@)->Some_0.0,
                ev,
            )) ==> r is Ok,
{
    let (header, commands) = match parse_records(bytes) {
        Ok(x) => x,
        Err(err) => return Err(err),
    };
    let events = events_of(&commands);
    assert(events_match(events@, commands@));
    build_dump(header, &events)
}

/// The snapshots of a timeline as a map from timestamp to the values then.
pub fn snapshot_map(timeline: &Timeline) -> (r: BTreeMap<u64, Vec<ChangeTypes>>)
    requires
        timeline.wf(),
    ensures
        r@.dom() == timeline@.times.to_set(),
        forall|j: int| 0 <= j < timeline@.times.len() ==> (#[trigger] r@[timeline@.times[j]])@
            == timeline@.snapshots[j],
{
    broadcast use vstd::std_specs::btree::group_btree_axioms;
    broadcast use vstd::laws_cmp::group_laws_cmp;
    let times = timeline.times();
    let snaps = timeline.snapshots();
    let ghost m = timeline@;
    let mut r: BTreeMap<u64, Vec<ChangeTypes>> = BTreeMap::new();
    let mut j: usize = 0;
    while j < times.len()
        invariant
            m == timeline@,
            well_formed(m),
            times@ == m.times,
            snaps@.map_values(|v: Vec<ChangeTypes>| v@) == m.snapshots,
            j <= times.len(),
            r@.dom() == m.times.subrange(0, j as int).to_set(),
            forall|i: int| 0 <= i < j ==> (#[trigger] r@[m.times[i]])@ == m.snapshots[i],
        decreases times.len() - j,
    {
        let ghost old_r = r@;
        r.insert(times[j], snaps[j].clone());
        assert(m.times.subrange(0, j + 1).to_set() =~= m.times.subrange(0, j as int).to_set().insert(
            m.times[j as int],
        )) by {
            assert(m.times.subrange(0, j + 1) =~= m.times.subrange(0, j as int).push(m.times[j as int]));
            m.times.subrange(0, j as int).lemma_push_to_set_commute(m.times[j as int]);
        }
        assert forall|i: int| 0 <= i < j + 1 implies (#[trigger] r@[m.times[i]])@ == m.snapshots[i] by {
            if i < j {
                assert(m.times[i] < m.times[j as int]);
            }
        }
        j = j + 1;
    }
    assert(m.times.subrange(0, j as int) =~= m.times);
    r
}

/// Whether `names` and `map` are the names and the snapshots of the dump
/// that `h` and `ev` build.
pub open spec fn waveform_of(
    names: Seq<(String, String)>,
    map: Map<u64, Vec<ChangeTypes>>,
    h: vcd::Header,
    ev: Seq<Event>,
) -> bool {
    exists|d: Dump|
        #[trigger] dump_built(d, h, ev) && names == d.names@ && map.dom() == d.timeline@.times.to_set()
            && forall|j: int|
            0 <= j < d.timeline@.times.len() ==> (#[trigger] map[d.timeline@.times[j]])@
                == d.timeline@.snapshots[j]
}

/// Reads a dump from its text and returns each tracked signal with its
/// display name, and the snapshot of every timestamp. Entry `k` of a
/// snapshot is the value of the `k`-th named signal. Fails as `load_dump`
/// does.
pub fn vcd_parser_wrapper(bytes: &[u8]) -> (r: Result<
    (Vec<(String, String)>, BTreeMap<u64, Vec<ChangeTypes>>),
    DumpError,
>)
    ensures
        parsed_dump(bytes@) is None ==> r is Err && (r->Err_0 == DumpError::Header || r->Err_0
            == DumpError::Body),
        parsed_dump(bytes@) is Some && has_root_var(parsed_dump(bytes@)->Some_0.0.items@) ==> r
            == Err::<(Vec<(String, String)>, BTreeMap<u64, Vec<ChangeTypes>>), DumpError>(
            DumpError::RootNotScope,
        ),
        r is Ok ==> parsed_dump(bytes@) is Some && exists|ev: Seq<Event>|
            #[trigger] events_match(ev, parsed_dump(bytes@)->Some_0.1) && waveform_of(
                r->Ok_0.0@,
                r->Ok_0.1@,
                parsed_dump(bytes@)->Some_0.0,
                ev,
            ),
        r is Err && parsed_dump(bytes@) is Some && !has_root_var(
            parsed_dump(bytes@)->Some_0.0.items@,
        ) ==> exists|ev: Seq<Event>|
            #[trigger] events_match(ev, parsed_dump(bytes@)->Some_0.1) && build_fails(
                parsed_dump(bytes@)->Some_0.0,
                ev,
                r->Err_0,
            ),
        parsed_dump(bytes@) is Some && (forall|ev: Seq<Event>|
            #[trigger] events_match(ev, parsed_dump(bytes@)->Some_0.1) ==> build_succeeds(
                parsed_dump(bytes@)->Some_0.0,
                ev,
            )) ==> r is Ok,
{
    match load_dump(bytes) {
        Ok(d) => {
            let ghost p = parsed_dump(bytes@)->Some_0;
            let ghost ev = choose|ev: Seq<Event>| #[trigger] events_match(ev, p.1) && dump_built(d, p.0, ev);
            let map = snapshot_map(&d.timeline);
            let ghost dd = d;
            let names = d.names;
            proof {
                assert(dump_built(dd, p.0, ev));
                assert(waveform_of(names@, map@, p.0, ev));
            }
            Ok((names, map))
        },
        Err(err) => Err(err),
    }
}

} // verus!
