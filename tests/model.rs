use waveplot::{
    build_timeline, densify, resolve_names, snapshot_map, Applied, ChangeTypes, DeclarationEntry,
    DeclarationTable, DumpError, Event, Timeline,
};

fn entry(code: &str, reference: &str) -> DeclarationEntry {
    DeclarationEntry {
        code: code.to_string(),
        reference: reference.to_string(),
        var_type: "wire".to_string(),
        size: 1,
        index: None,
    }
}

fn table(entries: Vec<DeclarationEntry>) -> DeclarationTable {
    DeclarationTable { entries, skipped: Vec::new() }
}

#[test]
fn apply_reports_each_kind() {
    let mut t = Timeline::new();
    assert_eq!(t.apply(&Event::Timestamp(0)), Ok(Applied::Snapshot));
    assert_eq!(t.apply(&Event::Scalar("!".to_string(), true)), Ok(Applied::Recorded));
    assert_eq!(t.apply(&Event::Real("%".to_string(), 42)), Ok(Applied::Recorded));
    assert_eq!(t.apply(&Event::Unknown("!".to_string())), Ok(Applied::Unsupported));
    assert_eq!(t.apply(&Event::Text("!".to_string())), Ok(Applied::Unsupported));
    assert_eq!(t.apply(&Event::Other), Ok(Applied::Ignored));
    assert_eq!(t.values(), &vec![ChangeTypes::Bit_1(true), ChangeTypes::Bit_64(42)]);
    assert_eq!(t.pending(), Some(0));
    assert!(t.times().is_empty());
    t.close();
    assert_eq!(t.pending(), None);
    assert_eq!(t.times(), &vec![0]);
    assert_eq!(t.snapshots(), &vec![vec![ChangeTypes::Bit_1(true), ChangeTypes::Bit_64(42)]]);
}

#[test]
fn apply_refuses_earlier_timestamp() {
    let mut t = Timeline::new();
    t.apply(&Event::Timestamp(7)).unwrap();
    assert_eq!(t.apply(&Event::Timestamp(3)), Err(DumpError::TimeOrder { previous: 7, found: 3 }));
    assert_eq!(t.pending(), Some(7));
    t.apply(&Event::Timestamp(9)).unwrap();
    t.close();
    // After closing, a timestamp must still be later than the last one.
    assert_eq!(t.apply(&Event::Timestamp(9)), Err(DumpError::TimeOrder { previous: 9, found: 9 }));
    assert_eq!(t.apply(&Event::Timestamp(10)), Ok(Applied::Snapshot));
}

#[test]
fn unknown_state_does_not_overwrite() {
    let mut t = Timeline::new();
    t.apply(&Event::Scalar("!".to_string(), false)).unwrap();
    t.apply(&Event::Unknown("!".to_string())).unwrap();
    assert_eq!(t.values(), &vec![ChangeTypes::Bit_1(false)]);
    assert_eq!(t.ids(), &vec!["!".to_string()]);
}

#[test]
fn ids_keep_first_change_order() {
    let mut t = Timeline::new();
    t.apply(&Event::Scalar("b".to_string(), true)).unwrap();
    t.apply(&Event::Scalar("a".to_string(), true)).unwrap();
    t.apply(&Event::Scalar("b".to_string(), false)).unwrap();
    assert_eq!(t.ids(), &vec!["b".to_string(), "a".to_string()]);
    assert_eq!(t.values(), &vec![ChangeTypes::Bit_1(false), ChangeTypes::Bit_1(true)]);
}

#[test]
fn build_timeline_counts_unsupported() {
    let events = vec![
        Event::Timestamp(0),
        Event::Scalar("!".to_string(), true),
        Event::Unknown("!".to_string()),
        Event::Timestamp(2),
        Event::Text("!".to_string()),
        Event::Other,
    ];
    let (t, count) = build_timeline(&events, &table(vec![entry("!", "a")])).unwrap();
    assert_eq!(count, 2);
    assert_eq!(t.times(), &vec![0, 2]);
    assert_eq!(densify(&t, 0), vec![(0, ChangeTypes::Bit_1(true)), (2, ChangeTypes::Bit_1(true))]);
}

#[test]
fn build_timeline_stops_at_first_failure() {
    let events = vec![
        Event::Timestamp(4),
        Event::Timestamp(2),
        Event::Scalar("?".to_string(), true),
    ];
    assert_eq!(
        build_timeline(&events, &table(vec![entry("!", "a")])).err(),
        Some(DumpError::TimeOrder { previous: 4, found: 2 })
    );
    let events = vec![Event::Scalar("?".to_string(), true), Event::Timestamp(4), Event::Timestamp(2)];
    assert_eq!(
        build_timeline(&events, &table(vec![entry("!", "a")])).err(),
        Some(DumpError::Undeclared("?".to_string()))
    );
}

#[test]
fn resolve_names_pairs_in_order() {
    let t = table(vec![entry("!", "a"), entry("\"", "b")]);
    let ids = vec!["\"".to_string(), "!".to_string()];
    assert_eq!(
        resolve_names(&ids, &t),
        Ok(vec![("\"".to_string(), "b".to_string()), ("!".to_string(), "a".to_string())])
    );
}

#[test]
fn resolve_names_last_declaration_wins() {
    let t = table(vec![entry("!", "first"), entry("!", "second")]);
    let ids = vec!["!".to_string()];
    assert_eq!(resolve_names(&ids, &t), Ok(vec![("!".to_string(), "second".to_string())]));
}

#[test]
fn resolve_names_fails_on_first_undeclared() {
    let t = table(vec![entry("!", "a")]);
    let ids = vec!["!".to_string(), "x".to_string(), "y".to_string()];
    assert_eq!(resolve_names(&ids, &t), Err(DumpError::Undeclared("x".to_string())));
    assert_eq!(resolve_names(&vec![], &t), Ok(vec![]));
}

#[test]
fn snapshot_map_matches_timeline() {
    let mut t = Timeline::new();
    t.apply(&Event::Timestamp(3)).unwrap();
    t.apply(&Event::Scalar("!".to_string(), true)).unwrap();
    t.apply(&Event::Timestamp(8)).unwrap();
    t.apply(&Event::Scalar("!".to_string(), false)).unwrap();
    t.close();
    let m = snapshot_map(&t);
    assert_eq!(m.len(), 2);
    assert_eq!(m[&3], vec![ChangeTypes::Bit_1(true)]);
    assert_eq!(m[&8], vec![ChangeTypes::Bit_1(false)]);
}
