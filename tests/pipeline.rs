use waveplot::{
    densify, load_dump, vcd_parser_wrapper, ChangeTypes, DumpError,
};

const HEADER: &str = "$timescale 1ns $end\n$scope module top $end\n$var wire 1 ! a $end\n$var wire 1 \" b $end\n$upscope $end\n$enddefinitions $end\n";

fn dump(body: &str) -> Vec<u8> {
    let mut text = String::from(HEADER);
    text.push_str(body);
    text.into_bytes()
}

fn bit(v: bool) -> ChangeTypes {
    ChangeTypes::Bit_1(v)
}

#[test]
fn example_scenario_snapshots() {
    let bytes = dump("#0\n0!\n0\"\n#5\n1!\n#10\n1\"\n#15\n");
    let (names, snaps) = vcd_parser_wrapper(&bytes).unwrap();
    assert_eq!(
        names,
        vec![
            ("!".to_string(), "a".to_string()),
            ("\"".to_string(), "b".to_string())
        ]
    );
    let got: Vec<(u64, Vec<ChangeTypes>)> = snaps.into_iter().collect();
    assert_eq!(
        got,
        vec![
            (0, vec![bit(false), bit(false)]),
            (5, vec![bit(true), bit(false)]),
            (10, vec![bit(true), bit(true)]),
            (15, vec![bit(true), bit(true)]),
        ]
    );
}

#[test]
fn example_scenario_series() {
    let bytes = dump("#0\n0!\n0\"\n#5\n1!\n#10\n1\"\n#15\n");
    let d = load_dump(&bytes).unwrap();
    assert_eq!(
        densify(&d.timeline, 0),
        vec![(0, bit(false)), (5, bit(true)), (10, bit(true)), (15, bit(true))]
    );
    assert_eq!(
        densify(&d.timeline, 1),
        vec![(0, bit(false)), (5, bit(false)), (10, bit(true)), (15, bit(true))]
    );
    assert_eq!(d.unsupported, 0);
}

#[test]
fn series_starts_at_first_sample() {
    let bytes = dump("#0\n1!\n#4\n#9\n0\"\n#12\n");
    let d = load_dump(&bytes).unwrap();
    assert_eq!(
        densify(&d.timeline, 0),
        vec![(0, bit(true)), (4, bit(true)), (9, bit(true)), (12, bit(true))]
    );
    // b has no value before its first change: its series starts at 9.
    assert_eq!(densify(&d.timeline, 1), vec![(9, bit(false)), (12, bit(false))]);
    // A place that no signal has gives an empty series.
    assert_eq!(densify(&d.timeline, 2), vec![]);
}

#[test]
fn signal_absent_before_first_change() {
    let bytes = dump("#0\n1!\n#3\n0\"\n#6\n");
    let (_, snaps) = vcd_parser_wrapper(&bytes).unwrap();
    assert_eq!(snaps[&0], vec![bit(true)]);
    assert_eq!(snaps[&3], vec![bit(true), bit(false)]);
    assert_eq!(snaps[&6], vec![bit(true), bit(false)]);
}

#[test]
fn impedance_change_is_isolated() {
    let plain = dump("#0\n0!\n0\"\n#5\n1!\n#10\n1\"\n#15\n");
    let injected = dump("#0\n0!\n0\"\n#5\n1!\n#10\nx!\n1\"\n#15\n");
    let a = load_dump(&plain).unwrap();
    let b = load_dump(&injected).unwrap();
    assert_eq!(b.unsupported, 1);
    assert_eq!(a.timeline.snapshots(), b.timeline.snapshots());
    assert_eq!(a.timeline.times(), b.timeline.times());
    assert_eq!(a.names, b.names);
    assert_eq!(densify(&b.timeline, 0), densify(&a.timeline, 0));
}

#[test]
fn string_change_is_isolated() {
    let plain = dump("#0\n0!\n0\"\n#5\n1!\n#10\n");
    let injected = dump("#0\n0!\n0\"\n#5\nshello \"\n1!\n#10\n");
    let a = load_dump(&plain).unwrap();
    let b = load_dump(&injected).unwrap();
    assert_eq!(b.unsupported, 1);
    assert_eq!(a.timeline.snapshots(), b.timeline.snapshots());
    assert_eq!(a.timeline.values(), b.timeline.values());
}

#[test]
fn high_impedance_keeps_last_value() {
    let bytes = dump("#0\n1!\n#2\nz!\n#4\n");
    let d = load_dump(&bytes).unwrap();
    assert_eq!(d.unsupported, 1);
    assert_eq!(densify(&d.timeline, 0), vec![(0, bit(true)), (2, bit(true)), (4, bit(true))]);
}

#[test]
fn value_carried_until_changed() {
    let bytes = dump("#1\n0!\n1\"\n#2\n1!\n#3\n#4\n0!\n#5\n");
    let d = load_dump(&bytes).unwrap();
    let snaps = d.timeline.snapshots();
    // b never changes after time 1: every later snapshot holds its value.
    for s in snaps.iter() {
        assert_eq!(s[1], bit(true));
    }
    assert_eq!(
        densify(&d.timeline, 0),
        vec![(1, bit(false)), (2, bit(true)), (3, bit(true)), (4, bit(false)), (5, bit(false))]
    );
}

#[test]
fn coverage_one_entry_per_timestamp() {
    let bytes = dump("#0\n#1\n#2\n1\"\n#3\n#4\n#5\n");
    let d = load_dump(&bytes).unwrap();
    let series = densify(&d.timeline, 0);
    let times: Vec<u64> = series.iter().map(|e| e.0).collect();
    assert_eq!(times, vec![2, 3, 4, 5]);
    assert_eq!(d.timeline.times(), &vec![0, 1, 2, 3, 4, 5]);
}

#[test]
fn real_change_keeps_bit_pattern() {
    let bytes = String::from(
        "$scope module top $end\n$var real 64 % r $end\n$upscope $end\n$enddefinitions $end\n#0\nr1.5 %\n#7\nr-0.25 %\n#9\n",
    )
    .into_bytes();
    let d = load_dump(&bytes).unwrap();
    assert_eq!(d.names, vec![("%".to_string(), "r".to_string())]);
    assert_eq!(
        densify(&d.timeline, 0),
        vec![
            (0, ChangeTypes::Bit_64(1.5f64.to_bits())),
            (7, ChangeTypes::Bit_64((-0.25f64).to_bits())),
            (9, ChangeTypes::Bit_64((-0.25f64).to_bits())),
        ]
    );
}

#[test]
fn repeated_timestamp_keeps_one_snapshot() {
    let bytes = dump("#0\n0!\n#5\n1!\n#5\n1\"\n#8\n");
    let (_, snaps) = vcd_parser_wrapper(&bytes).unwrap();
    let keys: Vec<u64> = snaps.keys().copied().collect();
    assert_eq!(keys, vec![0, 5, 8]);
    assert_eq!(snaps[&5], vec![bit(true), bit(true)]);
}

#[test]
fn changes_before_first_timestamp_are_kept() {
    let bytes = dump("$dumpvars\n0!\n1\"\n$end\n#0\n#3\n1!\n");
    let (names, snaps) = vcd_parser_wrapper(&bytes).unwrap();
    assert_eq!(names.len(), 2);
    assert_eq!(snaps[&0], vec![bit(false), bit(true)]);
    assert_eq!(snaps[&3], vec![bit(true), bit(true)]);
}

#[test]
fn empty_body_gives_empty_timeline() {
    let d = load_dump(&dump("")).unwrap();
    assert!(d.names.is_empty());
    assert!(d.timeline.times().is_empty());
    assert_eq!(d.table.entries.len(), 2);
}

#[test]
fn undeclared_signal_is_fatal() {
    let bytes = dump("#0\n0!\n1#\n#5\n");
    assert_eq!(load_dump(&bytes).err(), Some(DumpError::Undeclared("#".to_string())));
    assert_eq!(vcd_parser_wrapper(&bytes).err(), Some(DumpError::Undeclared("#".to_string())));
}

#[test]
fn undeclared_impedance_change_is_skipped() {
    let bytes = dump("#0\n1!\nx#\nsabc #\n#2\n");
    let d = load_dump(&bytes).unwrap();
    assert_eq!(d.unsupported, 2);
    assert_eq!(d.names, vec![("!".to_string(), "a".to_string())]);
}

#[test]
fn nested_scope_unknown_change_is_skipped() {
    let bytes = String::from(
        "$scope module top $end\n$var wire 1 ! a $end\n$scope module inner $end\n$var wire 1 \" deep $end\n$upscope $end\n$upscope $end\n$enddefinitions $end\n#0\n1!\nz\"\n#1\n",
    )
    .into_bytes();
    let (names, snaps) = vcd_parser_wrapper(&bytes).unwrap();
    assert_eq!(names, vec![("!".to_string(), "a".to_string())]);
    assert_eq!(snaps.len(), 2);
}

#[test]
fn time_going_back_is_fatal() {
    let bytes = dump("#0\n0!\n#10\n1!\n#5\n");
    assert_eq!(
        load_dump(&bytes).err(),
        Some(DumpError::TimeOrder { previous: 10, found: 5 })
    );
}

#[test]
fn missing_header_end_is_fatal() {
    let bytes = String::from("$scope module top $end\n$var wire 1 ! a $end\n$upscope $end\n").into_bytes();
    assert_eq!(load_dump(&bytes).err(), Some(DumpError::Header));
}

#[test]
fn malformed_body_is_fatal() {
    let bytes = dump("#0\n0!\n#abc\n");
    assert_eq!(load_dump(&bytes).err(), Some(DumpError::Body));
}

#[test]
fn root_variable_is_fatal() {
    let bytes = String::from("$var wire 1 ! a $end\n$enddefinitions $end\n#0\n1!\n").into_bytes();
    assert_eq!(load_dump(&bytes).err(), Some(DumpError::RootNotScope));
}

#[test]
fn nested_scope_is_skipped() {
    let bytes = String::from(
        "$scope module top $end\n$var wire 1 ! a $end\n$scope module inner $end\n$var wire 1 \" deep $end\n$upscope $end\n$var wire 4 # c $end\n$upscope $end\n$enddefinitions $end\n#0\n1!\n",
    )
    .into_bytes();
    let d = load_dump(&bytes).unwrap();
    assert_eq!(d.table.skipped, vec!["inner".to_string()]);
    let refs: Vec<&str> = d.table.entries.iter().map(|e| e.reference.as_str()).collect();
    assert_eq!(refs, vec!["a", "c"]);
    assert_eq!(d.table.entries[1].size, 4);
    assert_eq!(d.table.entries[1].code, "#");
    assert_eq!(d.table.entries[1].var_type, "wire");
    assert_eq!(d.table.entries[1].index, None);
}

#[test]
fn nested_scope_signal_change_is_fatal() {
    let bytes = String::from(
        "$scope module top $end\n$var wire 1 ! a $end\n$scope module inner $end\n$var wire 1 \" deep $end\n$upscope $end\n$upscope $end\n$enddefinitions $end\n#0\n1\"\n",
    )
    .into_bytes();
    assert_eq!(load_dump(&bytes).err(), Some(DumpError::Undeclared("\"".to_string())));
}

#[test]
fn root_comment_is_allowed() {
    let bytes = String::from(
        "$comment generated $end\n$scope module top $end\n$var wire 1 ! a $end\n$upscope $end\n$enddefinitions $end\n#0\n1!\n",
    )
    .into_bytes();
    let (names, _) = vcd_parser_wrapper(&bytes).unwrap();
    assert_eq!(names, vec![("!".to_string(), "a".to_string())]);
}

#[test]
fn two_root_scopes_are_both_read() {
    let bytes = String::from(
        "$scope module one $end\n$var wire 1 ! a $end\n$upscope $end\n$scope module two $end\n$var wire 1 \" b $end\n$upscope $end\n$enddefinitions $end\n#0\n1\"\n0!\n#1\n",
    )
    .into_bytes();
    let (names, _) = vcd_parser_wrapper(&bytes).unwrap();
    assert_eq!(
        names,
        vec![
            ("\"".to_string(), "b".to_string()),
            ("!".to_string(), "a".to_string())
        ]
    );
}

#[test]
fn header_is_carried_through() {
    let d = load_dump(&dump("#0\n")).unwrap();
    assert_eq!(d.header.timescale.map(|t| t.0), Some(1));
    assert_eq!(d.header.items.len(), 1);
}

#[test]
fn declaration_keeps_type_and_index() {
    let bytes = String::from(
        "$scope module top $end\n$var reg 1 ! q [3] $end\n$var wire 8 \" bus [7:0] $end\n$upscope $end\n$enddefinitions $end\n",
    )
    .into_bytes();
    let d = load_dump(&bytes).unwrap();
    let e = &d.table.entries;
    assert_eq!(e.len(), 2);
    assert_eq!((e[0].code.as_str(), e[0].reference.as_str(), e[0].var_type.as_str()), ("!", "q", "reg"));
    assert_eq!(e[0].index, Some("[3]".to_string()));
    assert_eq!((e[1].size, e[1].index.clone()), (8, Some("[7:0]".to_string())));
}
