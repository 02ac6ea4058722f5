use waveplot::{get_args, get_args_type, get_path, wants_plot, App, Arguments, Key};

fn args(v: &[&str]) -> Vec<String> {
    v.iter().map(|s| s.to_string()).collect()
}

#[test]
fn flags_are_recognised() {
    assert_eq!(get_args(&args(&["-v"])), Arguments::Version);
    assert_eq!(get_args(&args(&["--version"])), Arguments::Version);
    assert_eq!(get_args(&args(&["-h"])), Arguments::Help);
    assert_eq!(get_args(&args(&["--help", "-v"])), Arguments::Help);
    assert_eq!(get_args(&args(&["dump.vcd"])), Arguments::Path);
    assert_eq!(get_args(&args(&[])), Arguments::Empty);
}

#[test]
fn path_needs_an_existing_file() {
    assert_eq!(get_args_type(&args(&["dump.vcd"]), true), Arguments::Path);
    assert_eq!(get_args_type(&args(&["missing.vcd"]), false), Arguments::Empty);
    assert_eq!(get_args_type(&args(&["-v"]), false), Arguments::Version);
    assert_eq!(get_args_type(&args(&["-h"]), true), Arguments::Help);
    assert_eq!(get_args_type(&args(&[]), true), Arguments::Empty);
}

#[test]
fn path_is_first_argument() {
    assert_eq!(get_path(&args(&["a.vcd", "b.vcd"])), "a.vcd");
    assert_eq!(get_path(&args(&[])), "");
}

#[test]
fn only_a_path_plots() {
    assert!(wants_plot(Arguments::Path));
    assert!(!wants_plot(Arguments::Help));
    assert!(!wants_plot(Arguments::Version));
    assert!(!wants_plot(Arguments::Empty));
}

#[test]
fn tabs_wrap_around() {
    let mut app = App::new();
    assert_eq!(app.titles, vec!["Plot", "Parser", "Header", "VCD Code"]);
    assert_eq!(app.index, 0);
    app.previous();
    assert_eq!(app.index, 3);
    app.next();
    assert_eq!(app.index, 0);
    app.next();
    app.next();
    assert_eq!(app.index, 2);
}

#[test]
fn header_rows_wrap_around() {
    let mut app = App::new();
    app.items_length = 3;
    app.next_header_tab();
    assert_eq!(app.selected, Some(0));
    app.next_header_tab();
    app.next_header_tab();
    assert_eq!(app.selected, Some(2));
    app.next_header_tab();
    assert_eq!(app.selected, Some(0));
    app.previous_header_tab();
    assert_eq!(app.selected, Some(2));
    app.selected = None;
    app.previous_header_tab();
    assert_eq!(app.selected, Some(0));
}

#[test]
fn scrolling_stops_at_top() {
    let mut app = App::new();
    app.scroll_parser_up();
    assert_eq!(app.scroll_parser_tab, 0);
    app.scroll_parser_down();
    app.scroll_parser_down();
    app.scroll_parser_up();
    assert_eq!(app.scroll_parser_tab, 1);
    app.scroll_vcd_down();
    assert_eq!(app.scroll_vcd_tab, 1);
    app.scroll_vcd_up();
    app.scroll_vcd_up();
    assert_eq!(app.scroll_vcd_tab, 0);
    assert_eq!(app.scroll_parser_tab, 1);
}

#[test]
fn keys_follow_the_current_tab() {
    let mut app = App::new();
    app.items_length = 2;
    // On the plot tab, up and down do nothing.
    assert!(!app.handle_key(Key::Down));
    assert_eq!((app.scroll_parser_tab, app.scroll_vcd_tab, app.selected), (0, 0, None));
    assert!(!app.handle_key(Key::Next));
    assert_eq!(app.index, 1);
    app.handle_key(Key::Down);
    app.handle_key(Key::Down);
    assert_eq!(app.scroll_parser_tab, 2);
    app.handle_key(Key::Next);
    app.handle_key(Key::Down);
    assert_eq!(app.selected, Some(0));
    app.handle_key(Key::Up);
    assert_eq!(app.selected, Some(1));
    app.handle_key(Key::Next);
    app.handle_key(Key::Up);
    assert_eq!(app.scroll_vcd_tab, 0);
    app.handle_key(Key::Down);
    assert_eq!(app.scroll_vcd_tab, 1);
    app.handle_key(Key::Next);
    assert_eq!(app.index, 0);
    app.handle_key(Key::Previous);
    assert_eq!(app.index, 3);
    assert!(!app.handle_key(Key::Other));
    assert!(app.handle_key(Key::Quit));
    assert_eq!(app.scroll_parser_tab, 2);
}

#[test]
fn scrolling_down_stops_at_last_line() {
    let mut app = App::new();
    app.handle_key(Key::Next);
    app.scroll_parser_tab = u16::MAX;
    app.handle_key(Key::Down);
    assert_eq!(app.scroll_parser_tab, u16::MAX);
}

#[test]
fn empty_header_table_selects_first_row() {
    let mut app = App::new();
    app.handle_key(Key::Next);
    app.handle_key(Key::Next);
    assert_eq!(app.index, 2);
    assert_eq!(app.items_length, 0);
    app.handle_key(Key::Down);
    assert_eq!(app.selected, Some(0));
    app.selected = None;
    app.handle_key(Key::Up);
    assert_eq!(app.selected, Some(0));
    let mut other = App::new();
    other.next_header_tab();
    assert_eq!(other.selected, Some(0));
}
