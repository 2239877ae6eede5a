use nipa_results::nav::{Key, Navigation};
use nipa_results::screen::{
    find_selected_run, log_file_text, log_part_text, log_path, make_row, render, render_list,
    render_rows, render_selected_item, Look, Shade,
};
use nipa_results::store::ResultStore;
use nipa_results::test::Test;
use nipa_results::tui::App;

fn leaf(patch: u8, test: &str, result: i64) -> Test {
    Test { patch, result, test: test.to_string() }
}

fn store() -> ResultStore {
    ResultStore::build(&vec![
        leaf(1, "alpha", 0),
        leaf(2, "alpha", 1),
        leaf(1, "beta", 0),
        leaf(10, "gamma", 3),
        leaf(2, "gamma", 4),
    ])
}

fn state(test: Option<usize>, patch: Option<usize>, scroll: u16) -> Navigation {
    Navigation { selected_test_index: test, selected_patch_index: patch, scroll_offset: scroll }
}

fn on(bg: Shade) -> Look {
    Look { fg: Some(Shade::Black), bg: Some(bg), bold: false }
}

#[test]
fn scenario_partial_test_has_the_partial_color() {
    let s = ResultStore::build(&vec![leaf(1, "alpha", 0), leaf(2, "alpha", 1)]);
    let rows = render_rows(&s);
    assert_eq!(rows.len(), 1);
    assert_eq!(rows[0].label, "alpha  1/2");
    assert_eq!(rows[0].look, on(Shade::LightYellow));
}

#[test]
fn rows_are_colored_by_how_many_patches_passed() {
    assert_eq!(make_row("t", 0, 3).look, on(Shade::LightRed));
    assert_eq!(make_row("t", 3, 3).look, on(Shade::LightGreen));
    assert_eq!(make_row("t", 1, 3).look, on(Shade::LightYellow));
    assert_eq!(make_row("t", 2, 3).look, on(Shade::LightYellow));
    assert_eq!(make_row("t", 0, 0).look, on(Shade::LightRed));
    assert_eq!(make_row("name", 12, 100).label, "name  12/100");
}

#[test]
fn list_has_one_row_for_each_test_in_sorted_order() {
    let rows = render_rows(&store());
    let labels: Vec<&str> = rows.iter().map(|r| r.label.as_str()).collect();
    assert_eq!(labels, vec!["alpha  1/2", "beta  1/1", "gamma  0/2"]);
    assert_eq!(rows[0].look, on(Shade::LightYellow));
    assert_eq!(rows[1].look, on(Shade::LightGreen));
    assert_eq!(rows[2].look, on(Shade::LightRed));
}

#[test]
fn highlight_is_written_in_the_background_of_the_selected_row() {
    let s = store();
    let none = render_list(&s, &state(None, None, 0), "root");
    assert_eq!(none.title, "root");
    assert_eq!(none.selected, None);
    assert_eq!(none.highlight, Look { fg: Some(Shade::Green), bg: Some(Shade::White), bold: true });
    let expected = [Shade::LightYellow, Shade::LightGreen, Shade::LightRed];
    for (i, shade) in expected.iter().enumerate() {
        let pane = render_list(&s, &state(Some(i), Some(0), 0), "root");
        assert_eq!(pane.selected, Some(i));
        assert_eq!(pane.highlight, Look { fg: Some(*shade), bg: Some(Shade::White), bold: true });
    }
    let outside = render_list(&s, &state(Some(3), Some(0), 0), "root");
    assert_eq!(outside.selected, None);
    assert_eq!(outside.highlight.fg, Some(Shade::Green));
}

#[test]
fn log_paths_are_built_from_patch_and_test() {
    assert_eq!(log_part_text(2, "alpha"), "2/alpha/summary");
    assert_eq!(log_file_text("/tmp/results", 2, "alpha"), "/tmp/results/2/alpha/summary");
    assert_eq!(log_file_text("", 0, ""), "/0//summary");
}

#[test]
fn selected_run_is_found_by_sorted_positions() {
    let s = store();
    assert_eq!(find_selected_run(&s, &state(None, None, 0)), None);
    assert_eq!(find_selected_run(&s, &state(Some(0), None, 0)), None);
    assert_eq!(find_selected_run(&s, &state(Some(0), Some(1), 0)), Some(("alpha".to_string(), 2)));
    assert_eq!(find_selected_run(&s, &state(Some(2), Some(0), 0)), Some(("gamma".to_string(), 10)));
    assert_eq!(find_selected_run(&s, &state(Some(2), Some(1), 0)), Some(("gamma".to_string(), 2)));
    assert_eq!(find_selected_run(&s, &state(Some(2), Some(2), 0)), None);
    assert_eq!(find_selected_run(&s, &state(Some(3), Some(0), 0)), None);
    assert_eq!(
        log_path(&s, &state(Some(2), Some(0), 0), "root"),
        Some("root/10/gamma/summary".to_string())
    );
    assert_eq!(log_path(&s, &state(None, None, 0), "root"), None);
}

#[test]
fn detail_is_empty_without_a_selected_run() {
    let s = store();
    assert_eq!(render_selected_item(&s, &state(None, None, 0), "root", Some("log")), None);
    assert_eq!(render_selected_item(&s, &state(Some(0), None, 0), "root", Some("log")), None);
    assert_eq!(render_selected_item(&s, &state(Some(9), Some(0), 0), "root", None), None);
}

#[test]
fn detail_shows_tabs_header_and_log() {
    let s = store();
    let d =
        render_selected_item(&s, &state(Some(0), Some(1), 4), "root", Some("a\nb\nc\n")).unwrap();
    assert_eq!(d.tabs, vec!["1".to_string(), "2".to_string()]);
    assert_eq!(d.selected_tab, 1);
    assert_eq!(d.tab_highlight, Look { fg: Some(Shade::Red), bg: None, bold: false });
    assert_eq!(d.header, "2/alpha/summary");
    assert_eq!(d.text, "a\nb\nc\n");
    assert_eq!(d.first_line, 1);
    let d = render_selected_item(&s, &state(Some(0), Some(0), 0), "root", Some("")).unwrap();
    assert_eq!(d.tab_highlight, Look { fg: Some(Shade::Green), bg: None, bold: false });
    assert_eq!(d.first_line, 0);
    assert_eq!(d.text, "");
    let d = render_selected_item(&s, &state(Some(2), Some(0), 0), "root", Some("x")).unwrap();
    assert_eq!(d.tabs, vec!["10".to_string(), "2".to_string()]);
    assert_eq!(d.header, "10/gamma/summary");
}

#[test]
fn unreadable_log_shows_a_placeholder_with_its_path() {
    let s = store();
    let d = render_selected_item(&s, &state(Some(1), Some(0), 7), "/r", None).unwrap();
    assert_eq!(d.text, "Cannot read /r/1/beta/summary");
    assert_eq!(d.first_line, 0);
    assert_eq!(d.header, "1/beta/summary");
}

#[test]
fn frame_holds_list_detail_and_footer() {
    let s = store();
    let frame = render(&s, &state(Some(1), Some(0), 0), "root", Some("one\ntwo"));
    assert_eq!(frame.footer, "Use: arrows, ENTER/BACKSPC, q");
    assert_eq!(frame.list, render_list(&s, &state(Some(1), Some(0), 0), "root"));
    assert_eq!(
        frame.detail,
        render_selected_item(&s, &state(Some(1), Some(0), 0), "root", Some("one\ntwo"))
    );
    let empty = render(&s, &state(None, None, 0), "root", None);
    assert_eq!(empty.detail, None);
    assert_eq!(empty.list.rows.len(), 3);
}

#[test]
fn session_renders_what_its_keys_selected() {
    let mut records = vec![leaf(1, "alpha", 0), leaf(2, "alpha", 1), leaf(1, "beta", 0)];
    let mut app = App::from_results(&mut records, &"root".to_string());
    assert_eq!(app.log_file(), None);
    assert_eq!(app.render(None).detail, None);
    app.handle_key(Key::Down);
    app.handle_key(Key::Right);
    assert_eq!(app.log_file(), Some("root/2/alpha/summary".to_string()));
    let frame = app.render(Some("l1\nl2\nl3"));
    assert_eq!(frame.list.selected, Some(0));
    let d = frame.detail.unwrap();
    assert_eq!(d.selected_tab, 1);
    assert_eq!(d.header, "2/alpha/summary");
    assert_eq!(d.first_line, 0);
    app.handle_key(Key::Enter);
    app.handle_key(Key::Enter);
    app.handle_key(Key::Enter);
    app.handle_key(Key::Enter);
    assert_eq!(app.render(Some("l1\nl2\nl3")).detail.unwrap().first_line, 1);
}

#[test]
fn scrolled_start_line_always_lies_in_the_log() {
    let s = store();
    let log = "1\n2\n3\n4\n5";
    for offset in 0..40u16 {
        let nav = state(Some(0), Some(0), offset);
        let d = render_selected_item(&s, &nav, "root", Some(log)).unwrap();
        assert!(d.first_line < 5);
        assert_eq!(d.first_line, offset % 5);
    }
}
