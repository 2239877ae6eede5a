use nipa_results::nav::{Key, Navigation};
use nipa_results::test::Test;
use nipa_results::tui::App;

fn leaf(patch: u8, test: &str, result: i64) -> Test {
    Test { patch, result, test: test.to_string() }
}

fn session() -> App {
    let mut records = vec![
        leaf(1, "alpha", 0),
        leaf(2, "alpha", 1),
        leaf(3, "alpha", 0),
        leaf(1, "beta", 0),
        leaf(1, "gamma", 1),
        leaf(2, "gamma", 1),
    ];
    App::from_results(&mut records, &"root".to_string())
}

fn state(test: Option<usize>, patch: Option<usize>, scroll: u16) -> Navigation {
    Navigation { selected_test_index: test, selected_patch_index: patch, scroll_offset: scroll }
}

#[test]
fn session_starts_with_nothing_selected() {
    let app = session();
    assert_eq!(app.navigation(), state(None, None, 0));
    assert!(!app.should_exit());
    assert_eq!(app.path(), "root");
    assert_eq!(app.results().test_count(), 3);
    assert_eq!(Navigation::new(), state(None, None, 0));
}

#[test]
fn from_results_leaves_the_records_as_they_were() {
    let mut records = vec![leaf(2, "b", 1), leaf(1, "a", 0)];
    let _ = App::from_results(&mut records, &"root".to_string());
    assert_eq!(records.len(), 2);
    assert_eq!(records[0].test, "b");
    assert_eq!(records[1].test, "a");
}

#[test]
fn quit_keys_end_the_session_and_change_nothing_else() {
    for key in [Key::Char('q'), Key::Esc] {
        let mut app = session();
        app.handle_key(Key::Down);
        app.handle_key(Key::Enter);
        let before = app.navigation();
        app.handle_key(key);
        assert!(app.should_exit());
        assert_eq!(app.navigation(), before);
    }
}

#[test]
fn other_keys_do_nothing() {
    let mut app = session();
    app.handle_key(Key::Down);
    app.handle_key(Key::Enter);
    let before = app.navigation();
    for key in [Key::Other, Key::Char('x'), Key::Char('Q')] {
        app.handle_key(key);
        assert_eq!(app.navigation(), before);
        assert!(!app.should_exit());
    }
}

#[test]
fn any_arrow_selects_the_first_test_and_patch_at_start() {
    for key in [Key::Up, Key::Down, Key::Left, Key::Right] {
        let mut app = session();
        app.handle_key(key);
        assert_eq!(app.navigation(), state(Some(0), Some(0), 0));
    }
}

#[test]
fn move_up_stops_at_the_first_test() {
    let mut app = session();
    app.handle_key(Key::Down);
    assert_eq!(app.navigation().selected_test_index, Some(0));
    app.handle_key(Key::Up);
    assert_eq!(app.navigation().selected_test_index, Some(0));
}

#[test]
fn move_down_stops_at_the_last_test() {
    let mut app = session();
    for _ in 0..3 {
        app.handle_key(Key::Down);
    }
    assert_eq!(app.navigation().selected_test_index, Some(2));
    app.handle_key(Key::Down);
    assert_eq!(app.navigation().selected_test_index, Some(2));
    app.handle_key(Key::Up);
    assert_eq!(app.navigation().selected_test_index, Some(1));
}

#[test]
fn scenario_move_right_stops_at_the_last_patch() {
    let mut app = session();
    app.handle_key(Key::Down);
    app.handle_key(Key::Right);
    app.handle_key(Key::Right);
    assert_eq!(app.navigation().selected_patch_index, Some(2));
    app.handle_key(Key::Right);
    assert_eq!(app.navigation().selected_patch_index, Some(2));
    assert_eq!(app.navigation().selected_test_index, Some(0));
}

#[test]
fn move_right_is_bounded_by_the_patches_of_the_selected_test() {
    let mut app = session();
    app.handle_key(Key::Down);
    app.handle_key(Key::Down);
    assert_eq!(app.navigation().selected_test_index, Some(1));
    app.handle_key(Key::Right);
    assert_eq!(app.navigation().selected_patch_index, Some(0));
    app.handle_key(Key::Down);
    app.handle_key(Key::Right);
    assert_eq!(app.navigation().selected_patch_index, Some(1));
    app.handle_key(Key::Right);
    assert_eq!(app.navigation().selected_patch_index, Some(1));
}

#[test]
fn move_left_stops_at_the_first_patch() {
    let mut app = session();
    app.handle_key(Key::Down);
    app.handle_key(Key::Right);
    app.handle_key(Key::Left);
    assert_eq!(app.navigation().selected_patch_index, Some(0));
    app.handle_key(Key::Left);
    assert_eq!(app.navigation().selected_patch_index, Some(0));
}

#[test]
fn selecting_another_test_resets_patch_and_scroll() {
    let mut app = session();
    app.handle_key(Key::Down);
    app.handle_key(Key::Right);
    app.handle_key(Key::Enter);
    app.handle_key(Key::Enter);
    assert_eq!(app.navigation(), state(Some(0), Some(1), 2));
    app.handle_key(Key::Down);
    assert_eq!(app.navigation(), state(Some(1), Some(0), 0));
    app.handle_key(Key::Enter);
    app.handle_key(Key::Up);
    assert_eq!(app.navigation(), state(Some(0), Some(0), 0));
}

#[test]
fn left_and_right_reset_the_scroll_offset() {
    let mut app = session();
    app.handle_key(Key::Down);
    app.handle_key(Key::Enter);
    app.handle_key(Key::Right);
    assert_eq!(app.navigation(), state(Some(0), Some(1), 0));
    app.handle_key(Key::Enter);
    app.handle_key(Key::Left);
    assert_eq!(app.navigation(), state(Some(0), Some(0), 0));
}

#[test]
fn scroll_backward_stops_at_zero() {
    let mut app = session();
    app.handle_key(Key::Backspace);
    assert_eq!(app.navigation().scroll_offset, 0);
    app.handle_key(Key::Enter);
    app.handle_key(Key::Enter);
    assert_eq!(app.navigation().scroll_offset, 2);
    app.handle_key(Key::Backspace);
    assert_eq!(app.navigation().scroll_offset, 1);
    app.handle_key(Key::Backspace);
    app.handle_key(Key::Backspace);
    assert_eq!(app.navigation().scroll_offset, 0);
}

#[test]
fn scrolling_wraps_round_the_log() {
    let mut nav = Navigation::new();
    let lines = 3;
    let mut seen = Vec::new();
    for _ in 0..7 {
        seen.push(nav.first_line(lines));
        nav = nav.step(Key::Enter, 0, 0);
    }
    assert_eq!(seen, vec![0, 1, 2, 0, 1, 2, 0]);
    for offset in [0u16, 1, 2, 3, 100, 65535] {
        let nav = state(None, None, offset);
        assert!((nav.first_line(lines) as usize) < lines);
        assert_eq!(nav.first_line(lines) as usize, offset as usize % lines);
    }
}

#[test]
fn first_line_of_an_empty_log_is_zero() {
    assert_eq!(state(None, None, 5).first_line(0), 0);
    assert_eq!(state(None, None, 5).first_line(1), 0);
    assert_eq!(state(None, None, 65535).first_line(100000), 65535);
}

#[test]
fn empty_store_never_selects_anything() {
    let mut records: Vec<Test> = Vec::new();
    let mut app = App::from_results(&mut records, &"root".to_string());
    for key in [Key::Up, Key::Down, Key::Left, Key::Right, Key::Enter, Key::Down, Key::Backspace] {
        app.handle_key(key);
        assert_eq!(app.navigation().selected_test_index, None);
        assert_eq!(app.navigation().selected_patch_index, None);
    }
    assert_eq!(app.log_file(), None);
}

#[test]
fn step_follows_the_table_of_keys() {
    let nav = state(Some(1), Some(1), 4);
    assert_eq!(nav.step(Key::Up, 3, 2), state(Some(0), Some(0), 0));
    assert_eq!(nav.step(Key::Down, 3, 2), state(Some(2), Some(0), 0));
    assert_eq!(nav.step(Key::Left, 3, 2), state(Some(1), Some(0), 0));
    assert_eq!(nav.step(Key::Right, 3, 2), state(Some(1), Some(1), 0));
    assert_eq!(nav.step(Key::Right, 3, 3), state(Some(1), Some(2), 0));
    assert_eq!(nav.step(Key::Enter, 3, 2), state(Some(1), Some(1), 5));
    assert_eq!(nav.step(Key::Backspace, 3, 2), state(Some(1), Some(1), 3));
    assert_eq!(nav.step(Key::Other, 3, 2), nav);
    assert_eq!(nav.step(Key::Esc, 3, 2), nav);
    let unset = state(Some(1), None, 4);
    assert_eq!(unset.step(Key::Left, 3, 2), state(Some(1), Some(0), 0));
    assert_eq!(unset.step(Key::Right, 3, 2), state(Some(1), Some(0), 0));
}
