use jute::{App, CurrentScreen, CurrentlyEditing, KeyCode, KeyEvent, KeyEventKind, LoopControl};

fn press(code: KeyCode) -> KeyEvent {
    KeyEvent { code, kind: KeyEventKind::Press }
}

fn release(code: KeyCode) -> KeyEvent {
    KeyEvent { code, kind: KeyEventKind::Release }
}

fn chars(s: &str) -> Vec<char> {
    s.chars().collect()
}

fn type_text(app: &mut App, s: &str) {
    for c in s.chars() {
        assert_eq!(app.handle_key(press(KeyCode::Char(c))), LoopControl::Continue);
    }
}

fn pairs_of(app: &App) -> Vec<(String, String)> {
    let store = app.pairs();
    (0..store.len())
        .map(|i| (store.key_at(i).iter().collect(), store.value_at(i).iter().collect()))
        .collect()
}

#[test]
fn initial_state_is_main_and_empty() {
    let app = App::init();
    assert_eq!(app.current_screen(), CurrentScreen::Main);
    assert_eq!(app.currently_editing(), None);
    assert!(app.key_input().is_empty());
    assert!(app.value_input().is_empty());
    assert_eq!(app.pairs().len(), 0);
}

#[test]
fn enter_name_and_value_scenario() {
    let mut app = App::init();
    assert_eq!(app.handle_key(press(KeyCode::Char('e'))), LoopControl::Continue);
    assert_eq!(app.current_screen(), CurrentScreen::Editing);
    assert_eq!(app.currently_editing(), Some(CurrentlyEditing::Key));
    assert_eq!(app.pairs().len(), 0);
    type_text(&mut app, "name");
    assert_eq!(app.key_input(), &chars("name"));
    app.handle_key(press(KeyCode::Enter));
    assert_eq!(app.current_screen(), CurrentScreen::Editing);
    assert_eq!(app.currently_editing(), Some(CurrentlyEditing::Value));
    type_text(&mut app, "42");
    assert_eq!(app.value_input(), &chars("42"));
    app.handle_key(press(KeyCode::Enter));
    assert_eq!(app.current_screen(), CurrentScreen::Main);
    assert_eq!(app.currently_editing(), None);
    assert_eq!(pairs_of(&app), vec![("name".to_string(), "42".to_string())]);
    assert!(app.key_input().is_empty());
    assert!(app.value_input().is_empty());
}

#[test]
fn escape_keeps_key_buffer() {
    let mut app = App::init();
    app.handle_key(press(KeyCode::Char('e')));
    type_text(&mut app, "ab");
    app.handle_key(press(KeyCode::Esc));
    assert_eq!(app.current_screen(), CurrentScreen::Main);
    assert_eq!(app.currently_editing(), None);
    assert_eq!(app.key_input(), &chars("ab"));
    // Re-entering editing appends to what was kept.
    app.handle_key(press(KeyCode::Char('e')));
    type_text(&mut app, "c");
    assert_eq!(app.key_input(), &chars("abc"));
}

fn app_with_pair() -> App {
    let mut app = App::init();
    app.handle_key(press(KeyCode::Char('e')));
    type_text(&mut app, "k");
    app.handle_key(press(KeyCode::Enter));
    type_text(&mut app, "v");
    app.handle_key(press(KeyCode::Enter));
    app
}

#[test]
fn quit_then_no_exits_without_output() {
    let mut app = app_with_pair();
    let before = pairs_of(&app);
    assert_eq!(app.handle_key(press(KeyCode::Char('q'))), LoopControl::Continue);
    assert_eq!(app.current_screen(), CurrentScreen::Exiting);
    assert_eq!(app.handle_key(press(KeyCode::Char('n'))), LoopControl::ExitWithoutOutput);
    assert_eq!(pairs_of(&app), before);
}

#[test]
fn quit_then_q_exits_without_output() {
    let mut app = App::init();
    app.handle_key(press(KeyCode::Char('q')));
    assert_eq!(app.handle_key(press(KeyCode::Char('q'))), LoopControl::ExitWithoutOutput);
}

#[test]
fn quit_then_yes_exits_with_output() {
    let mut app = app_with_pair();
    assert_eq!(app.handle_key(press(KeyCode::Char('q'))), LoopControl::Continue);
    assert_eq!(app.handle_key(press(KeyCode::Char('y'))), LoopControl::ExitWithOutput);
    let out = app.to_json();
    assert_eq!(out, "{\"k\":\"v\"}");
    let parsed: serde_json::Value = serde_json::from_str(&out).unwrap();
    let obj = parsed.as_object().unwrap();
    assert_eq!(obj.len(), 1);
    assert_eq!(obj.get("k").and_then(|v| v.as_str()), Some("v"));
}

#[test]
fn exiting_ignores_other_keys() {
    let mut app = App::init();
    app.handle_key(press(KeyCode::Char('q')));
    assert_eq!(app.handle_key(press(KeyCode::Char('x'))), LoopControl::Continue);
    assert_eq!(app.handle_key(press(KeyCode::Enter)), LoopControl::Continue);
    assert_eq!(app.current_screen(), CurrentScreen::Exiting);
}

#[test]
fn main_ignores_other_keys() {
    let mut app = App::init();
    assert_eq!(app.handle_key(press(KeyCode::Char('x'))), LoopControl::Continue);
    assert_eq!(app.handle_key(press(KeyCode::Enter)), LoopControl::Continue);
    assert_eq!(app.handle_key(press(KeyCode::Char('y'))), LoopControl::Continue);
    assert_eq!(app.current_screen(), CurrentScreen::Main);
    assert_eq!(app.currently_editing(), None);
}

#[test]
fn release_events_change_nothing() {
    let codes = [
        KeyCode::Char('e'),
        KeyCode::Char('q'),
        KeyCode::Char('y'),
        KeyCode::Char('n'),
        KeyCode::Enter,
        KeyCode::Esc,
        KeyCode::Tab,
        KeyCode::Backspace,
    ];
    // Main screen.
    let mut app = app_with_pair();
    for code in codes {
        assert_eq!(app.handle_key(release(code)), LoopControl::Continue);
        assert_eq!(app.current_screen(), CurrentScreen::Main);
    }
    // Editing screen with buffers.
    app.handle_key(press(KeyCode::Char('e')));
    type_text(&mut app, "xy");
    for code in codes {
        assert_eq!(app.handle_key(release(code)), LoopControl::Continue);
        assert_eq!(app.current_screen(), CurrentScreen::Editing);
        assert_eq!(app.currently_editing(), Some(CurrentlyEditing::Key));
        assert_eq!(app.key_input(), &chars("xy"));
        assert_eq!(pairs_of(&app).len(), 1);
    }
    // Exiting screen.
    app.handle_key(press(KeyCode::Esc));
    app.handle_key(press(KeyCode::Char('q')));
    for code in codes {
        assert_eq!(app.handle_key(release(code)), LoopControl::Continue);
        assert_eq!(app.current_screen(), CurrentScreen::Exiting);
    }
}

#[test]
fn repeat_events_change_nothing() {
    let mut app = App::init();
    let ev = KeyEvent { code: KeyCode::Char('e'), kind: KeyEventKind::Repeat };
    assert_eq!(app.handle_key(ev), LoopControl::Continue);
    assert_eq!(app.current_screen(), CurrentScreen::Main);
}

#[test]
fn typing_fills_key_buffer_in_order() {
    let mut app = App::init();
    app.handle_key(press(KeyCode::Char('e')));
    type_text(&mut app, "héllo wörld!");
    assert_eq!(app.key_input(), &chars("héllo wörld!"));
    assert!(app.value_input().is_empty());
}

#[test]
fn backspace_removes_one_trailing_char() {
    let mut app = App::init();
    app.handle_key(press(KeyCode::Char('e')));
    type_text(&mut app, "abc");
    app.handle_key(press(KeyCode::Backspace));
    assert_eq!(app.key_input(), &chars("ab"));
    app.handle_key(press(KeyCode::Backspace));
    app.handle_key(press(KeyCode::Backspace));
    assert!(app.key_input().is_empty());
    app.handle_key(press(KeyCode::Backspace));
    assert!(app.key_input().is_empty());
    assert_eq!(app.current_screen(), CurrentScreen::Editing);
}

#[test]
fn backspace_on_value_buffer() {
    let mut app = App::init();
    app.handle_key(press(KeyCode::Char('e')));
    type_text(&mut app, "k");
    app.handle_key(press(KeyCode::Enter));
    type_text(&mut app, "12");
    app.handle_key(press(KeyCode::Backspace));
    assert_eq!(app.value_input(), &chars("1"));
    assert_eq!(app.key_input(), &chars("k"));
}

#[test]
fn tab_toggles_focus() {
    let mut app = App::init();
    app.handle_key(press(KeyCode::Char('e')));
    app.handle_key(press(KeyCode::Tab));
    assert_eq!(app.currently_editing(), Some(CurrentlyEditing::Value));
    type_text(&mut app, "v");
    app.handle_key(press(KeyCode::Tab));
    assert_eq!(app.currently_editing(), Some(CurrentlyEditing::Key));
    type_text(&mut app, "k");
    assert_eq!(app.key_input(), &chars("k"));
    assert_eq!(app.value_input(), &chars("v"));
}

#[test]
fn other_keys_while_editing_do_nothing() {
    let mut app = App::init();
    app.handle_key(press(KeyCode::Char('e')));
    type_text(&mut app, "a");
    assert_eq!(app.handle_key(press(KeyCode::Other)), LoopControl::Continue);
    assert_eq!(app.key_input(), &chars("a"));
    assert_eq!(app.current_screen(), CurrentScreen::Editing);
}

#[test]
fn commit_same_key_overwrites() {
    let mut app = App::init();
    for v in ["1", "2"] {
        app.handle_key(press(KeyCode::Char('e')));
        type_text(&mut app, "a");
        app.handle_key(press(KeyCode::Enter));
        type_text(&mut app, v);
        app.handle_key(press(KeyCode::Enter));
    }
    assert_eq!(pairs_of(&app), vec![("a".to_string(), "2".to_string())]);
}

#[test]
fn overwrite_keeps_insertion_order() {
    let mut app = App::init();
    for (k, v) in [("a", "1"), ("b", "2"), ("a", "3")] {
        app.handle_key(press(KeyCode::Char('e')));
        type_text(&mut app, k);
        app.handle_key(press(KeyCode::Enter));
        type_text(&mut app, v);
        app.handle_key(press(KeyCode::Enter));
    }
    assert_eq!(
        pairs_of(&app),
        vec![("a".to_string(), "3".to_string()), ("b".to_string(), "2".to_string())]
    );
    assert_eq!(app.to_json(), "{\"a\":\"3\",\"b\":\"2\"}");
}

#[test]
fn empty_key_is_accepted() {
    let mut app = App::init();
    app.handle_key(press(KeyCode::Char('e')));
    app.handle_key(press(KeyCode::Enter));
    type_text(&mut app, "x");
    app.handle_key(press(KeyCode::Enter));
    assert_eq!(pairs_of(&app), vec![(String::new(), "x".to_string())]);
    assert_eq!(app.to_json(), "{\"\":\"x\"}");
}

#[test]
fn direct_operations_match_events() {
    let mut app = App::init();
    app.begin_edit();
    app.append_char('k');
    app.toggle_editing();
    app.append_char('v');
    app.append_char('w');
    app.backspace();
    app.save_key_value();
    assert_eq!(pairs_of(&app), vec![("k".to_string(), "v".to_string())]);
    app.begin_edit();
    app.append_char('z');
    app.cancel_edit();
    assert_eq!(app.current_screen(), CurrentScreen::Main);
    assert_eq!(app.key_input(), &chars("z"));
}

#[test]
fn run_events_stops_at_exit() {
    let mut app = App::init();
    let mut events = vec![press(KeyCode::Char('e'))];
    events.extend("id".chars().map(|c| press(KeyCode::Char(c))));
    events.push(press(KeyCode::Enter));
    events.extend("7".chars().map(|c| press(KeyCode::Char(c))));
    events.push(press(KeyCode::Enter));
    events.push(press(KeyCode::Char('q')));
    events.push(press(KeyCode::Char('y')));
    events.push(press(KeyCode::Char('e')));
    assert_eq!(app.run_events(&events), LoopControl::ExitWithOutput);
    assert_eq!(app.current_screen(), CurrentScreen::Exiting);
    assert_eq!(app.to_json(), "{\"id\":\"7\"}");
}

#[test]
fn run_events_continues_when_events_run_out() {
    let mut app = App::init();
    let events = vec![press(KeyCode::Char('e')), press(KeyCode::Char('a'))];
    assert_eq!(app.run_events(&events), LoopControl::Continue);
    assert_eq!(app.key_input(), &chars("a"));
}
