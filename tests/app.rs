use dbedit::app::{App, KeyCode, KeyEvent, KeyEventKind, Mode};

fn press(code: KeyCode) -> KeyEvent {
    KeyEvent { code, kind: KeyEventKind::Press }
}

fn release(code: KeyCode) -> KeyEvent {
    KeyEvent { code, kind: KeyEventKind::Release }
}

#[test]
fn starts_empty_in_normal_mode() {
    let app = App::new();
    assert_eq!(app.mode(), Mode::Normal);
    assert!(!app.exit_requested());
    assert_eq!(app.editor().content(), "");
    assert_eq!(Mode::default(), Mode::Normal);
}

#[test]
fn mode_labels() {
    assert_eq!(Mode::Normal.label(), "NORMAL");
    assert_eq!(Mode::Insert.label(), "INSERT");
}

#[test]
fn basic_typing() {
    let mut app = App::new();
    app.handle_event(press(KeyCode::Char('i')));
    assert_eq!(app.mode(), Mode::Insert);
    app.handle_event(press(KeyCode::Char('h')));
    app.handle_event(press(KeyCode::Char('i')));
    assert_eq!(app.editor().content(), "hi");
    assert_eq!(app.editor().cursor(), 2);
    app.handle_event(press(KeyCode::Backspace));
    assert_eq!(app.editor().content(), "h");
    assert_eq!(app.editor().cursor(), 1);
    app.handle_event(press(KeyCode::Esc));
    assert_eq!(app.mode(), Mode::Normal);
}

#[test]
fn q_in_normal_mode_exits() {
    let mut app = App::new();
    app.handle_event(press(KeyCode::Char('q')));
    assert!(app.exit_requested());
    assert_eq!(app.mode(), Mode::Normal);
}

#[test]
fn run_stops_after_exit() {
    let mut app = App::new();
    let events = vec![
        press(KeyCode::Char('q')),
        press(KeyCode::Char('i')),
        press(KeyCode::Char('x')),
    ];
    app.run(&events);
    assert!(app.exit_requested());
    assert_eq!(app.mode(), Mode::Normal);
    assert_eq!(app.editor().content(), "");
}

#[test]
fn run_handles_events_in_order() {
    let mut app = App::new();
    let events = vec![
        press(KeyCode::Char('i')),
        press(KeyCode::Char('o')),
        press(KeyCode::Char('k')),
        press(KeyCode::Esc),
        press(KeyCode::Char('q')),
        press(KeyCode::Char('i')),
    ];
    app.run(&events);
    assert!(app.exit_requested());
    assert_eq!(app.mode(), Mode::Normal);
    assert_eq!(app.editor().content(), "ok");
}

#[test]
fn normal_mode_ignores_text_keys() {
    let mut app = App::new();
    app.handle_event(press(KeyCode::Char('x')));
    app.handle_event(press(KeyCode::Backspace));
    app.handle_event(press(KeyCode::Other));
    assert_eq!(app.editor().content(), "");
    assert_eq!(app.mode(), Mode::Normal);
    assert!(!app.exit_requested());
}

#[test]
fn insert_mode_ignores_non_press() {
    let mut app = App::new();
    app.handle_event(press(KeyCode::Char('i')));
    app.handle_event(press(KeyCode::Char('a')));
    app.handle_event(release(KeyCode::Char('b')));
    app.handle_event(KeyEvent { code: KeyCode::Backspace, kind: KeyEventKind::Repeat });
    app.handle_event(release(KeyCode::Esc));
    assert_eq!(app.editor().content(), "a");
    assert_eq!(app.mode(), Mode::Insert);
}

#[test]
fn q_in_insert_mode_is_text() {
    let mut app = App::new();
    app.handle_event(press(KeyCode::Char('i')));
    app.handle_event(press(KeyCode::Char('q')));
    assert!(!app.exit_requested());
    assert_eq!(app.editor().content(), "q");
}

#[test]
fn multibyte_typing_then_backspace() {
    let mut app = App::new();
    app.handle_event(press(KeyCode::Char('i')));
    app.handle_event(press(KeyCode::Char('ö')));
    app.handle_event(press(KeyCode::Char('k')));
    app.handle_event(press(KeyCode::Backspace));
    assert_eq!(app.editor().content(), "ö");
    assert_eq!(app.editor().content().as_bytes(), &[0xC3, 0xB6]);
}
