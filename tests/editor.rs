use dbedit::editor::Editor;

fn typed(s: &str) -> Editor {
    let mut e = Editor::new();
    for c in s.chars() {
        e.compute(c);
    }
    e
}

#[test]
fn insert_into_empty_places_at_start() {
    let mut e = Editor::new();
    e.compute('x');
    assert_eq!(e.content(), "x");
    assert_eq!(e.cursor(), 1);
}

#[test]
fn insert_in_middle_after_multibyte() {
    let mut e = typed("aéb");
    e.mv_cursor_left();
    e.compute('€');
    assert_eq!(e.content(), "aé€b");
    assert_eq!(e.cursor(), 3);
}

#[test]
fn move_right_at_end_is_clamped() {
    let mut e = typed("ab");
    e.mv_cursor_right();
    assert_eq!(e.cursor(), 2);
    assert_eq!(e.content(), "ab");
}

#[test]
fn move_left_at_start_is_clamped() {
    let mut e = typed("ab");
    e.mv_cursor_left();
    e.mv_cursor_left();
    e.mv_cursor_left();
    assert_eq!(e.cursor(), 0);
    e.mv_cursor_right();
    assert_eq!(e.cursor(), 1);
}

#[test]
fn cursor_stays_in_bounds_over_moves() {
    let mut e = typed("añb");
    let moves = [true, true, false, true, true, true, false, false, false, false, false, true];
    for right in moves {
        if right {
            e.mv_cursor_right();
        } else {
            e.mv_cursor_left();
        }
        assert!(e.cursor() <= 3);
    }
    assert_eq!(e.cursor(), 1);
    assert_eq!(e.content(), "añb");
}

#[test]
fn delete_removes_char_left_of_cursor() {
    let mut e = typed("abc");
    e.mv_cursor_left();
    e.delete();
    assert_eq!(e.content(), "ac");
    assert_eq!(e.cursor(), 1);
}

#[test]
fn delete_at_start_is_noop() {
    let mut e = typed("abc");
    e.mv_cursor_left();
    e.mv_cursor_left();
    e.mv_cursor_left();
    e.delete();
    assert_eq!(e.content(), "abc");
    assert_eq!(e.cursor(), 0);
}

#[test]
fn delete_on_empty_is_noop() {
    let mut e = Editor::new();
    e.delete();
    assert_eq!(e.content(), "");
    assert_eq!(e.cursor(), 0);
}

#[test]
fn insert_then_delete_restores() {
    let mut e = typed("xyzé");
    e.mv_cursor_left();
    e.mv_cursor_left();
    e.compute('ü');
    assert_eq!(e.content(), "xyüzé");
    e.delete();
    assert_eq!(e.content(), "xyzé");
    assert_eq!(e.cursor(), 2);
}

#[test]
fn multibyte_then_ascii_delete_once() {
    let mut e = Editor::new();
    e.compute('ß');
    e.compute('a');
    e.delete();
    assert_eq!(e.content(), "ß");
    assert_eq!(e.content().len(), 2);
    assert_eq!(e.cursor(), 1);
}

#[test]
fn delete_multibyte_char() {
    let mut e = typed("a😀b");
    e.mv_cursor_left();
    e.delete();
    assert_eq!(e.content(), "ab");
    assert_eq!(e.cursor(), 1);
}
