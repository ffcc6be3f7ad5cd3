use pepperhash::session::{App, InputMode};

fn type_str(app: &mut App, s: &str) {
    for c in s.chars() {
        app.enter_char(c);
    }
}

#[test]
fn new_session_is_empty_navigation() {
    let app = App::new();
    assert_eq!(app.input, "");
    assert_eq!(app.character_index, 0);
    assert_eq!(app.input_mode, InputMode::Normal);
    assert_eq!(app.hash.len(), 0);
    assert_eq!(app.secrets.len(), 0);
    assert!(!app.show_saved_popup);
}

#[test]
fn insert_advances_cursor() {
    let mut app = App::new();
    type_str(&mut app, "abc");
    assert_eq!(app.input, "abc");
    assert_eq!(app.character_index, 3);
}

#[test]
fn insert_in_middle_of_multibyte_text() {
    let mut app = App::new();
    type_str(&mut app, "h\u{e9}llo");
    app.move_cursor_left();
    app.move_cursor_left();
    app.move_cursor_left();
    app.enter_char('\u{3042}');
    assert_eq!(app.input, "h\u{e9}\u{3042}llo");
    assert_eq!(app.character_index, 3);
}

#[test]
fn delete_restores_after_insert() {
    let mut app = App::new();
    type_str(&mut app, "a\u{e9}b");
    app.move_cursor_left();
    let before = app.input.clone();
    let cursor_before = app.character_index;
    app.enter_char('\u{3042}');
    app.delete_char();
    assert_eq!(app.input, before);
    assert_eq!(app.character_index, cursor_before);
}

#[test]
fn delete_at_start_is_noop() {
    let mut app = App::new();
    type_str(&mut app, "ab");
    app.reset_cursor();
    app.delete_char();
    assert_eq!(app.input, "ab");
    assert_eq!(app.character_index, 0);
}

#[test]
fn delete_removes_character_before_cursor() {
    let mut app = App::new();
    type_str(&mut app, "a\u{e9}b");
    app.move_cursor_left();
    app.delete_char();
    assert_eq!(app.input, "ab");
    assert_eq!(app.character_index, 1);
}

#[test]
fn cursor_clamps_at_both_ends() {
    let mut app = App::new();
    app.move_cursor_left();
    assert_eq!(app.character_index, 0);
    type_str(&mut app, "xy");
    app.move_cursor_right();
    app.move_cursor_right();
    assert_eq!(app.character_index, 2);
    assert_eq!(app.clamp_cursor(99), 2);
    assert_eq!(app.clamp_cursor(1), 1);
}

#[test]
fn cursor_stays_in_range_over_random_edits() {
    let mut app = App::new();
    let ops = "i<i>di<<dii>d<i";
    let mut n = 0u32;
    for op in ops.chars() {
        match op {
            'i' => {
                let c = if n % 3 == 0 { '\u{e9}' } else if n % 3 == 1 { 'z' } else { '\u{3042}' };
                app.enter_char(c);
                n += 1;
            }
            'd' => app.delete_char(),
            '<' => app.move_cursor_left(),
            _ => app.move_cursor_right(),
        }
        let count = app.input.chars().count();
        assert!(app.character_index <= count);
        assert!(app.input.is_char_boundary(app.byte_index()));
    }
}

#[test]
fn byte_index_counts_utf8_bytes_before_cursor() {
    let mut app = App::new();
    type_str(&mut app, "a\u{e9}\u{3042}b");
    assert_eq!(app.byte_index(), 7);
    app.move_cursor_left();
    assert_eq!(app.byte_index(), 6);
    app.move_cursor_left();
    assert_eq!(app.byte_index(), 3);
    app.move_cursor_left();
    assert_eq!(app.byte_index(), 1);
    app.move_cursor_left();
    assert_eq!(app.byte_index(), 0);
}
