use pepperhash::export::{parse_ledger, to_json_pretty};
use pepperhash::session::{Action, App, InputMode, Key};

#[test]
fn full_session_scenario() {
    let mut app = App::new();
    assert_eq!(app.handle_key(Key::Char('e'), true), Action::Continue);
    assert_eq!(app.input_mode, InputMode::Editing);
    for c in "abc".chars() {
        assert_eq!(app.handle_key(Key::Char(c), true), Action::Continue);
    }
    assert_eq!(app.input, "abc");
    assert_eq!(app.handle_key(Key::Enter, true), Action::Continue);
    assert_eq!(app.hash.len(), 1);
    assert_eq!(app.secrets.len(), 1);
    assert_eq!(app.input, "");
    assert_eq!(app.character_index, 0);
    let digest1 = app.hash[0].clone();
    for c in "abc".chars() {
        app.handle_key(Key::Char(c), true);
    }
    assert_eq!(app.handle_key(Key::Enter, true), Action::Continue);
    assert_eq!(app.hash.len(), 2);
    assert_ne!(digest1, app.hash[1]);
    assert_eq!(app.handle_key(Key::Esc, true), Action::Continue);
    assert_eq!(app.input_mode, InputMode::Normal);
    // The save key only signals; the caller writes the document out.
    assert_eq!(app.handle_key(Key::Char('s'), true), Action::Save);
    let document = to_json_pretty(&app.secrets);
    let reloaded = parse_ledger(document.as_str()).unwrap();
    assert_eq!(reloaded, app.secrets);
    assert_eq!(reloaded.len(), 2);
    app.handle_save(None);
    assert!(app.show_saved_popup);
    assert_eq!(app.saved_popup_result, "Success");
    assert_eq!(
        app.saved_popup_info,
        "Data successfully saved to \"secrets.json\". Press x to close."
    );
    let hashes = app.hash.clone();
    let secrets = app.secrets.clone();
    assert_eq!(app.handle_key(Key::Char('x'), true), Action::Continue);
    assert!(!app.show_saved_popup);
    assert_eq!(app.hash, hashes);
    assert_eq!(app.secrets, secrets);
}

#[test]
fn navigation_character_keys_have_no_effect() {
    let mut app = App::new();
    for c in "zyw0".chars() {
        assert_eq!(app.handle_key(Key::Char(c), true), Action::Continue);
        assert_eq!(app.input, "");
        assert_eq!(app.input_mode, InputMode::Normal);
        assert_eq!(app.hash.len(), 0);
        assert_eq!(app.secrets.len(), 0);
    }
}

#[test]
fn quit_key_signals_quit_only_in_navigation() {
    let mut app = App::new();
    assert_eq!(app.handle_key(Key::Char('q'), true), Action::Quit);
    app.handle_key(Key::Char('e'), true);
    assert_eq!(app.handle_key(Key::Char('q'), true), Action::Continue);
    assert_eq!(app.input, "q");
}

#[test]
fn editing_ignores_released_keys() {
    let mut app = App::new();
    app.handle_key(Key::Char('e'), true);
    assert_eq!(app.handle_key(Key::Char('a'), false), Action::Continue);
    assert_eq!(app.input, "");
    assert_eq!(app.handle_key(Key::Enter, false), Action::Continue);
    assert_eq!(app.hash.len(), 0);
}

#[test]
fn editing_arrows_and_backspace_dispatch() {
    let mut app = App::new();
    app.handle_key(Key::Char('e'), true);
    for c in "ab".chars() {
        app.handle_key(Key::Char(c), true);
    }
    app.handle_key(Key::Left, true);
    assert_eq!(app.character_index, 1);
    app.handle_key(Key::Backspace, true);
    assert_eq!(app.input, "b");
    assert_eq!(app.character_index, 0);
    app.handle_key(Key::Right, true);
    assert_eq!(app.character_index, 1);
    assert_eq!(app.handle_key(Key::Other, true), Action::Continue);
    assert_eq!(app.input, "b");
}

#[test]
fn save_failure_is_reported_in_popup() {
    let mut app = App::new();
    app.handle_save(Some(String::from("disk full")));
    assert!(app.show_saved_popup);
    assert_eq!(app.saved_popup_result, "Failure");
    assert_eq!(app.saved_popup_info, "Error saving file: disk full. Press x to close");
}
