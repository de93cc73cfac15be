use passtui::keys::{KeyCode, KeyEvent};
use passtui::text_input::TextInput;

#[test]
fn unicode_cursor_delete_and_undo_redo() {
    let mut input = TextInput::new();
    let mut text = "a🔑é".to_string();
    for code in [KeyCode::Left, KeyCode::Backspace] {
        input.handle(&mut text, KeyEvent::new(code));
    }
    assert_eq!(text, "aé");
    input.handle(&mut text, KeyEvent::ctrl(KeyCode::Char('z')));
    assert_eq!(text, "a🔑é");
    input.handle(&mut text, KeyEvent::ctrl(KeyCode::Char('y')));
    assert_eq!(text, "aé");
    input.handle(&mut text, KeyEvent::new(KeyCode::Delete));
    assert_eq!(text, "a");
}

#[test]
fn paste_is_atomic_and_rejects_multiline_secrets() {
    let mut input = TextInput::new();
    let mut text = String::new();
    assert!(input.insert(&mut text, "password\nusername: other", false).is_err());
    assert!(text.is_empty());
    input.insert(&mut text, "first\r\nsecond", true).unwrap();
    assert_eq!(text, "first\nsecond");
    input.handle(&mut text, KeyEvent::ctrl(KeyCode::Char('z')));
    assert!(text.is_empty());
}

#[test]
fn cursor_moves_by_characters_and_lines() {
    let mut input = TextInput::new();
    let mut text = "ab\ncd".to_string();
    assert_eq!(input.position(&text), 5);
    input.handle(&mut text, KeyEvent::new(KeyCode::Home));
    assert_eq!(input.position(&text), 3);
    input.handle(&mut text, KeyEvent::new(KeyCode::Left));
    assert_eq!(input.position(&text), 2);
    input.handle(&mut text, KeyEvent::new(KeyCode::Home));
    assert_eq!(input.position(&text), 0);
    input.handle(&mut text, KeyEvent::new(KeyCode::End));
    assert_eq!(input.position(&text), 2);
    input.handle(&mut text, KeyEvent::new(KeyCode::Right));
    assert_eq!(input.position(&text), 3);
    input.handle(&mut text, KeyEvent::new(KeyCode::Char('X')));
    assert_eq!(text, "ab\nXcd");
    assert_eq!(input.display(&text, false), "ab\nX█cd");
    assert_eq!(input.display(&text, true), "••\n•█••");
    assert!(!input.handle(&mut text, KeyEvent::new(KeyCode::Tab)));
}

#[test]
fn clearing_can_be_undone_and_typing_refuses_control_characters() {
    let mut input = TextInput::new();
    let mut text = "secret".to_string();
    assert!(input.handle(&mut text, KeyEvent::ctrl(KeyCode::Char('u'))));
    assert_eq!(text, "");
    assert!(input.handle(&mut text, KeyEvent::ctrl(KeyCode::Char('z'))));
    assert_eq!(text, "secret");
    assert!(!input.handle(&mut text, KeyEvent::new(KeyCode::Char('\u{7}'))));
    assert_eq!(
        input.insert(&mut text, "a\tb", false).unwrap_err(),
        "This field accepts a single line without control characters."
    );
    input.insert(&mut text, "a\tb\rc", true).unwrap();
    assert_eq!(text, "secreta\tb\nc");
}
