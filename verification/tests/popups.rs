use passtui::app_state::AddField;
use passtui::editor::EntryEditor;
use passtui::history::{HistoryAction, HistoryView};
use passtui::keys::{KeyCode, KeyEvent};
use passtui::pass::commands::parse_entry;
use passtui::recovery::{RecoveryAction, View};
use passtui::text_input::TextInput;

fn press(code: KeyCode) -> KeyEvent {
    KeyEvent::new(code)
}

#[test]
fn rename_can_clear_destination_without_changing_source() {
    let source = "Work/github".to_string();
    let mut destination = source.clone();
    let mut input = TextInput::new();
    input.handle(&mut destination, KeyEvent::ctrl(KeyCode::Char('u')));
    for character in "github.com/work".chars() {
        input.handle(&mut destination, press(KeyCode::Char(character)));
    }
    assert_eq!(source, "Work/github");
    assert_eq!(destination, "github.com/work");
}

#[test]
fn form_paste_edits_at_cursor_and_undo_is_per_field() {
    let mut editor = EntryEditor::new();
    let mut name = String::new();
    let mut password = String::new();
    let mut field = AddField::Name;
    editor.inputs[field.index()].insert(&mut name, "example", false).unwrap();
    field = field.next(false);
    assert_eq!(field, AddField::Password);
    let input = &mut editor.inputs[field.index()];
    input.insert(&mut password, "ab🔑cd", false).unwrap();
    input.handle(&mut password, press(KeyCode::Left));
    input.handle(&mut password, press(KeyCode::Left));
    input.insert(&mut password, "XY", false).unwrap();
    assert_eq!(password, "ab🔑XYcd");
    input.handle(&mut password, KeyEvent::ctrl(KeyCode::Char('z')));
    assert_eq!(password, "ab🔑cd");
    assert!(input.insert(&mut password, "bad\nusername: injected", false).is_err());
    assert_eq!(password, "ab🔑cd");
    for _ in 0..3 {
        field = field.next(false);
    }
    assert_eq!(field, AddField::Notes);
    let mut notes = std::mem::take(&mut editor.notes);
    editor.inputs[field.index()].insert(&mut notes, "notes\nqdyf", true).unwrap();
    assert_eq!(notes, "notes\nqdyf");
    editor.inputs[field.index()].handle(&mut notes, KeyEvent::ctrl(KeyCode::Char('z')));
    assert!(notes.is_empty());
    assert_eq!(name, "example");
    let mut fresh = EntryEditor::new();
    let mut password = String::new();
    fresh.inputs[AddField::Password.index()].handle(&mut password, KeyEvent::ctrl(KeyCode::Char('z')));
    assert!(password.is_empty());
}

#[test]
fn history_confirmation_requires_explicit_yes() {
    let mut view = HistoryView::new(Vec::new());
    view.confirming = true;
    assert!(matches!(view.handle_key(press(KeyCode::Enter)), HistoryAction::Nothing));
    assert!(!view.confirming);
    assert!(matches!(view.handle_key(press(KeyCode::Esc)), HistoryAction::Close));
}

#[test]
fn recovery_codes_are_masked_and_status_change_requires_confirmation() {
    let mut view = View::new(
        "example".to_string(),
        parse_entry("password\nrecovery-code: recovery-secret-marker"),
    );
    assert!(!view.revealed(0));
    assert_eq!(view.handle_key(press(KeyCode::Char('p')), 0), RecoveryAction::Nothing);
    assert!(view.revealed(0));
    assert_eq!(view.handle_key(press(KeyCode::Char('x')), 0), RecoveryAction::Nothing);
    assert_eq!(view.handle_key(press(KeyCode::Enter), 0), RecoveryAction::Nothing);
    assert!(!view.confirming);
    assert!(!view.codes()[0].used);
}

#[test]
fn recovery_field_accepts_multiline_paste_without_exposing_codes() {
    let mut editor = EntryEditor::new();
    let mut field = AddField::Name;
    for _ in 0..5 {
        field = field.next(false);
    }
    assert_eq!(field, AddField::RecoveryCodes);
    let mut codes = String::new();
    editor.inputs[field.index()].insert(&mut codes, "first-secret\nsecond-secret", true).unwrap();
    assert_eq!(codes, "first-secret\nsecond-secret");
    assert!(!editor.inputs[field.index()].display(&codes, true).contains("first-secret"));
}
