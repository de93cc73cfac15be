use passtui::app_state::{Action, ActivePopup, AddField, InputMode};
use passtui::editor::EntryEditor;
use passtui::keys::{KeyCode, KeyEvent};
use passtui::pass::commands::parse_entry;
use passtui::picker::{picker_step, PickerAction, PickerEvent, PickerState};
use passtui::screen::{step_key, step_main, step_paste, step_result, step_viewed, Effect, Outcome, Screen};
use passtui::text_input::TextInput;

fn screen() -> Screen {
    Screen {
        locked: false,
        popup: ActivePopup::NoPopup,
        input_mode: InputMode::Normal,
        detail: None,
        show_password: false,
        detail_scroll: 0,
        editor: EntryEditor::new(),
        generator_draft: None,
        search_query: String::new(),
        search_input: TextInput::new(),
        rename_input: TextInput::new(),
        selected: Some(0),
        listed: 3,
        favorites_only: false,
        form_error: None,
        lock_outcome: None,
        reveal_by_default: false,
    }
}

fn key(code: KeyCode) -> KeyEvent {
    KeyEvent::new(code)
}

#[test]
fn ctrl_l_locks_and_clears_then_enter_resumes() {
    let mut s = screen();
    s.detail = Some(parse_entry("secret"));
    s.search_query = "abc".to_string();
    s.popup = ActivePopup::AddEntry { name: "n".into(), password: "p".into(), active_field: AddField::Password };
    assert!(matches!(step_key(&mut s, KeyEvent::ctrl(KeyCode::Char('l')), 'y', false, 0, 0, 0), Effect::Lock));
    assert!(s.locked && s.detail.is_none() && s.search_query.is_empty());
    assert!(matches!(s.popup, ActivePopup::NoPopup));
    assert!(matches!(step_key(&mut s, key(KeyCode::Char('x')), 'y', false, 0, 0, 0), Effect::Nothing));
    assert!(s.locked);
    assert!(matches!(step_key(&mut s, key(KeyCode::Enter), 'y', true, 0, 0, 0), Effect::Nothing));
    assert!(s.locked);
    s.lock_outcome = Some("done".into());
    match step_key(&mut s, key(KeyCode::Enter), 'y', false, 0, 0, 0) {
        Effect::Resume(Some(m)) => assert_eq!(m, "done"),
        _ => panic!("resume expected"),
    }
    assert!(!s.locked && s.lock_outcome.is_none());
}

#[test]
fn confirm_popup_deletes_only_on_y() {
    let mut s = screen();
    s.popup = ActivePopup::Confirm { message: "Delete?".into(), entry_path: "a".into() };
    assert!(matches!(step_key(&mut s, key(KeyCode::Char('x')), 'y', false, 0, 0, 0), Effect::Nothing));
    assert!(matches!(s.popup, ActivePopup::Confirm { .. }));
    assert!(matches!(step_key(&mut s, key(KeyCode::Enter), 'y', false, 0, 0, 0), Effect::Nothing));
    assert!(matches!(s.popup, ActivePopup::NoPopup));
    s.popup = ActivePopup::Confirm { message: "Delete?".into(), entry_path: "a".into() };
    match step_key(&mut s, key(KeyCode::Char('y')), 'y', false, 0, 0, 0) {
        Effect::Delete(p) => assert_eq!(p, "a"),
        _ => panic!("delete expected"),
    }
}

#[test]
fn generator_cancel_restores_the_draft() {
    let mut s = screen();
    s.popup = ActivePopup::AddEntry { name: "github".into(), password: "jkg-password".into(), active_field: AddField::Password };
    step_key(&mut s, KeyEvent::ctrl(KeyCode::Char('g')), 'y', false, 0, 0, 0);
    assert!(matches!(&s.popup, ActivePopup::Generator { password, .. } if password.chars().count() == 16));
    step_key(&mut s, key(KeyCode::Esc), 'y', false, 0, 0, 0);
    assert!(matches!(&s.popup, ActivePopup::AddEntry { name, password, .. } if name == "github" && password == "jkg-password"));
}

#[test]
fn form_enter_moves_from_name_then_saves() {
    let mut s = screen();
    s.popup = ActivePopup::AddEntry { name: String::new(), password: String::new(), active_field: AddField::Name };
    for c in "site".chars() {
        step_key(&mut s, key(KeyCode::Char(c)), 'y', false, 0, 0, 0);
    }
    step_key(&mut s, key(KeyCode::Enter), 'y', false, 0, 0, 0);
    step_key(&mut s, key(KeyCode::Char('p')), 'y', false, 0, 0, 0);
    match step_key(&mut s, key(KeyCode::Enter), 'y', false, 0, 0, 0) {
        Effect::Save(n, p) => assert_eq!((n.as_str(), p.as_str()), ("site", "p")),
        _ => panic!("save expected"),
    }
}

#[test]
fn main_keys_and_search() {
    let mut s = screen();
    assert!(matches!(step_key(&mut s, key(KeyCode::Char('j')), 'y', false, 0, 0, 0), Effect::Nothing));
    assert_eq!(s.selected, Some(1));
    assert!(matches!(step_key(&mut s, key(KeyCode::Char('y')), 'y', false, 0, 0, 0), Effect::Main(Action::CopyPassword)));
    assert!(matches!(step_key(&mut s, key(KeyCode::Char('/')), 'y', false, 0, 0, 0), Effect::Relist));
    assert_eq!(s.input_mode, InputMode::Search);
    assert!(matches!(step_key(&mut s, key(KeyCode::Char('w')), 'y', false, 0, 0, 0), Effect::Relist));
    assert_eq!(s.search_query, "w");
    assert!(matches!(step_key(&mut s, key(KeyCode::Esc), 'y', false, 0, 0, 0), Effect::Relist));
    assert!(s.search_query.is_empty() && s.input_mode == InputMode::Normal);
    assert!(matches!(step_key(&mut s, key(KeyCode::Char('q')), 'y', true, 0, 0, 0), Effect::Quit));
}

#[test]
fn results_after_a_lock_are_dropped() {
    let mut s = screen();
    s.locked = true;
    assert!(matches!(step_result(&mut s, Outcome::Viewed(Ok(parse_entry("secret")))), Effect::Nothing));
    assert!(s.detail.is_none());
    assert_eq!(s.lock_outcome.as_deref(), Some("Background action finished. Resume to refresh the store."));
    step_result(&mut s, Outcome::Deleted(Err("no".into())));
    assert_eq!(
        s.lock_outcome.as_deref(),
        Some("Background action failed or was cancelled. Resume and check the store before retrying.")
    );
    let mut s = screen();
    step_result(&mut s, Outcome::Viewed(Ok(parse_entry("secret"))));
    assert!(s.detail.is_some());
    step_result(&mut s, Outcome::Saved("x".into(), Err("GPG unavailable".into())));
    assert_eq!(s.form_error.as_deref(), Some("GPG unavailable"));
}

#[test]
fn picker_locks_on_idle_and_copies_on_enter() {
    let mut st = PickerState { query: "ab".into(), input: TextInput::new(), selected: 5, locked: false, message: None };
    assert_eq!(picker_step(&mut st, PickerEvent::Key(key(KeyCode::Enter)), 2, false), PickerAction::Copy(1));
    assert_eq!(picker_step(&mut st, PickerEvent::Key(KeyEvent::ctrl(KeyCode::Char('f'))), 2, false), PickerAction::ToggleFavorite(1));
    assert_eq!(picker_step(&mut st, PickerEvent::Idle, 2, false), PickerAction::Lock);
    assert!(st.locked && st.query.is_empty());
    assert_eq!(picker_step(&mut st, PickerEvent::Paste("x".into()), 2, false), PickerAction::Nothing);
    assert!(st.query.is_empty());
    assert_eq!(picker_step(&mut st, PickerEvent::Key(key(KeyCode::Enter)), 2, true), PickerAction::Nothing);
    assert_eq!(picker_step(&mut st, PickerEvent::Key(key(KeyCode::Enter)), 2, false), PickerAction::Resume);
    assert_eq!(picker_step(&mut st, PickerEvent::Key(key(KeyCode::Char('j'))), 2, false), PickerAction::Nothing);
    assert_eq!(st.query, "j");
    assert_eq!(picker_step(&mut st, PickerEvent::Key(key(KeyCode::Esc)), 2, false), PickerAction::Quit);
}

#[test]
fn pastes_go_nowhere_while_locked_and_into_the_open_field_otherwise() {
    let mut s = screen();
    s.locked = true;
    s.input_mode = InputMode::Search;
    assert!(matches!(step_paste(&mut s, "abc", false, 0, 0), Effect::Nothing));
    assert!(s.search_query.is_empty());

    let mut s = screen();
    s.input_mode = InputMode::Search;
    s.selected = Some(2);
    s.detail = Some(parse_entry("secret"));
    assert!(matches!(step_paste(&mut s, "git", false, 0, 0), Effect::Searched(None)));
    assert_eq!(s.search_query, "git");
    assert!(s.detail.is_none());
    assert_eq!(s.selected, Some(0));
    match step_paste(&mut s, "a\nb", false, 0, 0) {
        Effect::Searched(Some(e)) => assert_eq!(e, "This field accepts a single line without control characters."),
        _ => panic!("refusal expected"),
    }
    assert_eq!(s.search_query, "git");

    let mut s = screen();
    s.popup = ActivePopup::AddEntry { name: "n".into(), password: String::new(), active_field: AddField::Notes };
    assert!(matches!(step_paste(&mut s, "line one\r\nline two", false, 0, 0), Effect::Nothing));
    assert_eq!(s.editor.notes, "line one\nline two");
    s.popup = ActivePopup::AddEntry { name: "n".into(), password: String::new(), active_field: AddField::Name };
    assert!(matches!(step_paste(&mut s, "x\ty", false, 0, 0), Effect::Note(_)));
    assert!(s.form_error.is_some());
    assert!(matches!(&s.popup, ActivePopup::AddEntry { name, .. } if name == "n"));
    assert!(matches!(step_paste(&mut s, "ew", false, 0, 0), Effect::Nothing));
    assert!(s.form_error.is_none());
    assert!(matches!(&s.popup, ActivePopup::AddEntry { name, .. } if name == "new"));
    assert!(matches!(step_paste(&mut s, "zzz", true, 0, 0), Effect::Nothing));
    assert!(matches!(&s.popup, ActivePopup::AddEntry { name, .. } if name == "new"));
}

#[test]
fn main_actions_follow_the_selected_row() {
    let mut s = screen();
    let file = Some(("web/github".to_string(), false));
    let folder = Some(("web".to_string(), true));
    assert!(matches!(step_main(&mut s, Action::Delete, folder.clone(), true), Effect::Nothing));
    assert!(matches!(s.popup, ActivePopup::NoPopup));
    step_main(&mut s, Action::Delete, file.clone(), true);
    assert!(matches!(&s.popup, ActivePopup::Confirm { message, entry_path } if message == "Delete 'web/github'?" && entry_path == "web/github"));

    let mut s = screen();
    assert!(matches!(step_main(&mut s, Action::Open, folder.clone(), true), Effect::Fold(p) if p == "web"));
    assert!(matches!(step_main(&mut s, Action::Open, file.clone(), true), Effect::Show(p) if p == "web/github"));
    assert!(matches!(step_main(&mut s, Action::Totp, folder.clone(), true), Effect::Nothing));
    assert!(matches!(&s.popup, ActivePopup::Notification { is_error: true, .. }));

    let mut s = screen();
    assert!(matches!(step_main(&mut s, Action::Add, file.clone(), false), Effect::StartInit));
    assert!(matches!(step_main(&mut s, Action::Add, file.clone(), true), Effect::Nothing));
    assert!(matches!(&s.popup, ActivePopup::AddEntry { name, active_field: AddField::Name, .. } if name.is_empty()));

    let mut s = screen();
    assert!(matches!(step_main(&mut s, Action::CopyUsername, file.clone(), true), Effect::Note(m) if m == "Open an entry with Enter first"));
    s.detail = Some(parse_entry("pw\nLogin: alice\n"));
    assert!(matches!(step_main(&mut s, Action::CopyUsername, file.clone(), true), Effect::CopyField(v, f) if v == "alice" && f == "username"));
    assert!(matches!(step_main(&mut s, Action::CopyUrl, file.clone(), true), Effect::Note(m) if m == "No url on this entry"));
    assert!(matches!(step_main(&mut s, Action::EntryHistory, folder, true), Effect::Note(_)));
    assert!(matches!(step_main(&mut s, Action::EntryHistory, file, true), Effect::ListHistory(Some(p)) if p == "web/github"));
    assert!(s.detail.is_none());
}

#[test]
fn an_entry_decrypted_for_a_row_no_longer_selected_is_dropped() {
    let mut s = screen();
    let effect = step_viewed(&mut s, "web/a", Some("web/b".to_string()), Ok(parse_entry("secret")));
    assert!(matches!(effect, Effect::Nothing));
    assert!(s.detail.is_none());
    let effect = step_viewed(&mut s, "web/a", Some("web/a".to_string()), Ok(parse_entry("secret")));
    assert!(matches!(effect, Effect::Reveal(false)));
    assert_eq!(s.detail.as_ref().map(|e| e.password.as_str()), Some("secret"));
    let mut s = screen();
    s.locked = true;
    step_viewed(&mut s, "web/a", None, Ok(parse_entry("secret")));
    assert!(s.detail.is_none());
    assert_eq!(s.lock_outcome.as_deref(), Some("Background action finished. Resume to refresh the store."));
}

#[test]
fn idle_limit_locks_before_a_paste_or_key_and_clears_drafts() {
    let mut s = screen();
    s.popup = ActivePopup::AddEntry { name: String::new(), password: String::new(), active_field: AddField::Name };
    step_paste(&mut s, "example", false, 0, 0);
    step_key(&mut s, key(KeyCode::Tab), 'y', false, 0, 0, 0);
    step_paste(&mut s, "draft-secret", false, 0, 0);
    s.editor.notes = "private notes".into();
    s.detail = Some(parse_entry("decrypted-secret"));
    s.generator_draft = Some(("example".into(), "generated-secret".into()));
    assert!(matches!(step_paste(&mut s, "must not revive the session", false, 1, 2), Effect::Lock));
    assert!(s.locked);
    assert!(s.detail.is_none());
    assert!(s.editor.notes.is_empty());
    assert!(s.generator_draft.is_none());
    assert!(matches!(s.popup, ActivePopup::NoPopup));
    assert!(matches!(step_key(&mut s, key(KeyCode::Char('a')), 'y', false, 1, 2, 0), Effect::Nothing));
    assert!(s.locked);
    assert!(matches!(step_key(&mut s, key(KeyCode::Enter), 'y', false, 1, 2, 0), Effect::Resume(None)));
    assert!(!s.locked);

    let mut s = screen();
    s.detail = Some(parse_entry("decrypted-secret"));
    assert!(matches!(step_key(&mut s, key(KeyCode::Char('j')), 'y', false, 300, 300, 0), Effect::Lock));
    assert!(s.locked && s.detail.is_none());
    let mut s = screen();
    assert!(matches!(step_key(&mut s, key(KeyCode::Char('j')), 'y', false, 300, 299, 0), Effect::Nothing));
    assert!(!s.locked);
    let mut s = screen();
    assert!(matches!(step_key(&mut s, key(KeyCode::Char('j')), 'y', false, 0, 99999, 0), Effect::Nothing));
    assert!(!s.locked);
}

#[test]
fn a_reset_field_forgets_what_it_could_undo() {
    let mut input = TextInput::new();
    let mut text = String::new();
    input.insert(&mut text, "secret", false).unwrap();
    input.reset();
    let mut empty = String::new();
    input.handle(&mut empty, KeyEvent::ctrl(KeyCode::Char('z')));
    assert!(empty.is_empty());
    let mut s = screen();
    s.generator_draft = Some(("n".into(), "generated-secret".into()));
    s.form_error = Some("err".into());
    step_key(&mut s, KeyEvent::ctrl(KeyCode::Char('l')), 'y', false, 0, 0, 0);
    assert!(s.generator_draft.is_none() && s.form_error.is_none());
}

#[test]
fn history_confirmation_on_the_screen_needs_an_explicit_yes() {
    let mut s = screen();
    let mut view = passtui::history::HistoryView::new(Vec::new());
    view.confirming = true;
    s.popup = ActivePopup::History(Box::new(view));
    let effect = step_key(&mut s, key(KeyCode::Enter), 'y', false, 0, 0, 0);
    assert!(matches!(effect, Effect::History(passtui::history::HistoryAction::Nothing)));
    assert!(matches!(&s.popup, ActivePopup::History(v) if !v.confirming));
    let effect = step_key(&mut s, key(KeyCode::Esc), 'y', false, 0, 0, 0);
    assert!(matches!(effect, Effect::History(passtui::history::HistoryAction::Close)));
    assert!(matches!(s.popup, ActivePopup::NoPopup));
}

#[test]
fn remember_keeps_the_last_hundred_steps() {
    let mut input = TextInput::new();
    let mut text = String::new();
    for _ in 0..101 {
        input.remember(&text);
        text.push('a');
    }
    for _ in 0..101 {
        input.handle(&mut text, KeyEvent::ctrl(KeyCode::Char('z')));
    }
    assert_eq!(text, "a");
}
