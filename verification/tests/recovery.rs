use passtui::keys::{KeyCode, KeyEvent};
use passtui::pass::commands::parse_entry;
use passtui::recovery::{codes, field, parse_line, save_toggle, toggle, RecoveryAction, View};

#[test]
fn toggle_preserves_other_fields_duplicates_and_line_endings() {
    let original = "password\r\nusername: alice\r\nrecovery-code: same\r\nrecovery-code: same\r\nnotes unchanged";
    let updated = toggle(original, 1).unwrap();
    assert_eq!(
        updated.as_str(),
        "password\r\nusername: alice\r\nrecovery-code: same\r\nrecovery-code-used: same\r\nnotes unchanged"
    );
    let values = codes(&updated);
    assert!(!values[0].used);
    assert!(values[1].used);
    assert_eq!(toggle(&updated, 1).unwrap().as_str(), original);
    assert!(toggle(original, 2).is_err());
    assert!(codes("recovery-code: password-only").is_empty());
}

#[test]
fn recovery_lines_are_recognised_case_insensitively() {
    assert!(field("Recovery-Code"));
    assert!(field(" recovery-code-used "));
    assert!(!field("recovery"));
    let code = parse_line("Recovery-Code-Used:  abc ").unwrap();
    assert_eq!(code.value, "abc");
    assert!(code.used);
    assert!(parse_line("login: abc").is_none());
}

#[test]
fn saving_a_toggle_requires_an_unchanged_entry() {
    let original = "pw\nrecovery-code: one";
    let (content, entry) = save_toggle(original, 0, original).unwrap();
    assert_eq!(content, "pw\nrecovery-code-used: one");
    assert_eq!(entry.password, "pw");
    assert_eq!(
        save_toggle(original, 0, "pw\nchanged").unwrap_err(),
        "Entry changed since opening. Close and reopen recovery codes before retrying."
    );
    assert_eq!(
        save_toggle(original, 3, original).unwrap_err(),
        "Recovery code no longer exists. Reopen the entry."
    );
}

fn key(c: char) -> KeyEvent {
    KeyEvent::new(KeyCode::Char(c))
}

#[test]
fn recovery_popup_keys_follow_the_dialog() {
    let entry = parse_entry("pw\nrecovery-code: first\nrecovery-code-used: second\n");
    let mut view = View::new("site".to_string(), entry);
    assert_eq!(view.handle_key(key('y'), 0), RecoveryAction::Copy("first".to_string()));
    assert_eq!(view.handle_key(KeyEvent::new(KeyCode::Down), 0), RecoveryAction::Nothing);
    assert_eq!(view.selected, 1);
    assert_eq!(view.handle_key(key('j'), 0), RecoveryAction::Nothing);
    assert_eq!(view.selected, 1);
    assert_eq!(view.handle_key(key('y'), 0), RecoveryAction::Nothing);
    assert_eq!(
        view.error.as_deref(),
        Some("This code is marked used. Press x to mark it available if that was a mistake.")
    );
    assert_eq!(view.handle_key(key('p'), 1000), RecoveryAction::Nothing);
    assert_eq!(view.reveal_until, Some(16000));
    assert!(view.revealed(2000));
    assert_eq!(view.handle_key(key('p'), 2000), RecoveryAction::Nothing);
    assert_eq!(view.reveal_until, None);
    assert_eq!(view.handle_key(key('x'), 0), RecoveryAction::Nothing);
    assert!(view.confirming);
    assert_eq!(view.handle_key(key('n'), 0), RecoveryAction::Nothing);
    assert!(!view.confirming);
    view.handle_key(key('x'), 0);
    assert_eq!(view.handle_key(key('y'), 0), RecoveryAction::Save(1));
    assert_eq!(view.handle_key(key('k'), 0), RecoveryAction::Nothing);
    assert_eq!(view.selected, 0);
    assert_eq!(view.handle_key(KeyEvent::new(KeyCode::Esc), 0), RecoveryAction::Close);
}

#[test]
fn recovery_popup_without_codes_never_confirms() {
    let mut view = View::new("site".to_string(), parse_entry("pw\n"));
    assert_eq!(view.handle_key(key('x'), 0), RecoveryAction::Nothing);
    assert!(!view.confirming);
    assert_eq!(view.handle_key(key('y'), 0), RecoveryAction::Nothing);
}

#[test]
fn toggle_fails_exactly_past_the_last_code_and_flips_only_the_selected_one() {
    let content = "pw\nrecovery-code: a\nnote\nRecovery-Code-Used : b\nrecovery-code: c\n";
    let before = codes(content);
    assert_eq!(before.len(), 3);
    for selected in 0..before.len() {
        let after = codes(&toggle(content, selected).unwrap());
        assert_eq!(after.len(), before.len());
        for i in 0..after.len() {
            assert_eq!(after[i].value, before[i].value);
            assert_eq!(after[i].used, if i == selected { !before[i].used } else { before[i].used });
        }
    }
    assert!(toggle(content, 3).is_err());
    assert!(toggle("recovery-code: only-on-the-first-line", 0).is_err());
}
