use passtui::history::{
    list_args, parse_log, restore_check, status_pathspec, valid_commit, HistoryAction, HistoryView,
    Preview, Revision,
};
use passtui::keys::{KeyCode, KeyEvent};
use passtui::pass::commands::parse_entry;

#[test]
fn log_lists_entry_versions_with_literal_paths() {
    let args = list_args(Some("Work/*"));
    assert_eq!(args.last().unwrap(), ":(literal)Work/*.gpg");
    assert_eq!(args[0], "log");
    assert_eq!(list_args(None).last().unwrap(), "*.gpg");
    assert_eq!(status_pathspec("a b"), ":(literal)a b.gpg");
}

#[test]
fn log_records_keep_valid_entries_only() {
    let commit = "0123456789abcdef0123456789abcdef01234567";
    let log = format!("\u{1e}{commit}\u{0}2024-01-02\u{0}\nlogin.gpg\u{0}../outside.gpg\u{0}notes.txt\u{0}\u{1e}bad\u{0}2024\u{0}x.gpg\u{0}");
    let revisions = parse_log(&log);
    assert_eq!(revisions.len(), 1);
    assert_eq!(revisions[0].commit, commit);
    assert_eq!(revisions[0].date, "2024-01-02");
    assert_eq!(revisions[0].path, "login");
    assert!(valid_commit(commit));
    assert!(!valid_commit("xyz"));
}

#[test]
fn restore_refuses_stale_or_dirty_previews() {
    let preview = Preview {
        entry: parse_entry("old"),
        revision: Revision { commit: "c".into(), date: "d".into(), path: "login".into() },
        current: Some(b"one".to_vec()),
        head: b"h1".to_vec(),
    };
    assert!(restore_check(&preview, &b"h1".to_vec(), &Some(b"one".to_vec()), &vec![]).is_ok());
    assert_eq!(
        restore_check(&preview, &b"h2".to_vec(), &Some(b"one".to_vec()), &vec![]).unwrap_err(),
        "The store changed since preview. Preview the revision again before restoring."
    );
    assert!(restore_check(&preview, &b"h1".to_vec(), &None, &vec![]).is_err());
    assert_eq!(
        restore_check(&preview, &b"h1".to_vec(), &Some(b"one".to_vec()), &b" M login.gpg".to_vec()).unwrap_err(),
        "This entry has uncommitted changes. Commit or resolve them before restoring."
    );
}

fn revision(path: &str) -> Revision {
    Revision { commit: "a".repeat(40), date: "2024-01-01".to_string(), path: path.to_string() }
}

#[test]
fn history_popup_keys_preview_then_confirm_restore() {
    let mut view = HistoryView::new(vec![revision("a"), revision("b")]);
    assert!(matches!(view.handle_key(KeyEvent::new(KeyCode::Char('r'))), HistoryAction::Nothing));
    assert!(!view.confirming);
    assert!(matches!(view.handle_key(KeyEvent::new(KeyCode::Down)), HistoryAction::Nothing));
    assert_eq!(view.selected, 1);
    view.handle_key(KeyEvent::new(KeyCode::Down));
    assert_eq!(view.selected, 1);
    assert!(matches!(view.handle_key(KeyEvent::new(KeyCode::Enter)), HistoryAction::Preview(1)));
    view.preview = Some(Preview { entry: parse_entry("old\n"), revision: revision("b"), current: None, head: vec![] });
    view.handle_key(KeyEvent::new(KeyCode::Char('r')));
    assert!(view.confirming);
    match view.handle_key(KeyEvent::new(KeyCode::Char('y'))) {
        HistoryAction::Restore(preview) => assert_eq!(preview.revision.path, "b"),
        _ => panic!("restore expected"),
    }
    assert!(view.preview.is_none());
    assert!(!view.confirming);
    assert!(matches!(view.handle_key(KeyEvent::new(KeyCode::Char('k'))), HistoryAction::Nothing));
    assert_eq!(view.selected, 0);
    assert!(matches!(view.handle_key(KeyEvent::new(KeyCode::Esc)), HistoryAction::Close));
}
