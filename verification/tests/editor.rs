use passtui::editor::{rename_check, submit_check, unchanged_check, valid_path, EntryEditor};
use passtui::pass::commands::parse_entry;
use passtui::recovery::codes;

#[test]
fn recovery_codes_round_trip_and_preserve_used_status_and_notes() {
    let entry = parse_entry(
        "password\nlogin: alice\nrecovery-code: available-one\nrecovery-code-used: used-one\notpauth://totp/Test?secret=AA\nplain note",
    );
    let mut editor = EntryEditor::from_entry("example".into(), &entry);
    assert_eq!(editor.recovery_codes, "available-one");
    assert!(!editor.notes.contains("available-one"));
    editor.recovery_codes.push_str("\nnew-code");
    let saved = editor.content("new-password");
    let codes = passtui::recovery::codes(&saved);
    assert_eq!(codes.len(), 3);
    assert!(codes.iter().any(|c| c.used && c.value == "used-one"));
    assert!(saved.contains("otpauth://totp/Test?secret=AA\nplain note"));
    assert!(saved.starts_with("new-password\nlogin: alice"));
}

#[test]
fn editing_preserves_unknown_fields_and_multiline_notes() {
    let entry = parse_entry(
        "secret\nlogin: alice\nurl: https://example.com\notpauth: opaque\n\nNote: do not lose this\nnext line",
    );
    let editor = EntryEditor::from_entry("Work/example".into(), &entry);
    assert_eq!(editor.username, "alice");
    assert_eq!(editor.url, "https://example.com");
    let output = editor.content("new-secret");
    assert!(output.contains("otpauth: opaque\n\nNote: do not lose this\nnext line"));
    assert!(output.starts_with("new-secret\nlogin: alice"));
}

#[test]
fn entry_paths_stay_within_store() {
    assert!(valid_path("Work/github"));
    for name in ["", "../secret", "/tmp/secret", "Work/../secret", "--force", "name\nother"] {
        assert!(!valid_path(name), "accepted {name:?}");
    }
}

#[test]
fn empty_form_saves_only_the_password() {
    let editor = EntryEditor::new();
    assert_eq!(editor.content("only"), "only");
    let entry = parse_entry("pw\nUser: bob\nURL: https://x.test\nnote");
    let editor = EntryEditor::from_entry("x".into(), &entry);
    assert_eq!(editor.username, "bob");
    assert_eq!(editor.url, "https://x.test");
    assert_eq!(editor.content("pw"), "pw\nUser: bob\nurl: https://x.test\nnote");
}

#[test]
fn saving_an_edited_entry_keeps_codes_and_marks() {
    let entry = parse_entry(
        "old\nrecovery-code-used: spent-1\nuser: bob\nrecovery-code: fresh-1\r\nnote line\nrecovery-code:   fresh-2  \n",
    );
    let editor = EntryEditor::from_entry("site".into(), &entry);
    let saved = editor.content("new");
    let found: Vec<(String, bool)> = codes(&saved).into_iter().map(|c| (c.value, c.used)).collect();
    assert_eq!(
        found,
        vec![("fresh-1".to_string(), false), ("fresh-2".to_string(), false), ("spent-1".to_string(), true)]
    );
    assert!(saved.starts_with("new\nuser: bob"));
}

#[test]
fn submit_check_follows_the_form_rules() {
    assert_eq!(submit_check("  ", "pw", &None, false), Err("Name and password are required".to_string()));
    assert_eq!(submit_check("site", "", &None, false), Err("Name and password are required".to_string()));
    assert_eq!(
        submit_check("../x", "pw", &None, false),
        Err("Use a relative entry path, such as Work/github.".to_string())
    );
    assert_eq!(
        submit_check("new", "pw", &Some("old".to_string()), true),
        Err("Use r from the entry list to rename or move an entry.".to_string())
    );
    assert_eq!(
        submit_check("taken", "pw", &None, true),
        Err("This entry already exists. Choose a different name.".to_string())
    );
    assert_eq!(submit_check(" Work/site ", "pw", &None, false), Ok("Work/site".to_string()));
    assert_eq!(submit_check("Work/site", "pw", &Some("Work/site".to_string()), true), Ok("Work/site".to_string()));
}

#[test]
fn rename_and_stale_checks() {
    assert_eq!(rename_check(" a/b ", false), Ok("a/b".to_string()));
    assert_eq!(rename_check("a/b", true), Err("The destination already exists. Choose another path.".to_string()));
    assert_eq!(rename_check("/etc", false), Err("Use a relative path, such as Work/github.".to_string()));
    assert_eq!(unchanged_check("same", "same"), Ok(()));
    assert_eq!(
        unchanged_check("before", "after"),
        Err("Entry changed since editing began. Cancel and reopen it before saving.".to_string())
    );
}
