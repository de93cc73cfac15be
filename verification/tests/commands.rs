use passtui::pass::commands::{parse_entry, parse_gpg_colons};

#[test]
fn test_parse_entry_simple() {
    let text = "secret123\nlogin: user@example.com\nurl: https://github.com\nSome random note";
    let parsed = parse_entry(text);
    assert_eq!(parsed.password, "secret123");
    assert_eq!(parsed.fields.len(), 2);
    assert_eq!(parsed.fields[0], ("login".to_string(), "user@example.com".to_string()));
    assert_eq!(parsed.fields[1], ("url".to_string(), "https://github.com".to_string()));
    assert_eq!(parsed.notes.len(), 1);
    assert_eq!(parsed.notes[0], "Some random note");
}

#[test]
fn test_parse_entry_only_password() {
    let text = "justapassword";
    let parsed = parse_entry(text);
    assert_eq!(parsed.password, "justapassword");
    assert!(parsed.fields.is_empty());
    assert!(parsed.notes.is_empty());
}

#[test]
fn test_parse_entry_empty() {
    let parsed = parse_entry("");
    assert_eq!(parsed.password, "");
    assert!(parsed.fields.is_empty());
    assert!(parsed.notes.is_empty());
}

#[test]
fn test_parse_gpg_colons() {
    let sample = "\
sec:u:255:22:1496D47CB1A4A4C7:1788468142:::u:::scESC:::+::ed25519:::0:
fpr:::::::::B2EF3F4F88F2A0BC32C6C03F1496D47CB1A4A4C7:
uid:u::::1788468142::9C2BD3B4A80856A48A554A5909B74B623E586E17::Alice Smith <alice@example.com>::::::::::0:
";
    let keys = parse_gpg_colons(sample);
    assert_eq!(keys.len(), 1);
    assert_eq!(keys[0].id, "1496D47CB1A4A4C7");
    assert_eq!(keys[0].uid, "Alice Smith <alice@example.com>");
}

#[test]
fn login_password_refuses_otp_only_entries() {
    let entry = parse_entry("otpauth://totp/Test?secret=AA");
    assert_eq!(
        entry.login_password().unwrap_err(),
        "OTP-only entry: use t in PassTUI to generate a code."
    );
    let entry = parse_entry("hunter2\nlogin: alice");
    assert_eq!(entry.login_password().unwrap(), "hunter2");
}
