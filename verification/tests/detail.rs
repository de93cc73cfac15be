use passtui::detail::{detail_of, PasswordShown};
use passtui::pass::commands::parse_entry;

#[test]
fn detail_hides_otp_secrets_and_recovery_lines() {
    let entry = parse_entry(
        "hunter2\nusername: alice\notpauth: JBSWY3DPEHPK3PXP\nseed: otpauth://totp/x?secret=AB\nrecovery-code: 1111\nrecovery-code-used: 2222\nrecovery-code: 3333\nkeep this\notpauth://totp/y?secret=CD\n",
    );
    let detail = detail_of(&entry, false);
    assert_eq!(detail.password, PasswordShown::Masked);
    assert_eq!(
        detail.fields,
        vec![
            ("username".to_string(), Some("alice".to_string())),
            ("otpauth".to_string(), None),
            ("seed".to_string(), None),
            ("otpauth".to_string(), None),
        ]
    );
    assert_eq!(detail.recovery, Some((2, 1)));
    assert_eq!(detail.notes, vec![Some("keep this".to_string())]);
}

#[test]
fn detail_reveals_password_only_when_asked() {
    let entry = parse_entry("s3cret\n");
    assert_eq!(detail_of(&entry, true).password, PasswordShown::Revealed("s3cret".to_string()));
    assert_eq!(detail_of(&entry, false).password, PasswordShown::Masked);
    assert_eq!(detail_of(&entry, true).recovery, None);
    assert!(detail_of(&entry, true).fields.is_empty());
}

#[test]
fn detail_of_otp_only_entry_points_to_codes() {
    let entry = parse_entry("otpauth://totp/site?secret=JBSWY3DPEHPK3PXP\n");
    assert_eq!(detail_of(&entry, true).password, PasswordShown::OtpToken);
}
