use passtui::totp::{check_output, copy_lifetime, parse, window, Code};

#[test]
fn parses_pass_otp_notes_and_custom_parameters_without_leaking_errors() {
    let token = parse("password\nusername: alice\notpauth://totp/Test:alice?secret=gezdgnbv%3D%3D&digits=8&period=60&algorithm=SHA256").unwrap();
    assert_eq!(token.secret.as_str(), "GEZDGNBV==");
    assert_eq!((token.period, token.digits, token.algorithm.as_str()), (60, 8, "SHA256"));
    for uri in [
        "otpauth://hotp/Test?secret=PRIVATE&counter=0",
        "otpauth://totp/Test?secret=PRIVATE&period=0",
        "otpauth://totp/Test?secret=PRIVATE&digits=99",
        "otpauth://totp/Test?secret=PRIVATE&secret=OTHER",
        "otpauth://totp/Test?secret=PRIVATE&algorithm=MD5",
    ] {
        let error = parse(uri).err().unwrap();
        assert!(!error.contains("PRIVATE"));
    }
    assert!(parse("otpauth://totp/A?secret=AA\notpauth://totp/B?secret=BB").is_err());
}

fn since_epoch() -> (u64, u32) {
    let now = std::time::SystemTime::now().duration_since(std::time::UNIX_EPOCH).unwrap();
    (now.as_secs(), now.subsec_nanos())
}

#[test]
fn expired_and_future_codes_cannot_be_copied() {
    let mut code = Code { value: "123456".into(), valid_from: 0, expires_at: 1 };
    let deadline_left: u128 = 30_000_000_000;
    let (secs, nanos) = since_epoch();
    assert_eq!(code.remaining_at(secs, nanos, deadline_left), 0);
    code.valid_from = u64::MAX;
    code.expires_at = u64::MAX;
    let (secs, nanos) = since_epoch();
    assert_eq!(code.remaining_at(secs, nanos, deadline_left), 0);
}

#[test]
fn codes_last_until_their_window_or_deadline_closes() {
    let code = Code { value: "123456".into(), valid_from: 60, expires_at: 90 };
    assert_eq!(code.remaining_at(75, 500_000_000, 30_000_000_000), 14_500_000_000);
    assert_eq!(code.remaining_at(75, 0, 1_000), 1_000);
    assert_eq!(code.remaining_at(59, 999_999_999, 30_000_000_000), 0);
    assert_eq!(code.remaining_at(95, 0, 30_000_000_000), 0);
    assert_eq!(window(30, 61, 89), Some((60, 90)));
    assert_eq!(window(30, 59, 61), None);
}

#[test]
fn token_errors_are_fixed_messages() {
    assert_eq!(parse("password only").err().unwrap(), "No OTP URI found. Add an otpauth://totp/... URI on its own line in Notes, or use pass otp append.");
    assert_eq!(parse("otpauth://totp/Test?secret=AA&secret=BB").err().unwrap(), "Duplicate TOTP parameter");
    assert_eq!(parse("otpauth://totp/?secret=AA").err().unwrap(), "Invalid TOTP URI");
    assert_eq!(parse("otpauth://totp/T?secret=A%4").err().unwrap(), "Invalid encoded TOTP secret");
    assert_eq!(parse("otpauth://totp/T?secret=1A").err().unwrap(), "TOTP secret must use Base32 encoding");
    assert_eq!(parse("otpauth://totp/T?secret=AA&issuer=x&color=red").err().unwrap(), "Unsupported TOTP parameter");
    let token = parse("otpauth://totp/T?secret=aa&issuer=x").unwrap();
    assert_eq!((token.period, token.digits, token.algorithm.as_str()), (30, 6, "SHA1"));
    assert_eq!(
        token.oathtool_args(),
        vec!["--totp=SHA1", "--base32", "--digits=6", "--time-step-size=30s", "-"]
    );
    assert_eq!(check_output(6, " 012345\n").unwrap(), "012345");
    assert!(check_output(6, "01234").is_err());
    assert!(check_output(6, "01234a").is_err());
}

#[test]
fn copied_codes_leave_with_the_code_or_the_clipboard_timer() {
    assert_eq!(copy_lifetime(1_000_999_999, 45), None);
    assert_eq!(copy_lifetime(0, 45), None);
    assert_eq!(copy_lifetime(1_001_000_000, 45), Some(1_001_000_000));
    assert_eq!(copy_lifetime(29_000_000_000, 10), Some(10_000_000_000));
}
