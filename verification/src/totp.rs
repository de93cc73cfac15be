//! TOTP tokens as pass-otp writes them (`otpauth://totp/...` URIs); oathtool performs the
//! cryptography.
use crate::text::{
    all_digits, append, ascii_upper, decimal, push_decimal, string_views, contains_char, eq, is_ascii_digit, is_control, is_ctrl,
    lines, lines_exec, parse_u64, parse_unsigned, parse_usize, push_char, split, split_exec,
    split_once, split_once_exec, starts_with, starts_with_exec, string_of, strip_prefix,
    strip_prefix_exec, to_ascii_upper, to_chars, trim, trim_exec, views,
};
use vstd::prelude::*;
use vstd::string::StringExecFns;

verus! {

/// What a TOTP token holds: its Base32 secret, its period in seconds, the number of
/// digits of a code, and the name of its hash algorithm.
pub struct Token {
    pub secret: String,
    pub period: u64,
    pub digits: usize,
    pub algorithm: String,
}

pub struct TokenView {
    pub secret: Seq<char>,
    pub period: u64,
    pub digits: usize,
    pub algorithm: Seq<char>,
}

impl View for Token {
    type V = TokenView;

    open spec fn view(&self) -> TokenView {
        TokenView {
            secret: self.secret@,
            period: self.period,
            digits: self.digits,
            algorithm: self.algorithm@,
        }
    }
}

/// The token before any parameter: no secret, 30 seconds, 6 digits, SHA1.
pub open spec fn default_token() -> TokenView {
    TokenView { secret: seq![], period: 30, digits: 6, algorithm: "SHA1"@ }
}

pub open spec fn uri_prefix() -> Seq<char> {
    "otpauth://"@
}

/// The trimmed lines of `ls` that hold an OTP URI, in order.
pub open spec fn uris(ls: Seq<Seq<char>>) -> Seq<Seq<char>>
    decreases ls.len(),
{
    if ls.len() == 0 {
        seq![]
    } else {
        let rest = uris(ls.drop_last());
        let t = trim(ls.last());
        if starts_with(t, uri_prefix()) {
            rest.push(t)
        } else {
            rest
        }
    }
}

/// The value of an ASCII hexadecimal digit.
pub open spec fn hex_value(b: u8) -> Option<nat> {
    if 0x30 <= b <= 0x39 {
        Some((b - 0x30) as nat)
    } else if 0x61 <= b <= 0x66 {
        Some((b - 0x61 + 10) as nat)
    } else if 0x41 <= b <= 0x46 {
        Some((b - 0x41 + 10) as nat)
    } else {
        None
    }
}

/// A byte read as a character (Latin-1), raised to upper case.
pub open spec fn upper_byte(b: u8) -> char {
    ascii_upper(b as char)
}

/// A percent-decoded secret, byte by byte, in upper case; `None` when a `%` is not
/// followed by two hexadecimal digits.
pub open spec fn decoded_secret(b: Seq<u8>) -> Option<Seq<char>>
    decreases b.len(),
{
    if b.len() == 0 {
        Some(seq![])
    } else if b[0] == 0x25 {
        if b.len() >= 3 && hex_value(b[1]) is Some && hex_value(b[2]) is Some {
            let v = hex_value(b[1])->0 * 16 + hex_value(b[2])->0;
            match decoded_secret(b.skip(3)) {
                Some(r) => Some(seq![upper_byte(v as u8)] + r),
                None => None,
            }
        } else {
            None
        }
    } else {
        match decoded_secret(b.drop_first()) {
            Some(r) => Some(seq![upper_byte(b[0])] + r),
            None => None,
        }
    }
}

/// `s` in ASCII upper case.
pub open spec fn upper(s: Seq<char>) -> Seq<char> {
    s.map_values(|c: char| ascii_upper(c))
}

/// The token after the URI parameters `ps`, `seen` holding the keys met before them.
pub open spec fn applied(ps: Seq<Seq<char>>, seen: Seq<Seq<char>>, tok: TokenView) -> Result<
    TokenView,
    Seq<char>,
>
    decreases ps.len(),
{
    if ps.len() == 0 {
        Ok(tok)
    } else {
        match split_once(ps[0], '=') {
            None => Err("Invalid TOTP parameter"@),
            Some((key, value)) => {
                if seen.contains(key) {
                    Err("Duplicate TOTP parameter"@)
                } else {
                    let rest = ps.drop_first();
                    let seen2 = seen.push(key);
                    if key == "secret"@ {
                        match decoded_secret(vstd::utf8::encode_utf8(value)) {
                            Some(s) => applied(
                                rest,
                                seen2,
                                TokenView {
                                    secret: s,
                                    period: tok.period,
                                    digits: tok.digits,
                                    algorithm: tok.algorithm,
                                },
                            ),
                            None => Err("Invalid encoded TOTP secret"@),
                        }
                    } else if key == "period"@ {
                        match parse_unsigned(value, u64::MAX as nat) {
                            Some(n) => applied(
                                rest,
                                seen2,
                                TokenView {
                                    secret: tok.secret,
                                    period: n as u64,
                                    digits: tok.digits,
                                    algorithm: tok.algorithm,
                                },
                            ),
                            None => Err("Invalid TOTP period"@),
                        }
                    } else if key == "digits"@ {
                        match parse_unsigned(value, usize::MAX as nat) {
                            Some(n) => applied(
                                rest,
                                seen2,
                                TokenView {
                                    secret: tok.secret,
                                    period: tok.period,
                                    digits: n as usize,
                                    algorithm: tok.algorithm,
                                },
                            ),
                            None => Err("Invalid TOTP digits"@),
                        }
                    } else if key == "algorithm"@ {
                        applied(
                            rest,
                            seen2,
                            TokenView {
                                secret: tok.secret,
                                period: tok.period,
                                digits: tok.digits,
                                algorithm: upper(value),
                            },
                        )
                    } else if key == "counter"@ {
                        Err("HOTP counters are not supported"@)
                    } else if key == "issuer"@ {
                        applied(rest, seen2, tok)
                    } else {
                        Err("Unsupported TOTP parameter"@)
                    }
                }
            },
        }
    }
}

pub open spec fn is_base32(c: char) -> bool {
    ('A' <= c <= 'Z') || ('2' <= c <= '7') || c == '='
}

/// The final checks on a token: a Base32 secret, and a period, digits and algorithm that
/// oathtool is asked for.
pub open spec fn checked(tok: TokenView) -> Result<TokenView, Seq<char>> {
    if tok.secret.len() == 0 || exists|i: int|
        0 <= i < tok.secret.len() && !is_base32(#[trigger] tok.secret[i]) {
        Err("TOTP secret must use Base32 encoding"@)
    } else if !(1 <= tok.period <= 86400) || !(tok.digits == 6 || tok.digits == 8) || !(
    tok.algorithm == "SHA1"@ || tok.algorithm == "SHA256"@ || tok.algorithm == "SHA512"@) {
        Err("Use a 1–86400 second period, 6 or 8 digits, and SHA1, SHA256 or SHA512."@)
    } else {
        Ok(tok)
    }
}

/// The token of one OTP URI.
pub open spec fn parsed_uri(uri: Seq<char>) -> Result<TokenView, Seq<char>> {
    match strip_prefix(uri, "otpauth://totp/"@) {
        None => Err("Only TOTP is supported; HOTP counters are never advanced."@),
        Some(body) => match split_once(body, '?') {
            None => Err("Invalid TOTP URI"@),
            Some((label, query)) => {
                if label.len() == 0 || contains_char(uri, '#') || exists|i: int|
                    0 <= i < uri.len() && is_ctrl(#[trigger] uri[i]) {
                    Err("Invalid TOTP URI"@)
                } else {
                    match applied(split(query, '&'), seq![], default_token()) {
                        Ok(tok) => checked(tok),
                        Err(e) => Err(e),
                    }
                }
            },
        },
    }
}

/// The token of an entry: the one OTP URI among its lines.
pub open spec fn parsed(content: Seq<char>) -> Result<TokenView, Seq<char>> {
    let us = uris(lines(content));
    if us.len() == 0 {
        Err(
            "No OTP URI found. Add an otpauth://totp/... URI on its own line in Notes, or use pass otp append."@,
        )
    } else if us.len() > 1 {
        Err("Multiple OTP URIs found. Keep one token per entry."@)
    } else {
        parsed_uri(us[0])
    }
}

/// The lines of `ls` that hold an OTP URI, trimmed.
fn find_uris(ls: &Vec<Vec<char>>) -> (r: Vec<Vec<char>>)
    ensures
        views(r@) == uris(views(ls@)),
{
    let prefix = to_chars("otpauth://");
    let mut r: Vec<Vec<char>> = Vec::new();
    let mut i: usize = 0;
    assert(views(ls@).take(0) =~= seq![]);
    while i < ls.len()
        invariant
            i <= ls.len(),
            prefix@ == uri_prefix(),
            views(r@) == uris(views(ls@).take(i as int)),
        decreases ls.len() - i,
    {
        let t = trim_exec(&ls[i]);
        let ghost before = views(r@);
        proof {
            assert(views(ls@).take(i + 1).drop_last() =~= views(ls@).take(i as int));
            assert(views(ls@).take(i + 1).last() == ls@[i as int]@);
        }
        if starts_with_exec(&t, &prefix) {
            r.push(t);
            assert(views(r@) =~= before.push(t@));
        }
        i += 1;
    }
    assert(views(ls@).take(ls.len() as int) =~= views(ls@));
    r
}

/// Decodes a percent-encoded secret, as `decoded_secret` says.
fn decode_secret(value: &str) -> (r: Result<String, String>)
    ensures
        match decoded_secret(vstd::utf8::encode_utf8(value@)) {
            Some(s) => r matches Ok(x) && x@ == s,
            None => r matches Err(e) && e@ == "Invalid encoded TOTP secret"@,
        },
{
    let b = value.as_bytes();
    let ghost bs = b@;
    let mut out = String::new();
    let mut i: usize = 0;
    assert(bs.skip(0) =~= bs);
    while i < b.len()
        invariant
            i <= b.len(),
            bs == b@,
            bs == vstd::utf8::encode_utf8(value@),
            decoded_secret(bs) == match decoded_secret(bs.skip(i as int)) {
                Some(rest) => Some(out@ + rest),
                None => None::<Seq<char>>,
            },
        decreases b.len() - i,
    {
        let ghost rest = bs.skip(i as int);
        let ghost out0 = out@;
        let byte = b[i];
        if byte == 0x25 {
            if b.len() - i <= 2 {
                crate::text::wipe(&mut out);
                return Err("Invalid encoded TOTP secret".to_owned());
            }
            let high = hex_digit(b[i + 1]);
            let low = hex_digit(b[i + 2]);
            match (high, low) {
                (Some(h), Some(l)) => {
                    let v: u8 = h * 16 + l;
                    push_char(&mut out, to_ascii_upper(v as char));
                    assert(rest.skip(3) =~= bs.skip(i + 3));
                    i += 3;
                },
                _ => {
                    crate::text::wipe(&mut out);
                    return Err("Invalid encoded TOTP secret".to_owned());
                },
            }
        } else {
            push_char(&mut out, to_ascii_upper(byte as char));
            assert(rest.drop_first() =~= bs.skip(i + 1));
            i += 1;
        }
        proof {
            assert(out@.len() == out0.len() + 1);
            let ch = out@.last();
            assert(out@ =~= out0.push(ch));
            match decoded_secret(bs.skip(i as int)) {
                Some(x) => {
                    assert(out0 + (seq![ch] + x) =~= out@ + x);
                },
                None => {},
            }
        }
    }
    proof {
        assert(bs.skip(i as int) =~= Seq::<u8>::empty());
        assert(out@ + Seq::<char>::empty() =~= out@);
    }
    Ok(out)
}

/// The value of an ASCII hexadecimal digit.
fn hex_digit(b: u8) -> (r: Option<u8>)
    ensures
        match hex_value(b) {
            Some(v) => r == Some(v as u8),
            None => r is None,
        },
{
    if 0x30 <= b && b <= 0x39 {
        Some(b - 0x30)
    } else if 0x61 <= b && b <= 0x66 {
        Some(b - 0x61 + 10)
    } else if 0x41 <= b && b <= 0x46 {
        Some(b - 0x41 + 10)
    } else {
        None
    }
}

/// Reads the one TOTP token of an entry.
pub fn parse(content: &str) -> (r: Result<Token, String>)
    ensures
        match parsed(content@) {
            Ok(t) => r matches Ok(x) && x@ == t,
            Err(e) => r matches Err(x) && x@ == e,
        },
{
    let chars = to_chars(content);
    let ls = lines_exec(&chars);
    let us = find_uris(&ls);
    if us.len() == 0 {
        return Err(
            "No OTP URI found. Add an otpauth://totp/... URI on its own line in Notes, or use pass otp append.".to_owned(),
        );
    }
    if us.len() > 1 {
        return Err("Multiple OTP URIs found. Keep one token per entry.".to_owned());
    }
    assert(views(us@)[0] == us@[0]@);
    parse_uri(&us[0])
}

fn parse_uri(uri: &Vec<char>) -> (r: Result<Token, String>)
    ensures
        match parsed_uri(uri@) {
            Ok(t) => r matches Ok(x) && x@ == t,
            Err(e) => r matches Err(x) && x@ == e,
        },
{
    let body = match strip_prefix_exec(uri, "otpauth://totp/") {
        Some(b) => b,
        None => {
            return Err("Only TOTP is supported; HOTP counters are never advanced.".to_owned());
        },
    };
    let (label, query) = match split_once_exec(&body, '?') {
        Some(p) => p,
        None => {
            return Err("Invalid TOTP URI".to_owned());
        },
    };
    let mut bad = label.len() == 0;
    let mut i: usize = 0;
    while i < uri.len()
        invariant
            i <= uri.len(),
            bad == (label@.len() == 0 || exists|j: int|
                0 <= j < i && (uri@[j] == '#' || is_ctrl(#[trigger] uri@[j]))),
        decreases uri.len() - i,
    {
        if uri[i] == '#' || is_control(uri[i]) {
            bad = true;
        }
        i += 1;
    }
    proof {
        crate::text::lemma_find_char(uri@, '#');
        if !bad {
            assert(!contains_char(uri@, '#')) by {
                if contains_char(uri@, '#') {
                    let k = crate::text::find_char(uri@, '#')->0;
                    assert(uri@[k as int] == '#');
                }
            }
        } else if label@.len() != 0 {
            let j = choose|j: int| 0 <= j < uri.len() && (uri@[j] == '#' || is_ctrl(#[trigger] uri@[j]));
            if uri@[j] == '#' {
                assert(contains_char(uri@, '#'));
            }
        }
    }
    if bad {
        return Err("Invalid TOTP URI".to_owned());
    }
    let params = split_exec(&query, '&');
    let tok = match apply_params(&params) {
        Ok(t) => t,
        Err(e) => {
            return Err(e);
        },
    };
    check(tok)
}

/// Applies the URI parameters in order, as `applied` says.
fn apply_params(params: &Vec<Vec<char>>) -> (r: Result<Token, String>)
    ensures
        match applied(views(params@), seq![], default_token()) {
            Ok(t) => r matches Ok(x) && x@ == t,
            Err(e) => r matches Err(x) && x@ == e,
        },
{
    let mut tok = Token {
        secret: String::new(),
        period: 30,
        digits: 6,
        algorithm: "SHA1".to_owned(),
    };
    let mut seen: Vec<Vec<char>> = Vec::new();
    let mut i: usize = 0;
    assert(views(params@).skip(0) =~= views(params@));
    assert(views(seen@) =~= seq![]);
    while i < params.len()
        invariant
            i <= params.len(),
            applied(views(params@), seq![], default_token()) == applied(
                views(params@).skip(i as int),
                views(seen@),
                tok@,
            ),
        decreases params.len() - i,
    {
        let ghost ps = views(params@).skip(i as int);
        assert(ps[0] == params@[i as int]@);
        assert(ps.drop_first() =~= views(params@).skip(i + 1));
        let (key, value) = match split_once_exec(&params[i], '=') {
            Some(p) => p,
            None => {
                return Err("Invalid TOTP parameter".to_owned());
            },
        };
        assert(split_once(params@[i as int]@, '=') == Some((key@, value@)));
        let mut j: usize = 0;
        while j < seen.len()
            invariant
                j <= seen.len(),
                i < params.len(),
                ps == views(params@).skip(i as int),
                ps[0] == params@[i as int]@,
                split_once(params@[i as int]@, '=') == Some((key@, value@)),
                applied(views(params@), seq![], default_token()) == applied(
                    ps,
                    views(seen@),
                    tok@,
                ),
                forall|k: int| 0 <= k < j ==> views(seen@)[k] != key@,
            decreases seen.len() - j,
        {
            if eq(&seen[j], &key) {
                assert(views(seen@)[j as int] == key@);
                assert(views(seen@).contains(key@));
                return Err("Duplicate TOTP parameter".to_owned());
            }
            j += 1;
        }
        assert(!views(seen@).contains(key@));
        let ghost seen0 = views(seen@);
        let kstr = string_of(&key);
        let mut vstr = string_of(&value);
        if crate::text::is(&key, "secret") {
            let decoded = decode_secret(vstr.as_str());
            crate::text::wipe(&mut vstr);
            match decoded {
                Ok(s) => {
                    tok.secret = s;
                },
                Err(e) => {
                    return Err(e);
                },
            }
        } else if crate::text::is(&key, "period") {
            match parse_u64(&value) {
                Some(n) => {
                    tok.period = n;
                },
                None => {
                    return Err("Invalid TOTP period".to_owned());
                },
            }
        } else if crate::text::is(&key, "digits") {
            match parse_usize(&value) {
                Some(n) => {
                    tok.digits = n;
                },
                None => {
                    return Err("Invalid TOTP digits".to_owned());
                },
            }
        } else if crate::text::is(&key, "algorithm") {
            let mut up: Vec<char> = Vec::new();
            let mut k: usize = 0;
            while k < value.len()
                invariant
                    k <= value.len(),
                    up@ == upper(value@.take(k as int)),
                decreases value.len() - k,
            {
                up.push(to_ascii_upper(value[k]));
                k += 1;
                assert(up@ =~= upper(value@.take(k as int)));
            }
            assert(value@.take(value.len() as int) =~= value@);
            tok.algorithm = string_of(&up);
        } else if crate::text::is(&key, "counter") {
            return Err("HOTP counters are not supported".to_owned());
        } else if !crate::text::is(&key, "issuer") {
            return Err("Unsupported TOTP parameter".to_owned());
        }
        seen.push(key);
        assert(views(seen@) =~= seen0.push(kstr@));
        i += 1;
    }
    assert(views(params@).skip(i as int) =~= seq![]);
    Ok(tok)
}

/// The final checks of `checked`.
fn check(tok: Token) -> (r: Result<Token, String>)
    ensures
        match checked(tok@) {
            Ok(t) => r matches Ok(x) && x@ == t,
            Err(e) => r matches Err(x) && x@ == e,
        },
{
    let mut s = to_chars(tok.secret.as_str());
    let mut ok = s.len() > 0;
    let mut i: usize = 0;
    while i < s.len()
        invariant
            i <= s.len(),
            ok == (s@.len() > 0 && forall|j: int| 0 <= j < i ==> is_base32(#[trigger] s@[j])),
        decreases s.len() - i,
    {
        let c = s[i];
        if !(('A' <= c && c <= 'Z') || ('2' <= c && c <= '7') || c == '=') {
            ok = false;
        }
        i += 1;
    }
    crate::text::wipe_chars(&mut s);
    if !ok {
        return Err("TOTP secret must use Base32 encoding".to_owned());
    }
    let alg = to_chars(tok.algorithm.as_str());
    if !(1 <= tok.period && tok.period <= 86400) || !(tok.digits == 6 || tok.digits == 8) || !(
    crate::text::is(&alg, "SHA1") || crate::text::is(&alg, "SHA256") || crate::text::is(
        &alg,
        "SHA512",
    )) {
        return Err(
            "Use a 1–86400 second period, 6 or 8 digits, and SHA1, SHA256 or SHA512.".to_owned(),
        );
    }
    Ok(tok)
}


// ---------------------------------------------------------------------
// Generating codes
// ---------------------------------------------------------------------
/// The arguments that ask oathtool for a code of this token (the secret goes to its
/// standard input).
pub open spec fn oathtool_args(tok: TokenView) -> Seq<Seq<char>> {
    seq![
        "--totp="@ + tok.algorithm,
        "--base32"@,
        "--digits="@ + decimal(tok.digits as nat),
        "--time-step-size="@ + decimal(tok.period as nat) + "s"@,
        "-"@,
    ]
}

impl Token {
    pub fn oathtool_args(&self) -> (r: Vec<String>)
        ensures
            string_views(r@) == oathtool_args(self@),
    {
        let mut totp = "--totp=".to_owned();
        totp.append(self.algorithm.as_str());
        let mut digits = "--digits=".to_owned();
        push_decimal(&mut digits, self.digits as u64);
        let mut step = "--time-step-size=".to_owned();
        push_decimal(&mut step, self.period);
        push_char(&mut step, 's');
        let r = vec![totp, "--base32".to_owned(), digits, step, "-".to_owned()];
        proof {
            reveal_strlit("s");
            let a = oathtool_args(self@);
            assert(r@.len() == 5);
            assert(string_views(r@)[0] == a[0]);
            assert(string_views(r@)[1] == a[1]);
            assert(string_views(r@)[2] == a[2]);
            assert(string_views(r@)[3] == a[3]);
            assert(string_views(r@)[4] == a[4]);
            assert(string_views(r@) =~= a);
        }
        r
    }
}

/// Whether oathtool's output, trimmed, is a code of `digits` decimal digits.
pub open spec fn output_ok(digits: usize, out: Seq<char>) -> bool {
    trim(out).len() == digits && all_digits(trim(out))
}

/// The code in oathtool's output, or the error when it is not one.
pub fn check_output(digits: usize, output: &str) -> (r: Result<String, String>)
    ensures
        output_ok(digits, output@) ==> (r matches Ok(v) && v@ == trim(output@)),
        !output_ok(digits, output@) ==> (r matches Err(e) && e@ == "Invalid TOTP output"@),
{
    let chars = to_chars(output);
    let t = trim_exec(&chars);
    if t.len() != digits {
        return Err("Invalid TOTP output".to_owned());
    }
    let mut i: usize = 0;
    while i < t.len()
        invariant
            i <= t.len(),
            t@ == trim(output@),
            forall|j: int| 0 <= j < i ==> is_ascii_digit(#[trigger] t@[j]),
        decreases t.len() - i,
    {
        if !('0' <= t[i] && t[i] <= '9') {
            assert(!is_ascii_digit(t@[i as int]));
            return Err("Invalid TOTP output".to_owned());
        }
        i += 1;
    }
    Ok(string_of(&t))
}

/// The validity window `(valid_from, expires_at)` of a code that generation started at
/// `started` and finished at `now` (seconds since the epoch): the period that holds
/// `now`, or `None` when the two fall in different periods and the code may be stale.
pub open spec fn code_window(period: u64, started: u64, now: u64) -> Option<(u64, u64)> {
    if started / period != now / period {
        None
    } else {
        Some(((now - now % period) as u64, (now - now % period + period) as u64))
    }
}

pub fn window(period: u64, started: u64, now: u64) -> (r: Option<(u64, u64)>)
    requires
        period > 0,
        now - now % period + period <= u64::MAX,
    ensures
        r == code_window(period, started, now),
{
    if started / period != now / period {
        return None;
    }
    let rem = now % period;
    assert(rem <= now) by (nonlinear_arith)
        requires
            period > 0,
            rem == now % period,
    ;
    let from = now - rem;
    Some((from, from + period))
}

/// A generated code and the window, in seconds since the epoch, in which it is valid.
pub struct Code {
    pub value: String,
    pub valid_from: u64,
    pub expires_at: u64,
}

/// The nanoseconds a code has left at `now_secs` seconds and `now_nanos` nanoseconds
/// after the epoch, when `deadline_left` nanoseconds remain until its monotonic
/// deadline: none before the window opens, else the time until it closes, and no more
/// than the deadline allows.
pub open spec fn nanos_left(
    valid_from: u64,
    expires_at: u64,
    now_secs: u64,
    now_nanos: u32,
    deadline_left: u128,
) -> nat {
    let now = now_secs as nat * 1_000_000_000 + now_nanos as nat;
    let end = expires_at as nat * 1_000_000_000;
    if now_secs < valid_from {
        0
    } else {
        let until = if end > now {
            (end - now) as nat
        } else {
            0
        };
        if until < deadline_left {
            until
        } else {
            deadline_left as nat
        }
    }
}

impl Code {
    /// What is left of the code's validity at the given time, in nanoseconds.
    pub fn remaining_at(&self, now_secs: u64, now_nanos: u32, deadline_left: u128) -> (r: u128)
        ensures
            r == nanos_left(self.valid_from, self.expires_at, now_secs, now_nanos, deadline_left),
    {
        if now_secs < self.valid_from {
            return 0;
        }
        let now = now_secs as u128 * 1_000_000_000 + now_nanos as u128;
        let end = self.expires_at as u128 * 1_000_000_000;
        let until = if end > now {
            end - now
        } else {
            0
        };
        if until < deadline_left {
            until
        } else {
            deadline_left
        }
    }
}

/// How long a code with `remaining` nanoseconds left may stay on the clipboard, in
/// nanoseconds, when the clipboard is cleared after `clear_seconds`: the shorter of the
/// two, or nothing once no more than a whole second (in milliseconds) is left.
pub fn copy_lifetime(remaining: u128, clear_seconds: u64) -> (r: Option<u128>)
    ensures
        remaining < 1_001_000_000 ==> r is None,
        remaining >= 1_001_000_000 ==> r == Some(
            if remaining < clear_seconds as u128 * 1_000_000_000 {
                remaining
            } else {
                (clear_seconds as u128 * 1_000_000_000) as u128
            },
        ),
{
    if remaining < 1_001_000_000 {
        return None;
    }
    let clear = clear_seconds as u128 * 1_000_000_000;
    if remaining < clear {
        Some(remaining)
    } else {
        Some(clear)
    }
}

// ---------------------------------------------------------------------
// Laws of tokens and codes
// ---------------------------------------------------------------------
/// The messages that reading a token can fail with.
pub open spec fn is_token_error(e: Seq<char>) -> bool {
    ||| e == "No OTP URI found. Add an otpauth://totp/... URI on its own line in Notes, or use pass otp append."@
    ||| e == "Multiple OTP URIs found. Keep one token per entry."@
    ||| e == "Only TOTP is supported; HOTP counters are never advanced."@
    ||| e == "Invalid TOTP URI"@
    ||| e == "Invalid TOTP parameter"@
    ||| e == "Duplicate TOTP parameter"@
    ||| e == "Invalid encoded TOTP secret"@
    ||| e == "Invalid TOTP period"@
    ||| e == "Invalid TOTP digits"@
    ||| e == "HOTP counters are not supported"@
    ||| e == "Unsupported TOTP parameter"@
    ||| e == "TOTP secret must use Base32 encoding"@
    ||| e == "Use a 1–86400 second period, 6 or 8 digits, and SHA1, SHA256 or SHA512."@
}

proof fn lemma_applied_errors(ps: Seq<Seq<char>>)
    ensures
        forall|seen: Seq<Seq<char>>, tok: TokenView|
            #[trigger] applied(ps, seen, tok) is Err ==> is_token_error(
                applied(ps, seen, tok)->Err_0,
            ),
    decreases ps.len(),
{
    if ps.len() > 0 {
        let rest = ps.drop_first();
        lemma_applied_errors(rest);
        assert forall|seen: Seq<Seq<char>>, tok: TokenView|
            #[trigger] applied(ps, seen, tok) is Err implies is_token_error(
                applied(ps, seen, tok)->Err_0,
            ) by {
            match split_once(ps[0], '=') {
                Some((key, value)) => {
                    let seen2 = seen.push(key);
                    let t1 = TokenView { secret: tok.secret, period: tok.period, digits: tok.digits, algorithm: upper(value) };
                    assert(applied(rest, seen2, t1) is Err ==> is_token_error(applied(rest, seen2, t1)->Err_0));
                    assert(applied(rest, seen2, tok) is Err ==> is_token_error(applied(rest, seen2, tok)->Err_0));
                    match decoded_secret(vstd::utf8::encode_utf8(value)) {
                        Some(x) => {
                            let t2 = TokenView { secret: x, period: tok.period, digits: tok.digits, algorithm: tok.algorithm };
                            assert(applied(rest, seen2, t2) is Err ==> is_token_error(applied(rest, seen2, t2)->Err_0));
                        },
                        None => {},
                    }
                    match parse_unsigned(value, u64::MAX as nat) {
                        Some(n) => {
                            let t3 = TokenView { secret: tok.secret, period: n as u64, digits: tok.digits, algorithm: tok.algorithm };
                            assert(applied(rest, seen2, t3) is Err ==> is_token_error(applied(rest, seen2, t3)->Err_0));
                        },
                        None => {},
                    }
                    match parse_unsigned(value, usize::MAX as nat) {
                        Some(n) => {
                            let t4 = TokenView { secret: tok.secret, period: tok.period, digits: n as usize, algorithm: tok.algorithm };
                            assert(applied(rest, seen2, t4) is Err ==> is_token_error(applied(rest, seen2, t4)->Err_0));
                        },
                        None => {},
                    }
                },
                None => {},
            }
        }
    }
}

/// Reading a token fails only with one of the fixed messages: an error never holds
/// any part of the entry, such as its secret.
pub proof fn lemma_errors_never_leak(content: Seq<char>)
    ensures
        parsed(content) is Err ==> is_token_error(parsed(content)->Err_0),
{
    let us = uris(lines(content));
    if us.len() == 1 {
        let uri = us[0];
        match strip_prefix(uri, "otpauth://totp/"@) {
            Some(body) => match split_once(body, '?') {
                Some((label, query)) => {
                    lemma_applied_errors(split(query, '&'));
                    assert(applied(split(query, '&'), seq![], default_token()) is Err ==> is_token_error(
                        applied(split(query, '&'), seq![], default_token())->Err_0,
                    ));
                },
                None => {},
            },
            None => {},
        }
    }
}

/// A code generated in one period is valid from the start of that period, which holds
/// the moment it was made, for one period.
pub proof fn lemma_window_holds_now(period: u64, started: u64, now: u64)
    requires
        period > 0,
        now - now % period + period <= u64::MAX,
    ensures
        code_window(period, started, now) matches Some((from, to)) ==> from <= now < to
            && to == from + period && started / period == now / period,
{
    assert(now % period < period) by (nonlinear_arith)
        requires
            period > 0,
    ;
    assert(now % period <= now) by (nonlinear_arith)
        requires
            period > 0,
    ;
}

/// The arguments that oathtool gets carry the token: the first names its hash algorithm
/// after `--totp=` (so tokens of different algorithms never get the same first
/// argument), the third its digits and the fourth its period in seconds.
pub proof fn lemma_oathtool_args_carry_token(t: TokenView, u: TokenView)
    ensures
        oathtool_args(t).len() == 5,
        oathtool_args(t)[0].take(7) == "--totp="@,
        oathtool_args(t)[0].skip(7) == t.algorithm,
        oathtool_args(t)[1] == "--base32"@,
        oathtool_args(t)[2].skip(9) == decimal(t.digits as nat),
        oathtool_args(t)[3].skip(17) == decimal(t.period as nat) + "s"@,
        t.algorithm != u.algorithm ==> oathtool_args(t)[0] != oathtool_args(u)[0],
{
    reveal_strlit("--totp=");
    reveal_strlit("--digits=");
    reveal_strlit("--time-step-size=");
    let a = oathtool_args(t);
    let b = oathtool_args(u);
    assert(a[0].take(7) =~= "--totp="@);
    assert(a[0].skip(7) =~= t.algorithm);
    assert(b[0].skip(7) =~= u.algorithm);
    assert(a[2].skip(9) =~= decimal(t.digits as nat));
    assert(a[3].skip(17) =~= decimal(t.period as nat) + "s"@);
}

} // verus!
