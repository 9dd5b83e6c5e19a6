use otpauth::{
    compute_hotp, compute_otp_lifetime, compute_totp, create_token, parse_data_file,
    parse_plain_file, Account, AccountError, HmacHash, OtpType,
};

#[test]
fn otp_lifetime_full_window_at_boundary() {
    assert_eq!(compute_otp_lifetime(0, 30), 30);
    assert_eq!(compute_otp_lifetime(60, 30), 30);
    assert_eq!(compute_otp_lifetime(59, 30), 1);
    assert_eq!(compute_otp_lifetime(89, 30), 1);
}

#[test]
fn otp_lifetime_strictly_decreases_within_window() {
    let mut prev = compute_otp_lifetime(30, 30);
    for t in 31..60i64 {
        let cur = compute_otp_lifetime(t, 30);
        assert!(cur < prev);
        prev = cur;
    }
    assert_eq!(prev, 1);
}

#[test]
fn create_token_first_rfc_vector() {
    assert_eq!(create_token(), "b617318655057264e28bc0b6fb378c8ef146be00");
}

#[test]
fn hotp_pads_with_leading_zeros() {
    let hex_key = hex::encode("12345678901234567890");
    // The truncated RFC 4226 value at counter 1 is 1094287082; at nine
    // digits the code keeps its leading zero.
    assert_eq!(compute_hotp(&hex_key, 1, 9, HmacHash::SHA1), "094287082");
}

#[test]
fn hmac_invalid_hex_falls_back_to_zero_byte() {
    // "zz" is not hex: both the key and the message collapse to one zero
    // byte, so the result equals the well-formed "00"/"00" call.
    let a = otpauth::compute_hmac("zz", "zz", HmacHash::SHA1);
    let b = otpauth::compute_hmac("00", "00", HmacHash::SHA1);
    assert_eq!(a, b);
    assert_eq!(a.len(), 40);
}

#[test]
fn totp_round_trip_reparse() {
    let uri = "otpauth://totp/ACMECo:john.doe@email.com?\
               secret=HXDMVJECJJWSRB3HWIZR4IFUGFTMXBOZ&issuer=ACMECo&algorithm=SHA512&digits=8&period=60";
    let first = Account::parse(uri).unwrap();
    let rendered = first.to_uri_string();
    let second = Account::parse(&rendered).unwrap();
    assert_eq!(second.otp_type, first.otp_type);
    assert_eq!(second.label_issuer, first.label_issuer);
    assert_eq!(second.label_account_name, first.label_account_name);
    assert_eq!(second.parameters.secret_key, first.parameters.secret_key);
    assert_eq!(second.parameters.issuer, first.parameters.issuer);
    assert_eq!(second.parameters.hash_algorithm, first.parameters.hash_algorithm);
    assert_eq!(second.parameters.code_digits, first.parameters.code_digits);
    assert_eq!(second.parameters.step_period, first.parameters.step_period);
}

#[test]
fn hotp_round_trip_reparse() {
    let uri = "otpauth://hotp/ACME%20Co%3A%20%20%20john.doe@email.com?\
               secret=HXDMVJECJJWSRB3HWIZR4IFUGFTMXBOZ&issuer=ACME%20Co&counter=300";
    let first = Account::parse(uri).unwrap();
    let rendered = first.to_uri_string();
    let second = Account::parse(&rendered).unwrap();
    assert_eq!(second.otp_type, first.otp_type);
    assert_eq!(second.label_issuer, first.label_issuer);
    assert_eq!(second.label_account_name, first.label_account_name);
    assert_eq!(second.parameters.secret_key, first.parameters.secret_key);
    assert_eq!(second.parameters.issuer, first.parameters.issuer);
    assert_eq!(second.parameters.counter, first.parameters.counter);
}

#[test]
fn parse_rejects_two_unescaped_colons() {
    let uri = "otpauth://totp/a:b:c?secret=ABC&issuer=ACMECo";
    assert!(matches!(Account::parse(uri), Err(AccountError::Parsing(_))));
}

#[test]
fn parse_rejects_item_without_equals() {
    let uri = "otpauth://totp/ACMECo:john?secret=ABC&nonsense";
    assert!(matches!(Account::parse(uri), Err(AccountError::Parsing(_))));
}

#[test]
fn parse_rejects_empty_required_fields() {
    let no_issuer = "otpauth://totp/ACMECo:john?secret=ABC&issuer=";
    assert!(Account::parse(no_issuer).is_err());
    let no_secret = "otpauth://totp/ACMECo:john?issuer=ACMECo&secret=";
    assert!(Account::parse(no_secret).is_err());
}

#[test]
fn parse_defaults_on_bad_numeric_values() {
    let uri = "otpauth://totp/ACMECo:john?\
               secret=ABC&issuer=ACMECo&digits=notanumber&period=9999";
    let account = Account::parse(uri).unwrap();
    // Unparsable digits fall back to 6; an overflowing period falls back to 30.
    assert_eq!(account.parameters.code_digits, 6);
    assert_eq!(account.parameters.step_period, 30);
}

#[test]
fn parse_ignores_unknown_keys() {
    let uri = "otpauth://totp/ACMECo:john?secret=ABC&issuer=ACMECo&image=ignored";
    let account = Account::parse(uri).unwrap();
    assert_eq!(account.parameters.secret_key, "ABC");
    assert_eq!(account.parameters.issuer, "ACMECo");
}

#[test]
fn parse_unrecognized_algorithm_falls_back_to_sha1() {
    let uri = "otpauth://totp/ACMECo:john?secret=ABC&issuer=ACMECo&algorithm=MD5";
    let account = Account::parse(uri).unwrap();
    assert_eq!(account.parameters.hash_algorithm, HmacHash::SHA1);
}

#[test]
fn update_secret_key_changes_only_the_key() {
    let uri = "otpauth://totp/ACMECo:john.doe@email.com?\
               secret=HXDMVJECJJWSRB3HWIZR4IFUGFTMXBOZ&issuer=ACMECo";
    let mut account = Account::parse(uri).unwrap();
    account.update_secret_key(String::from("NEWKEY"));
    assert_eq!(account.parameters.secret_key, "NEWKEY");
    assert_eq!(account.parameters.issuer, "ACMECo");
    assert_eq!(account.label_account_name, "john.doe@email.com");
    assert_eq!(account.otp_type, OtpType::TOTP);
}

#[test]
fn plain_file_lines_parse_to_accounts() {
    let lines = vec![
        String::from("otpauth://totp/A:alice?secret=AAA&issuer=A"),
        String::from("otpauth://hotp/B:bob?secret=BBB&issuer=B&counter=7"),
    ];
    let accounts = parse_plain_file(&lines).unwrap();
    assert_eq!(accounts.len(), 2);
    assert_eq!(accounts[0].label_account_name, "alice");
    assert_eq!(accounts[1].parameters.counter, 7);
}

#[test]
fn plain_file_aborts_on_first_bad_line() {
    let lines = vec![
        String::from("otpauth://totp/A:alice?secret=AAA&issuer=A"),
        String::from("not a uri"),
    ];
    assert!(parse_plain_file(&lines).is_err());
}

#[test]
fn data_file_returns_iv_and_accounts() {
    let lines = vec![
        String::from("header"),
        String::from("0123456789abcdef"),
        String::from("otpauth://totp/A:alice?secret=AAA&issuer=A"),
    ];
    let (iv, accounts) = parse_data_file(&lines).unwrap();
    assert_eq!(iv, "0123456789abcdef");
    assert_eq!(accounts.len(), 1);
    assert_eq!(accounts[0].label_issuer, "A");
}

#[test]
fn totp_at_sixty_seconds_advances_the_step() {
    let hex_key = hex::encode("12345678901234567890");
    // Times 30..59 share the step of time 59; time 60 starts the next one.
    assert_eq!(
        compute_totp(&hex_key, 30, 8, HmacHash::SHA1, 30),
        compute_totp(&hex_key, 59, 8, HmacHash::SHA1, 30)
    );
    assert_ne!(
        compute_totp(&hex_key, 59, 8, HmacHash::SHA1, 30),
        compute_totp(&hex_key, 60, 8, HmacHash::SHA1, 30)
    );
}

#[test]
fn parse_error_messages_name_the_failure() {
    let e = Account::parse("otpauth://totp/A:a").unwrap_err();
    assert!(e.message().starts_with("malformed input: missing uri parameters:"));
    let e = Account::parse("otpauth:totp/A:a?secret=S&issuer=I").unwrap_err();
    assert!(e.message().starts_with("malformed input: missing protocol:"));
    let e = Account::parse("https://totp/A:a?secret=S&issuer=I").unwrap_err();
    assert!(e.message().starts_with("malformed input: wrong protocol:"));
    let e = Account::parse("otpauth://totp?secret=S&issuer=I").unwrap_err();
    assert!(e.message().starts_with("malformed input: missing otp type or label:"));
    let e = Account::parse("otpauth://xotp/A:a?secret=S&issuer=I").unwrap_err();
    assert!(e.message().starts_with("malformed input: wrong otp type:"));
    let e = Account::parse("otpauth://hotp/A:a?secret=S&issuer=I").unwrap_err();
    assert!(e.message().starts_with("malformed input: missing hotp counter:"));
    let e = Account::parse("otpauth://totp/a:b:c?secret=S&issuer=I").unwrap_err();
    assert!(e
        .message()
        .starts_with("malformed input: malformed input: invalid issuer field:"));
    let e = Account::parse("otpauth://totp/A:a?secret=S&junk").unwrap_err();
    assert!(e
        .message()
        .starts_with("malformed input: malformed input: please check the query parameters:"));
    let e = Account::parse("otpauth://totp/A:a?secret=S&issuer=").unwrap_err();
    assert!(e
        .message()
        .starts_with("malformed input: malformed input: required fields are empty:"));
}

#[test]
fn label_halves_are_trimmed() {
    // Encoded spaces around the name disappear; the issuer keeps its inner
    // space but loses the outer ones.
    let uri = "otpauth://totp/%20ACME%20Co%20%3A%20%20%20john%20doe%20?secret=S1&issuer=ACMECo";
    let account = Account::parse(uri).unwrap();
    assert_eq!(account.label_issuer, "ACME Co");
    assert_eq!(account.label_account_name, "john doe");
}

#[test]
fn counter_parses_signs_and_defaults() {
    let uri = "otpauth://hotp/A:a?secret=S&issuer=I&counter=+7";
    assert_eq!(Account::parse(uri).unwrap().parameters.counter, 7);
    let uri = "otpauth://hotp/A:a?secret=S&issuer=I&counter=-3";
    assert_eq!(Account::parse(uri).unwrap().parameters.counter, -3);
    // An unparsable counter falls back to the absent sentinel, which an
    // hotp account then rejects.
    let uri = "otpauth://hotp/A:a?secret=S&issuer=I&counter=abc";
    assert!(Account::parse(uri).is_err());
}

#[test]
fn later_duplicate_keys_win() {
    let uri = "otpauth://totp/A:a?secret=FIRST&issuer=I&secret=SECOND";
    assert_eq!(Account::parse(uri).unwrap().parameters.secret_key, "SECOND");
}

#[test]
fn totp_time_step_truncates_toward_zero() {
    let hex_key = hex::encode("12345678901234567890");
    // Times -29..=29 all sit in time step zero; -30 starts step -1.
    assert_eq!(
        compute_totp(&hex_key, -29, 8, HmacHash::SHA1, 30),
        compute_totp(&hex_key, 29, 8, HmacHash::SHA1, 30)
    );
    assert_eq!(
        compute_totp(&hex_key, -30, 8, HmacHash::SHA1, 30),
        compute_totp(&hex_key, -59, 8, HmacHash::SHA1, 30)
    );
    assert_ne!(
        compute_totp(&hex_key, -30, 8, HmacHash::SHA1, 30),
        compute_totp(&hex_key, 0, 8, HmacHash::SHA1, 30)
    );
}
