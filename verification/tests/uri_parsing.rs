use otpauth::{Account, HmacHash, OtpType};

#[test]
fn parse_uri_all_params() {
    let uri = "otpauth://totp/ACMECo:john.doe@email.com?\
               secret=HXDMVJECJJWSRB3HWIZR4IFUGFTMXBOZ&issuer=ACMECo&algorithm=SHA512&digits=8&period=60";
    let test_account = match Account::parse(uri) {
        Ok(x) => x,
        Err(e) => panic!("{}", e.message()),
    };
    assert_eq!(test_account.otp_type, OtpType::TOTP);
    assert_eq!(test_account.label_issuer, "ACMECo");
    assert_eq!(test_account.label_account_name, "john.doe@email.com");
    assert_eq!(
        test_account.parameters.secret_key,
        "HXDMVJECJJWSRB3HWIZR4IFUGFTMXBOZ"
    );
    assert_eq!(test_account.parameters.issuer, "ACMECo");
    assert_eq!(test_account.parameters.hash_algorithm, HmacHash::SHA512);
    assert_eq!(test_account.parameters.code_digits, 8);
    assert_eq!(test_account.parameters.step_period, 60);
}

#[test]
#[should_panic]
fn parse_uri_missing_params() {
    let uri = "otpauth://totp/ACMECo:john.doe@email.com";
    match Account::parse(uri) {
        Ok(x) => x,
        Err(e) => panic!("{}", e.message()),
    };
}

#[test]
fn parse_uri_required_params() {
    let uri = "otpauth://totp/ACMECo:john.doe@email.com?\
               secret=HXDMVJECJJWSRB3HWIZR4IFUGFTMXBOZ&issuer=ACMECo";
    let test_account = match Account::parse(uri) {
        Ok(x) => x,
        Err(e) => panic!("{}", e.message()),
    };
    assert_eq!(test_account.otp_type, OtpType::TOTP);
    assert_eq!(test_account.label_issuer, "ACMECo");
    assert_eq!(test_account.label_account_name, "john.doe@email.com");
    assert_eq!(
        test_account.parameters.secret_key,
        "HXDMVJECJJWSRB3HWIZR4IFUGFTMXBOZ"
    );
    assert_eq!(test_account.parameters.issuer, "ACMECo");
    assert_eq!(test_account.parameters.hash_algorithm, HmacHash::SHA1);
    assert_eq!(test_account.parameters.code_digits, 6);
    assert_eq!(test_account.parameters.step_period, 30);
}

#[test]
fn parse_uri_label_percentage_encoded() {
    let uri = "otpauth://totp/ACME%20Co%3A%20%20%20john.doe@email.com?\
               secret=HXDMVJECJJWSRB3HWIZR4IFUGFTMXBOZ&issuer=ACME%20Co";
    let test_account = match Account::parse(uri) {
        Ok(x) => x,
        Err(e) => panic!("{}", e.message()),
    };
    assert_eq!(test_account.label_issuer, "ACME Co");
    assert_eq!(test_account.label_account_name, "john.doe@email.com");
    assert_eq!(test_account.parameters.issuer, "ACME Co");
}

#[test]
fn parse_uri_label_issuer_missing() {
    let uri = "otpauth://totp/john.doe@email.com?\
               secret=HXDMVJECJJWSRB3HWIZR4IFUGFTMXBOZ&issuer=ACME%20Co";
    let test_account = match Account::parse(uri) {
        Ok(x) => x,
        Err(e) => panic!("{}", e.message()),
    };
    assert_eq!(test_account.label_issuer, "");
    assert_eq!(test_account.label_account_name, "john.doe@email.com");
    assert_eq!(test_account.parameters.issuer, "ACME Co");
}

#[test]
#[should_panic]
fn parse_uri_malformed_otp_type() {
    let uri = "otpauth://xotp/ACMECo:john.doe@email.com?\
               secret=HXDMVJECJJWSRB3HWIZR4IFUGFTMXBOZ&issuer=ACMECo";
    match Account::parse(uri) {
        Ok(x) => x,
        Err(e) => panic!("{}", e.message()),
    };
}

#[test]
#[should_panic]
fn parse_uri_malformed_protocol() {
    let uri = "https://totp/ACMECo:john.doe@email.com?\
               secret=HXDMVJECJJWSRB3HWIZR4IFUGFTMXBOZ&issuer=ACMECo";
    match Account::parse(uri) {
        Ok(x) => x,
        Err(e) => panic!("{}", e.message()),
    };
}

#[test]
#[should_panic]
fn parse_uri_hotp_counter_missing() {
    let uri = "otpauth://hotp/ACMECo:john.doe@email.com?\
               secret=HXDMVJECJJWSRB3HWIZR4IFUGFTMXBOZ&issuer=ACMECo";
    match Account::parse(uri) {
        Ok(x) => x,
        Err(e) => panic!("{}", e.message()),
    };
}

#[test]
fn totp_account_to_string() {
    let uri = "otpauth://totp/ACME%20Co%3A%20%20%20john.doe@email.com?\
               secret=HXDMVJECJJWSRB3HWIZR4IFUGFTMXBOZ&issuer=ACME%20Co";
    let test_account = match Account::parse(uri) {
        Ok(x) => x,
        Err(e) => panic!("{}", e.message()),
    };
    assert_eq!(
        test_account.to_uri_string(),
        "otpauth://totp/ACME%20Co:john.doe@email.com?\
        secret=HXDMVJECJJWSRB3HWIZR4IFUGFTMXBOZ&issuer=ACME%20Co&algorithm=SHA1&digits=6&period=30"
    );
}

#[test]
fn hotp_account_to_string() {
    let uri = "otpauth://hotp/ACME%20Co%3A%20%20%20john.doe@email.com?\
               secret=HXDMVJECJJWSRB3HWIZR4IFUGFTMXBOZ&issuer=ACME%20Co&counter=300";
    let test_account = match Account::parse(uri) {
        Ok(x) => x,
        Err(e) => panic!("{}", e.message()),
    };
    assert_eq!(
        test_account.to_uri_string(),
        "otpauth://hotp/ACME%20Co:john.doe@email.com?\
         secret=HXDMVJECJJWSRB3HWIZR4IFUGFTMXBOZ&issuer=ACME%20Co&algorithm=SHA1&digits=6&counter=300"
    );
}
