use otpauth::{compute_hotp, compute_totp, HmacHash};

static TOTP_TIME_LIST: [i64; 6] = [59, 1111111109, 1111111111, 1234567890, 2000000000, 20000000000];

#[test]
fn rfc_hotp_sha1() {
    let ascii_key = "12345678901234567890";
    let hex_key = hex::encode(ascii_key);
    let code_digits = 6;
    let hash_algorithm = HmacHash::SHA1;
    let expected_otp_list = [
        "755224", "287082", "359152", "969429", "338314", "254676", "287922", "162583", "399871",
        "520489",
    ];
    for (counter, otp) in expected_otp_list.into_iter().enumerate() {
        let counter_num: i64 = counter.try_into().unwrap();
        assert_eq!(
            otp,
            compute_hotp(&hex_key, counter_num, code_digits, hash_algorithm)
        );
    }
}

#[test]
fn rfc_totp_sha1() {
    let ascii_key = "12345678901234567890";
    let hex_key = hex::encode(ascii_key);
    let code_digits = 8;
    let hash_algorithm = HmacHash::SHA1;
    let step_period = 30;
    let expected_otp_list = [
        "94287082", "07081804", "14050471", "89005924", "69279037", "65353130",
    ];
    for (time, otp) in TOTP_TIME_LIST.into_iter().zip(expected_otp_list.into_iter()) {
        assert_eq!(
            otp,
            compute_totp(&hex_key, time, code_digits, hash_algorithm, step_period)
        );
    }
}

#[test]
fn rfc_totp_sha256() {
    let ascii_key = "12345678901234567890\
                     123456789012";
    let hex_key = hex::encode(ascii_key);
    let code_digits = 8;
    let hash_algorithm = HmacHash::SHA256;
    let step_period = 30;
    let expected_otp_list = [
        "46119246", "68084774", "67062674", "91819424", "90698825", "77737706",
    ];
    for (time, otp) in TOTP_TIME_LIST.into_iter().zip(expected_otp_list.into_iter()) {
        assert_eq!(
            otp,
            compute_totp(&hex_key, time, code_digits, hash_algorithm, step_period)
        );
    }
}

#[test]
fn rfc_totp_sha512() {
    let ascii_key = "12345678901234567890\
                     12345678901234567890\
                     12345678901234567890\
                     1234";
    let hex_key = hex::encode(ascii_key);
    let code_digits = 8;
    let hash_algorithm = HmacHash::SHA512;
    let step_period = 30;
    let expected_otp_list = [
        "90693936", "25091201", "99943326", "93441116", "38618901", "47863826",
    ];
    for (time, otp) in TOTP_TIME_LIST.into_iter().zip(expected_otp_list.into_iter()) {
        assert_eq!(
            otp,
            compute_totp(&hex_key, time, code_digits, hash_algorithm, step_period)
        );
    }
}
