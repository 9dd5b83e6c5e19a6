pub mod strutil;
pub mod hexcodec;
pub mod percent;
pub mod models;
pub mod hmac;
pub mod otp;
pub mod fsio;
pub mod laws;

pub use models::{Account, AccountError, HmacHash, OtpType, Parameters};
pub use hmac::{compute_hmac, create_token};
pub use otp::{compute_hotp, compute_otp_lifetime, compute_totp};
pub use fsio::{parse_data_file, parse_plain_file};

