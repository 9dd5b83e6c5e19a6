use vstd::prelude::*;

use crate::hexcodec::{hex_decode, hex_decode_spec, hex_encode, hex_encode_spec, is_valid_hex};
use crate::models::HmacHash;

verus! {

/// Numeric identity of each keyed-hash variant, so that the digest of a
/// key and a message can be named per algorithm.
pub open spec fn alg_id(a: HmacHash) -> int {
    match a {
        HmacHash::SHA1 => 1,
        HmacHash::SHA256 => 2,
        HmacHash::SHA512 => 3,
    }
}

/// The HMAC digest of `key` and `msg` under the algorithm `alg`: a fixed
/// function of its three arguments, computed by the outside hash library.
pub uninterp spec fn hmac_of(alg: int, key: Seq<u8>, msg: Seq<u8>) -> Seq<u8>;

/// Relies on ring::hmac::sign (with a key made by ring::hmac::Key::new):
/// the tag is a function of the algorithm, key bytes and message bytes
/// alone, and is as long as the algorithm's digest (20, 32 or 64 bytes).
/// The length bounds keep ring away from its input-too-long panic.
#[verifier::external_body]
pub(crate) fn hmac_sign(algo: HmacHash, key: &[u8], msg: &[u8]) -> (r: Vec<u8>)
    requires
        key@.len() < 0x1000000000000000,
        msg@.len() < 0x1000000000000000,
    ensures
        r@ == hmac_of(alg_id(algo), key@, msg@),
        r@.len() == algo.spec_digest_len(),
{
    let a = match algo {
        HmacHash::SHA1 => ring::hmac::HMAC_SHA1_FOR_LEGACY_USE_ONLY,
        HmacHash::SHA256 => ring::hmac::HMAC_SHA256,
        HmacHash::SHA512 => ring::hmac::HMAC_SHA512,
    };
    let k = ring::hmac::Key::new(a, key);
    let tag = ring::hmac::sign(&k, msg);
    tag.as_ref().to_vec()
}

/// The bytes a hex parameter stands for: its decoding when it is valid hex,
/// and the documented permissive fallback of a single zero byte otherwise.
pub open spec fn hex_bytes_or_zero(s: Seq<char>) -> Seq<u8> {
    if is_valid_hex(s) {
        hex_decode_spec(s)
    } else {
        seq![0u8]
    }
}

/// What `compute_hmac` returns: the digest of the two decoded hex inputs,
/// re-encoded as lower-case hex.
pub open spec fn hmac_hex(key: Seq<char>, msg: Seq<char>, a: HmacHash) -> Seq<char> {
    hex_encode_spec(hmac_of(alg_id(a), hex_bytes_or_zero(key), hex_bytes_or_zero(msg)))
}

fn decode_or_zero(s: &str) -> (r: Vec<u8>)
    ensures
        r@ == hex_bytes_or_zero(s@),
        r@.len() <= s@.len() / 2 + 1,
{
    match hex_decode(s) {
        Some(v) => v,
        None => {
            let mut v: Vec<u8> = Vec::new();
            v.push(0u8);
            proof {
                assert(v@ =~= seq![0u8]);
            }
            v
        },
    }
}

/// The HMAC digest of a hex-encoded key over a hex-encoded message, itself
/// hex-encoded in lower case. Invalid hex on either side falls back to a
/// single zero byte rather than failing.
pub fn compute_hmac(hex_encoded_key: &str, hex_encoded_message: &str, hash_algorithm: HmacHash) -> (r:
    String)
    requires
        hex_encoded_key@.len() < 0x1000000000000000,
        hex_encoded_message@.len() < 0x1000000000000000,
    ensures
        r@ == hmac_hex(hex_encoded_key@, hex_encoded_message@, hash_algorithm),
        r@.len() == 2 * hash_algorithm.spec_digest_len(),
{
    let key = decode_or_zero(hex_encoded_key);
    let msg = decode_or_zero(hex_encoded_message);
    let tag = hmac_sign(hash_algorithm, key.as_slice(), msg.as_slice());
    hex_encode(tag.as_slice())
}

/// The spec and the key of the fixed demonstration token: the first RFC 2202
/// SHA-1 case, a 20-byte key of 0x0b bytes over the message "Hi There".
pub open spec fn token_key() -> Seq<u8> {
    Seq::new(20, |i: int| 0x0bu8)
}

pub open spec fn token_msg() -> Seq<u8> {
    seq![0x48u8, 0x69u8, 0x20u8, 0x54u8, 0x68u8, 0x65u8, 0x72u8, 0x65u8]
}

/// A fixed demonstration HMAC tag in hex: SHA-1 over a well-known key and
/// message pair.
pub fn create_token() -> (r: String)
    ensures
        r@ == hex_encode_spec(hmac_of(alg_id(HmacHash::SHA1), token_key(), token_msg())),
{
    let mut key: Vec<u8> = Vec::new();
    let mut i: usize = 0;
    while i < 20
        invariant
            i <= 20,
            key@ =~= Seq::new(i as nat, |j: int| 0x0bu8),
        decreases 20 - i,
    {
        key.push(0x0bu8);
        i += 1;
    }
    let mut msg: Vec<u8> = Vec::new();
    msg.push(0x48u8);
    msg.push(0x69u8);
    msg.push(0x20u8);
    msg.push(0x54u8);
    msg.push(0x68u8);
    msg.push(0x65u8);
    msg.push(0x72u8);
    msg.push(0x65u8);
    proof {
        assert(key@ =~= token_key());
        assert(msg@ =~= token_msg());
    }
    let tag = hmac_sign(HmacHash::SHA1, key.as_slice(), msg.as_slice());
    hex_encode(tag.as_slice())
}

} // verus!
