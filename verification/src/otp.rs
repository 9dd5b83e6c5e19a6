use vstd::prelude::*;
use vstd::string::*;

use crate::hexcodec::{hex_decode, hex_encode, hex_encode_spec, lemma_hex_round_trip};
use crate::hmac::{alg_id, compute_hmac, hex_bytes_or_zero, hmac_of};
use crate::models::HmacHash;
use crate::strutil::{dec_digits, u64_to_dec, zero_pad, zero_pad_exec};

verus! {

/// The eight bytes of a counter, most significant first, as RFC 4226 packs
/// it into the HMAC message.
pub open spec fn be64(c: i64) -> Seq<u8> {
    Seq::new(8, |i: int| (((c as u64) >> ((8 * (7 - i)) as u64)) & 0xff) as u8)
}

fn be64_bytes(counter: i64) -> (v: Vec<u8>)
    ensures
        v@ == be64(counter),
{
    let u: u64 = #[verifier::truncate] (counter as u64);
    let mut v: Vec<u8> = Vec::new();
    let mut j: usize = 0;
    while j < 8
        invariant
            j <= 8,
            v@.len() == j,
            forall|i: int| 0 <= i < j ==> v@[i] == (((u) >> ((8 * (7 - i)) as u64)) & 0xff) as u8,
        decreases 8 - j,
    {
        let sh: u64 = (8 * (7 - j)) as u64;
        proof {
            assert(((u >> sh) & 0xff) < 256) by (bit_vector);
        }
        v.push(((u >> sh) & 0xff) as u8);
        j += 1;
    }
    proof {
        assert(v@ =~= be64(counter));
    }
    v
}

/// RFC 4226 dynamic truncation: the low nibble of the last digest byte picks
/// an offset, and four bytes from there compose a 31-bit big-endian value.
pub open spec fn dyn_trunc(mac: Seq<u8>) -> u32
    recommends
        mac.len() > 0,
        (mac.last() & 0xf) + 4 <= mac.len(),
{
    let off = (mac.last() & 0xf) as int;
    (((mac[off] & 0x7f) as u32) << 24u32) | ((mac[off + 1] as u32) << 16u32) | ((mac[off
        + 2] as u32) << 8u32) | (mac[off + 3] as u32)
}

/// Ten to the `n`th.
pub open spec fn pow10(n: nat) -> nat
    decreases n,
{
    if n == 0 {
        1
    } else {
        10 * pow10((n - 1) as nat)
    }
}

proof fn lemma_pow10_bound(n: nat)
    requires
        n <= 9,
    ensures
        pow10(n) <= 1000000000,
        n <= 8 ==> pow10(n) <= 100000000,
        pow10(n) >= 1,
{
    assert(pow10(0) == 1);
    assert(pow10(1) == 10);
    assert(pow10(2) == 100);
    assert(pow10(3) == 1000);
    assert(pow10(4) == 10000);
    assert(pow10(5) == 100000);
    assert(pow10(6) == 1000000);
    assert(pow10(7) == 10000000);
    assert(pow10(8) == 100000000);
    assert(pow10(9) == 1000000000);
}

fn pow10_u32(d: u8) -> (r: u32)
    requires
        d <= 9,
    ensures
        r == pow10(d as nat),
        r >= 1,
{
    let mut r: u32 = 1;
    let mut k: u8 = 0;
    while k < d
        invariant
            k <= d <= 9,
            r == pow10(k as nat),
        decreases d - k,
    {
        proof {
            lemma_pow10_bound(k as nat);
        }
        r = r * 10;
        k += 1;
    }
    proof {
        lemma_pow10_bound(d as nat);
    }
    r
}

/// The HOTP code for a hex key, a counter, and a digit count: dynamic
/// truncation of the digest, reduced mod 10^digits, zero-padded to exactly
/// `digits` characters.
pub open spec fn hotp_code(key: Seq<char>, counter: i64, digits: u8, a: HmacHash) -> Seq<char> {
    let mac = hmac_of(alg_id(a), hex_bytes_or_zero(key), be64(counter));
    zero_pad(dec_digits((dyn_trunc(mac) as nat % pow10(digits as nat))), digits as nat)
}

/// The HOTP passcode of `key` (hex-encoded) at `counter`, rendered as
/// exactly `digits` decimal characters.
pub fn compute_hotp(key: &str, counter: i64, digits: u8, hash_algorithm: HmacHash) -> (r: String)
    requires
        digits <= 9,
        key@.len() < 0x1000000000000000,
    ensures
        r@ == hotp_code(key@, counter, digits, hash_algorithm),
        r@.len() >= digits,
{
    let packed = be64_bytes(counter);
    let hex_encoded_counter = hex_encode(packed.as_slice());
    proof {
        lemma_hex_round_trip(packed@);
        assert(hex_bytes_or_zero(hex_encoded_counter@) == be64(counter));
    }
    let hex_encoded_mac = compute_hmac(key, hex_encoded_counter.as_str(), hash_algorithm);
    let mac_opt = hex_decode(hex_encoded_mac.as_str());
    proof {
        lemma_hex_round_trip(
            hmac_of(alg_id(hash_algorithm), hex_bytes_or_zero(key@), be64(counter)),
        );
    }
    let mac = mac_opt.unwrap();
    let ghost mac_seq = hmac_of(alg_id(hash_algorithm), hex_bytes_or_zero(key@), be64(counter));
    proof {
        assert(mac@ =~= mac_seq);
    }
    let last = mac[mac.len() - 1];
    let offset = (last & 0xf) as usize;
    proof {
        assert((last & 0xf) < 16) by (bit_vector);
    }
    let b0 = mac[offset] & 0x7f;
    let truncated: u32 = ((b0 as u32) << 24u32) | ((mac[offset + 1] as u32) << 16u32) | ((mac[offset
        + 2] as u32) << 8u32) | (mac[offset + 3] as u32);
    proof {
        assert(truncated == dyn_trunc(mac_seq));
    }
    let modulus = pow10_u32(digits);
    let code = truncated % modulus;
    let rendered = u64_to_dec(code as u64);
    zero_pad_exec(rendered, digits)
}

/// Integer division truncating toward zero, as Rust's `/` divides.
pub open spec fn trunc_div(a: int, b: int) -> int {
    if a >= 0 {
        a / b
    } else {
        -((-a) / b)
    }
}

/// The TOTP passcode at Unix time `time`: the HOTP of the time step
/// `time / step_period`, truncated toward zero.
pub fn compute_totp(
    key: &str,
    time: i64,
    digits: u8,
    hash_algorithm: HmacHash,
    step_period: u8,
) -> (r: String)
    requires
        digits <= 9,
        step_period > 0,
        key@.len() < 0x1000000000000000,
    ensures
        r@ == hotp_code(
            key@,
            trunc_div(time as int, step_period as int) as i64,
            digits,
            hash_algorithm,
        ),
        r@.len() >= digits,
{
    let p = step_period as u64;
    let timestep: i64 = if time >= 0 {
        ((time as u64) / p) as i64
    } else {
        let mag: u64 = if time == i64::MIN {
            0x8000_0000_0000_0000u64
        } else {
            (-time) as u64
        };
        proof {
            assert(mag == -(time as int));
        }
        let q = mag / p;
        if q == 0x8000_0000_0000_0000u64 {
            i64::MIN
        } else {
            -(q as i64)
        }
    };
    proof {
        assert(timestep == trunc_div(time as int, step_period as int));
    }
    compute_hotp(key, timestep, digits, hash_algorithm)
}

/// Seconds left in the current TOTP window.
pub open spec fn otp_lifetime_spec(time: int, p: int) -> int {
    p - time % p
}

/// How many seconds the passcode of the current window remains valid:
/// the full period at a window boundary, down to one second just before
/// the next boundary.
pub fn compute_otp_lifetime(time: i64, step_period: u8) -> (r: u8)
    requires
        time >= 0,
        step_period > 0,
    ensures
        r == otp_lifetime_spec(time as int, step_period as int),
        1 <= r <= step_period,
{
    let t = time as u64;
    let p = step_period as u64;
    let rem = (t % p) as u8;
    proof {
        assert(rem == (time as int) % (step_period as int));
    }
    step_period - rem
}

/// Within one step period, the remaining lifetime strictly shrinks as the
/// time advances inside the window: it is the whole period at the window's
/// start and one second at its last instant.
pub proof fn lemma_otp_lifetime_window(t1: int, t2: int, p: int)
    requires
        p > 0,
        t1 >= 0,
        t2 >= 0,
        t1 % p < t2 % p,
    ensures
        otp_lifetime_spec(t2, p) < otp_lifetime_spec(t1, p),
        t1 % p == 0 ==> otp_lifetime_spec(t1, p) == p,
        t2 % p == p - 1 ==> otp_lifetime_spec(t2, p) == 1,
{
}

} // verus!
