use vstd::prelude::*;

verus! {

// ---------------------------------------------------------------------------
// Hex strings: the mathematical codec
// ---------------------------------------------------------------------------

pub open spec fn is_hex_digit(c: char) -> bool {
    let u = c as u32;
    (48 <= u && u <= 57) || (97 <= u && u <= 102) || (65 <= u && u <= 70)
}

/// Value of one hex digit (either case).
pub open spec fn hex_digit_val(c: char) -> nat {
    let u = c as u32;
    if 48 <= u && u <= 57 {
        (u - 48) as nat
    } else if 97 <= u && u <= 102 {
        (u - 87) as nat
    } else {
        (u - 55) as nat
    }
}

/// A string that decodes as hex: even length, hex digits throughout.
pub open spec fn is_valid_hex(s: Seq<char>) -> bool {
    s.len() % 2 == 0 && forall|i: int| 0 <= i < s.len() ==> is_hex_digit(#[trigger] s[i])
}

pub open spec fn hex_decode_spec(s: Seq<char>) -> Seq<u8> {
    Seq::new(
        (s.len() / 2) as nat,
        |i: int| (hex_digit_val(s[2 * i]) * 16 + hex_digit_val(s[2 * i + 1])) as u8,
    )
}

/// Lower-case hex digit for a value below 16.
pub open spec fn hex_char_lower(d: nat) -> char {
    if d < 10 {
        ((48 + d) as u8) as char
    } else {
        ((87 + d) as u8) as char
    }
}

pub open spec fn hex_encode_spec(b: Seq<u8>) -> Seq<char> {
    Seq::new(
        (2 * b.len()) as nat,
        |i: int|
            if i % 2 == 0 {
                hex_char_lower((b[i / 2] / 16) as nat)
            } else {
                hex_char_lower((b[i / 2] % 16) as nat)
            },
    )
}

/// Encoding always yields a decodable string, and decoding it gives the
/// bytes back.
pub proof fn lemma_hex_round_trip(b: Seq<u8>)
    ensures
        is_valid_hex(hex_encode_spec(b)),
        hex_decode_spec(hex_encode_spec(b)) =~= b,
{
    let s = hex_encode_spec(b);
    assert forall|i: int| 0 <= i < s.len() implies is_hex_digit(#[trigger] s[i]) by {
        if i % 2 == 0 {
            assert(b[i / 2] / 16 < 16);
        } else {
            assert(b[i / 2] % 16 < 16);
        }
    }
    assert forall|i: int| 0 <= i < b.len() implies hex_decode_spec(s)[i] == b[i] by {
        assert((2 * i) % 2 == 0);
        assert((2 * i + 1) % 2 == 1);
        assert((2 * i) / 2 == i);
        assert((2 * i + 1) / 2 == i);
        let hi = (b[i] / 16) as nat;
        let lo = (b[i] % 16) as nat;
        assert(hex_digit_val(hex_char_lower(hi)) == hi);
        assert(hex_digit_val(hex_char_lower(lo)) == lo);
        assert(hi * 16 + lo == b[i]);
    }
}

// ---------------------------------------------------------------------------
// The executable codec, delegated to the hex crate
// ---------------------------------------------------------------------------

/// Relies on hex::encode: two lower-case hex digits per byte, in byte order.
#[verifier::external_body]
pub(crate) fn hex_encode(data: &[u8]) -> (r: String)
    ensures
        r@ == hex_encode_spec(data@),
{
    hex::encode(data)
}

/// Relies on hex::decode: succeeds exactly on even-length strings of hex
/// digits (either case), pairing digits into bytes; rejects anything else.
#[verifier::external_body]
pub(crate) fn hex_decode(s: &str) -> (r: Option<Vec<u8>>)
    ensures
        r is Some <==> is_valid_hex(s@),
        r is Some ==> r->0@ == hex_decode_spec(s@),
{
    match hex::decode(s) {
        Ok(v) => Some(v),
        Err(_) => None,
    }
}

} // verus!
