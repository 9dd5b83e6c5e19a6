use vstd::prelude::*;

use crate::hexcodec::{hex_digit_val, is_hex_digit};
use vstd::utf8::char_u32_cast;

verus! {

// ---------------------------------------------------------------------------
// Percent-encoding and -decoding of labels and issuers
// ---------------------------------------------------------------------------

/// What percent-decoding (with lossy UTF-8 recovery) yields on input whose
/// decoding leaves ASCII: a fixed function of the input characters,
/// computed by the outside codec.
pub uninterp spec fn lossy_decoded_of(s: Seq<char>) -> Seq<char>;

/// What percent-encoding yields on input with non-ASCII characters: a fixed
/// function of the input characters, computed by the outside codec.
pub uninterp spec fn utf8_encoded_of(s: Seq<char>) -> Seq<char>;

pub open spec fn is_ascii_seq(s: Seq<char>) -> bool {
    forall|i: int| 0 <= i < s.len() ==> #[trigger] (s[i] as u32) < 128
}

pub open spec fn is_alnum(c: char) -> bool {
    let u = c as u32;
    (48 <= u && u <= 57) || (65 <= u && u <= 90) || (97 <= u && u <= 122)
}

pub open spec fn hex_char_upper(d: nat) -> char {
    if d < 10 {
        ((48 + d) as u8) as char
    } else {
        ((55 + d) as u8) as char
    }
}

/// One ASCII character as the encoder emits it: itself when alphanumeric,
/// otherwise a '%' escape with two upper-case hex digits.
pub open spec fn ascii_enc_char(c: char) -> Seq<char> {
    if is_alnum(c) {
        seq![c]
    } else {
        seq!['%', hex_char_upper(((c as u32) / 16) as nat), hex_char_upper(((c as u32) % 16) as nat)]
    }
}

/// The whole encoding of an all-ASCII string.
pub open spec fn ascii_percent_enc(s: Seq<char>) -> Seq<char>
    decreases s.len(),
{
    if s.len() == 0 {
        Seq::empty()
    } else {
        ascii_enc_char(s[0]) + ascii_percent_enc(s.skip(1))
    }
}

/// A '%' escape stands at the front of `s`.
pub open spec fn is_pct_escape(s: Seq<char>) -> bool {
    s.len() >= 3 && s[0] == '%' && is_hex_digit(s[1]) && is_hex_digit(s[2])
}

/// An ASCII string whose every '%' escape denotes an ASCII byte, so that its
/// percent-decoding is concrete: escapes become their bytes, everything else
/// passes through ('%' included, when no two hex digits follow it).
pub open spec fn ascii_decodable(s: Seq<char>) -> bool
    decreases s.len(),
{
    if s.len() == 0 {
        true
    } else if is_pct_escape(s) {
        hex_digit_val(s[1]) < 8 && ascii_decodable(s.skip(3))
    } else {
        (s[0] as u32) < 128 && ascii_decodable(s.skip(1))
    }
}

/// The percent-decoding of an `ascii_decodable` string.
pub open spec fn ascii_percent_dec(s: Seq<char>) -> Seq<char>
    decreases s.len(),
{
    if s.len() == 0 {
        Seq::empty()
    } else if is_pct_escape(s) {
        seq![((hex_digit_val(s[1]) * 16 + hex_digit_val(s[2])) as u8) as char] + ascii_percent_dec(
            s.skip(3),
        )
    } else {
        seq![s[0]] + ascii_percent_dec(s.skip(1))
    }
}

pub proof fn lemma_hex_char_upper_val(d: nat)
    requires
        d < 16,
    ensures
        is_hex_digit(hex_char_upper(d)),
        hex_digit_val(hex_char_upper(d)) == d,
        is_alnum(hex_char_upper(d)),
{
    if d < 10 {
        assert(((48 + d) as u8) as int == 48 + d);
        assert((((48 + d) as u8) as char) as u32 == 48 + d);
    } else {
        assert(((55 + d) as u8) as int == 55 + d);
        assert((((55 + d) as u8) as char) as u32 == 55 + d);
    }
}

/// Every character the encoder emits is alphanumeric or '%'.
pub proof fn lemma_enc_chars(s: Seq<char>)
    requires
        is_ascii_seq(s),
    ensures
        forall|i: int| 0 <= i < ascii_percent_enc(s).len() ==> (is_alnum(
            #[trigger] ascii_percent_enc(s)[i],
        ) || ascii_percent_enc(s)[i] == '%'),
        s.len() > 0 ==> ascii_percent_enc(s).len() > 0,
    decreases s.len(),
{
    if s.len() > 0 {
        let c = s[0];
        assert((s[0] as u32) < 128);
        let t = s.skip(1);
        assert(is_ascii_seq(t)) by {
            assert forall|i: int| 0 <= i < t.len() implies #[trigger] (t[i] as u32) < 128 by {
                assert(t[i] == s[i + 1]);
            }
        }
        lemma_enc_chars(t);
        let head = ascii_enc_char(c);
        assert forall|i: int| 0 <= i < head.len() implies (is_alnum(#[trigger] head[i]) || head[i]
            == '%') by {
            if !is_alnum(c) {
                lemma_hex_char_upper_val(((c as u32) / 16) as nat);
                lemma_hex_char_upper_val(((c as u32) % 16) as nat);
            }
        }
        let e = head + ascii_percent_enc(t);
        assert forall|i: int| 0 <= i < e.len() implies (is_alnum(#[trigger] e[i]) || e[i]
            == '%') by {
            if i < head.len() {
                assert(e[i] == head[i]);
            } else {
                assert(e[i] == ascii_percent_enc(t)[i - head.len()]);
            }
        }
    }
}

/// A '%'-free ASCII string decodes to itself.
pub proof fn lemma_dec_identity(t: Seq<char>)
    requires
        is_ascii_seq(t),
        forall|i: int| 0 <= i < t.len() ==> t[i] != '%',
    ensures
        ascii_decodable(t),
        ascii_percent_dec(t) == t,
    decreases t.len(),
{
    if t.len() > 0 {
        let r = t.skip(1);
        assert forall|i: int| 0 <= i < r.len() implies #[trigger] (r[i] as u32) < 128 && r[i]
            != '%' by {
            assert(r[i] == t[i + 1]);
        }
        lemma_dec_identity(r);
        assert(!is_pct_escape(t));
        assert(ascii_percent_dec(t) =~= t);
    }
}

/// Decoding undoes encoding, escape by escape: the encoding of an ASCII
/// string followed by anything decodable decodes to the string followed by
/// the rest's decoding.
pub proof fn lemma_enc_dec(s: Seq<char>, t: Seq<char>)
    requires
        is_ascii_seq(s),
        ascii_decodable(t),
    ensures
        ascii_decodable(ascii_percent_enc(s) + t),
        ascii_percent_dec(ascii_percent_enc(s) + t) == s + ascii_percent_dec(t),
    decreases s.len(),
{
    if s.len() == 0 {
        assert(ascii_percent_enc(s) + t =~= t);
        assert(s + ascii_percent_dec(t) =~= ascii_percent_dec(t));
    } else {
        let c = s[0];
        assert((s[0] as u32) < 128);
        let tail = s.skip(1);
        assert forall|i: int| 0 <= i < tail.len() implies #[trigger] (tail[i] as u32) < 128 by {
            assert(tail[i] == s[i + 1]);
        }
        lemma_enc_dec(tail, t);
        let rest = ascii_percent_enc(tail) + t;
        let full = ascii_percent_enc(s) + t;
        if is_alnum(c) {
            assert(full =~= seq![c] + rest);
            assert(c != '%');
            assert(!is_pct_escape(seq![c] + rest));
            assert((seq![c] + rest).skip(1) =~= rest);
            assert(ascii_percent_dec(full) =~= s + ascii_percent_dec(t));
        } else {
            let h1 = hex_char_upper(((c as u32) / 16) as nat);
            let h2 = hex_char_upper(((c as u32) % 16) as nat);
            lemma_hex_char_upper_val(((c as u32) / 16) as nat);
            lemma_hex_char_upper_val(((c as u32) % 16) as nat);
            assert(full =~= seq!['%', h1, h2] + rest);
            assert(full[0] == '%');
            assert(full[1] == h1);
            assert(full[2] == h2);
            assert(is_pct_escape(full));
            assert(hex_digit_val(full[1]) == ((c as u32) / 16) as nat);
            assert((((c as u32) / 16) as nat) < 8);
            assert(full.skip(3) =~= rest);
            assert(((hex_digit_val(full[1]) * 16 + hex_digit_val(full[2])) as u8) as char == c) by {
                assert((c as nat) / 16 * 16 + (c as nat) % 16 == c as nat);
                let x: nat = hex_digit_val(full[1]) * 16 + hex_digit_val(full[2]);
                assert(hex_digit_val(full[1]) == ((c as u32) / 16) as nat);
                assert(hex_digit_val(full[2]) == ((c as u32) % 16) as nat);
                assert(x == c as u32);
                assert(x < 128);
                assert(x as u8 == x);
                assert((x as u8) == c as u32);
                char_u32_cast(c, c as u32);
            }
            assert(ascii_percent_dec(full) =~= s + ascii_percent_dec(t));
        }
    }
}

/// What percent-decoding with lossy UTF-8 recovery yields: concrete where
/// the escapes all denote ASCII bytes, the outside codec's result elsewhere.
pub open spec fn percent_decoded_of(s: Seq<char>) -> Seq<char> {
    if ascii_decodable(s) {
        ascii_percent_dec(s)
    } else {
        lossy_decoded_of(s)
    }
}

/// What percent-encoding every byte outside `[A-Za-z0-9]` yields: concrete
/// on all-ASCII input, the outside codec's result elsewhere.
pub open spec fn percent_encoded_of(s: Seq<char>) -> Seq<char> {
    if is_ascii_seq(s) {
        ascii_percent_enc(s)
    } else {
        utf8_encoded_of(s)
    }
}

/// Relies on percent_encoding::percent_decode_str followed by
/// decode_utf8_lossy: '%' escapes become their bytes (a lone '%' passes
/// through), and undecodable UTF-8 is replaced, never an error. On input
/// whose escapes all denote ASCII bytes the result is fully determined.
#[verifier::external_body]
pub(crate) fn percent_decode_lossy(s: &str) -> (r: String)
    ensures
        r@ == percent_decoded_of(s@),
        !ascii_decodable(s@) ==> r@ == lossy_decoded_of(s@),
{
    percent_encoding::percent_decode_str(s).decode_utf8_lossy().into_owned()
}

/// Relies on percent_encoding::utf8_percent_encode with NON_ALPHANUMERIC:
/// every byte outside `[A-Za-z0-9]` becomes a '%' escape in upper-case hex.
/// On all-ASCII input the result is fully determined.
#[verifier::external_body]
pub(crate) fn percent_encode_non_alnum(s: &str) -> (r: String)
    ensures
        r@ == percent_encoded_of(s@),
        !is_ascii_seq(s@) ==> r@ == utf8_encoded_of(s@),
{
    percent_encoding::utf8_percent_encode(s, percent_encoding::NON_ALPHANUMERIC).to_string()
}

} // verus!
