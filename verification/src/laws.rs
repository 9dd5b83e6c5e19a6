use vstd::prelude::*;

use crate::models::{
    account_parse, apply_item, apply_item_opt, fold_query, init_acc, query_canonical, query_result,
    uri_spec, Account, HmacHash, OtpType, Parameters, QueryAcc,
};
use crate::percent::{
    ascii_decodable, ascii_percent_dec, ascii_percent_enc, is_alnum, is_ascii_seq, lemma_dec_identity,
    lemma_enc_chars, lemma_enc_dec, percent_decoded_of, percent_encoded_of,
};
use crate::strutil::{
    count_char, dec_digits, first_ix, first_sub_ix, i64_dec_digits, is_digit,
    lemma_count_char_concat, lemma_count_char_zero, lemma_dec_digits_props, lemma_first_ix,
    lemma_first_ix_concat, lemma_first_ix_is, lemma_first_sub_ix_is, lemma_i64_dec_digits_chars,
    lemma_i64_parse_round, lemma_uint_parse_round, matches_at, trim_spec,
};

verus! {

/// `c` occurs nowhere in `s`.
pub open spec fn free_of(s: Seq<char>, c: char) -> bool {
    forall|j: int| 0 <= j < s.len() ==> s[j] != c
}

proof fn lemma_free_of_concat(x: Seq<char>, y: Seq<char>, c: char)
    requires
        free_of(x, c),
        free_of(y, c),
    ensures
        free_of(x + y, c),
{
    assert forall|j: int| 0 <= j < (x + y).len() implies (x + y)[j] != c by {
        if j < x.len() {
            assert((x + y)[j] == x[j]);
        } else {
            assert((x + y)[j] == y[j - x.len()]);
        }
    }
}

proof fn lemma_seq_ne_at(a: Seq<char>, b: Seq<char>, i: int)
    requires
        0 <= i < a.len(),
        0 <= i < b.len(),
        a[i] != b[i],
    ensures
        a != b,
{
    if a == b {
        assert(a[i] == b[i]);
    }
}

proof fn lemma_seq_ne_len(a: Seq<char>, b: Seq<char>)
    requires
        a.len() != b.len(),
    ensures
        a != b,
{
    if a == b {
        assert(a.len() == b.len());
    }
}

/// The encoder's output never holds a separator: every character is
/// alphanumeric or '%'.
proof fn lemma_enc_free(s: Seq<char>, c: char)
    requires
        is_ascii_seq(s),
        !is_alnum(c),
        c != '%',
    ensures
        free_of(ascii_percent_enc(s), c),
{
    lemma_enc_chars(s);
}

/// Digits are never separators.
proof fn lemma_digits_free(s: Seq<char>, c: char)
    requires
        forall|j: int| 0 <= j < s.len() ==> is_digit(#[trigger] s[j]),
        !is_digit(c),
    ensures
        free_of(s, c),
{
}

/// One `key=value&` step of the fold.
proof fn lemma_fold_item_mid(k: Seq<char>, v: Seq<char>, rest: Seq<char>, acc: QueryAcc)
    requires
        free_of(k, '&'),
        free_of(k, '='),
        free_of(v, '&'),
    ensures
        fold_query(k + seq!['='] + v + seq!['&'] + rest, acc) == fold_query(
            rest,
            apply_item(acc, k, v),
        ),
{
    let item = k + seq!['='] + v;
    let rem = k + seq!['='] + v + seq!['&'] + rest;
    assert(rem =~= item + (seq!['&'] + rest));
    assert(free_of(seq!['='], '&'));
    lemma_free_of_concat(k, seq!['='], '&');
    lemma_free_of_concat(k + seq!['='], v, '&');
    assert(free_of(item, '&'));
    lemma_first_ix_is(seq!['&'] + rest, '&', 0);
    lemma_first_ix_concat(item, seq!['&'] + rest, '&');
    let amp = first_ix(rem, '&');
    assert(amp == item.len());
    assert(rem.take(amp) =~= item);
    assert(rem.skip(amp + 1) =~= rest);
    lemma_first_ix_is(seq!['='] + v, '=', 0);
    lemma_first_ix_concat(k, seq!['='] + v, '=');
    assert(item =~= k + (seq!['='] + v));
    let e = first_ix(item, '=');
    assert(e == k.len());
    assert(item.take(e) =~= k);
    assert(item.skip(e + 1) =~= v);
    assert(apply_item_opt(acc, item) == Some(apply_item(acc, k, v)));
}

/// The last `key=value` item of the fold.
proof fn lemma_fold_item_last(k: Seq<char>, v: Seq<char>, acc: QueryAcc)
    requires
        free_of(k, '&'),
        free_of(k, '='),
        free_of(v, '&'),
    ensures
        fold_query(k + seq!['='] + v, acc) == Some(apply_item(acc, k, v)),
{
    let item = k + seq!['='] + v;
    assert(free_of(seq!['='], '&'));
    lemma_free_of_concat(k, seq!['='], '&');
    lemma_free_of_concat(k + seq!['='], v, '&');
    assert(free_of(item, '&'));
    lemma_first_ix(item, '&');
    if first_ix(item, '&') != -1 {
        assert(false);
    }
    lemma_first_ix_is(seq!['='] + v, '=', 0);
    lemma_first_ix_concat(k, seq!['='] + v, '=');
    assert(item =~= k + (seq!['='] + v));
    let e = first_ix(item, '=');
    assert(e == k.len());
    assert(item.take(e) =~= k);
    assert(item.skip(e + 1) =~= v);
}

/// Folding the canonical query of `p` back recovers every field, with the
/// issuer still in its encoded form.
#[verifier::rlimit(80)]
proof fn lemma_query_round_trip(p: Parameters, t: OtpType)
    requires
        is_ascii_seq(p.issuer@),
        p.issuer@.len() > 0,
        p.secret_key@.len() > 0,
        free_of(p.secret_key@, '&'),
        t is HOTP ==> p.step_period == 30,
        t is TOTP ==> p.counter == -1i64,
    ensures
        query_result(query_canonical(p, t)) == Some(
            (QueryAcc {
                secret: p.secret_key@,
                issuer: ascii_percent_enc(p.issuer@),
                algorithm: p.hash_algorithm,
                digits: p.code_digits,
                counter: p.counter,
                period: p.step_period,
            }),
        ),
{
    reveal_strlit("secret=");
    reveal_strlit("secret");
    reveal_strlit("&issuer=");
    reveal_strlit("issuer");
    reveal_strlit("&algorithm=");
    reveal_strlit("algorithm");
    reveal_strlit("&digits=");
    reveal_strlit("digits");
    reveal_strlit("&counter=");
    reveal_strlit("counter");
    reveal_strlit("&period=");
    reveal_strlit("period");
    reveal_strlit("SHA1");
    reveal_strlit("SHA256");
    reveal_strlit("SHA512");
    let s_val = p.secret_key@;
    let e_val = ascii_percent_enc(p.issuer@);
    let a_val = p.hash_algorithm.spec_name();
    let d_val = dec_digits(p.code_digits as nat);
    let last_k: Seq<char> = if t is HOTP {
        "counter"@
    } else {
        "period"@
    };
    let last_v: Seq<char> = if t is HOTP {
        i64_dec_digits(p.counter)
    } else {
        dec_digits(p.step_period as nat)
    };
    lemma_enc_free(p.issuer@, '&');
    lemma_enc_chars(p.issuer@);
    lemma_dec_digits_props(p.code_digits as nat);
    lemma_digits_free(d_val, '&');
    if t is HOTP {
        lemma_i64_dec_digits_chars(p.counter);
        assert forall|j: int| 0 <= j < last_v.len() implies last_v[j] != '&' by {
            assert(is_digit(i64_dec_digits(p.counter)[j]) || i64_dec_digits(p.counter)[j] == '-');
        }
    } else {
        lemma_dec_digits_props(p.step_period as nat);
        lemma_digits_free(last_v, '&');
    }
    assert(free_of("secret"@, '&') && free_of("secret"@, '='));
    assert(free_of("issuer"@, '&') && free_of("issuer"@, '='));
    assert(free_of("algorithm"@, '&') && free_of("algorithm"@, '='));
    assert(free_of("digits"@, '&') && free_of("digits"@, '='));
    assert(free_of("counter"@, '&') && free_of("counter"@, '='));
    assert(free_of("period"@, '&') && free_of("period"@, '='));
    assert(free_of(a_val, '&')) by {
        match p.hash_algorithm {
            HmacHash::SHA1 => assert(free_of("SHA1"@, '&')),
            HmacHash::SHA256 => assert(free_of("SHA256"@, '&')),
            HmacHash::SHA512 => assert(free_of("SHA512"@, '&')),
        }
    }
    let q = query_canonical(p, t);
    let r5 = last_k + seq!['='] + last_v;
    let r4 = "digits"@ + seq!['='] + d_val + seq!['&'] + r5;
    let r3 = "algorithm"@ + seq!['='] + a_val + seq!['&'] + r4;
    let r2 = "issuer"@ + seq!['='] + e_val + seq!['&'] + r3;
    let r1 = "secret"@ + seq!['='] + s_val + seq!['&'] + r2;
    if t is HOTP {
        assert(q =~= r1);
    } else {
        assert(q =~= r1);
    }
    let acc0 = init_acc();
    lemma_fold_item_mid("secret"@, s_val, r2, acc0);
    let a1 = apply_item(acc0, "secret"@, s_val);
    assert(a1 == (QueryAcc { secret: s_val, ..acc0 }));
    lemma_seq_ne_at("issuer"@, "secret"@, 0);
    lemma_fold_item_mid("issuer"@, e_val, r3, a1);
    let a2 = apply_item(a1, "issuer"@, e_val);
    assert(a2 == (QueryAcc { issuer: e_val, ..a1 }));
    lemma_seq_ne_len("algorithm"@, "secret"@);
    lemma_seq_ne_len("algorithm"@, "issuer"@);
    lemma_fold_item_mid("algorithm"@, a_val, r4, a2);
    let a3 = apply_item(a2, "algorithm"@, a_val);
    assert(a3 == (QueryAcc { algorithm: p.hash_algorithm, ..a2 })) by {
        match p.hash_algorithm {
            HmacHash::SHA1 => {
                lemma_seq_ne_len("SHA1"@, "SHA256"@);
                lemma_seq_ne_len("SHA1"@, "SHA512"@);
            },
            HmacHash::SHA256 => {},
            HmacHash::SHA512 => {
                lemma_seq_ne_at("SHA512"@, "SHA256"@, 3);
            },
        }
    }
    lemma_seq_ne_at("digits"@, "secret"@, 0);
    lemma_seq_ne_at("digits"@, "issuer"@, 0);
    lemma_seq_ne_len("digits"@, "algorithm"@);
    lemma_uint_parse_round(p.code_digits as nat, 255);
    lemma_fold_item_mid("digits"@, d_val, r5, a3);
    let a4 = apply_item(a3, "digits"@, d_val);
    assert(a4 == (QueryAcc { digits: p.code_digits, ..a3 }));
    lemma_fold_item_last(last_k, last_v, a4);
    let a5 = apply_item(a4, last_k, last_v);
    if t is HOTP {
        lemma_seq_ne_len("counter"@, "secret"@);
        lemma_seq_ne_len("counter"@, "issuer"@);
        lemma_seq_ne_len("counter"@, "algorithm"@);
        lemma_seq_ne_len("counter"@, "digits"@);
        lemma_i64_parse_round(p.counter);
        assert(a5 == (QueryAcc { counter: p.counter, ..a4 }));
    } else {
        lemma_seq_ne_at("period"@, "secret"@, 0);
        lemma_seq_ne_at("period"@, "issuer"@, 0);
        lemma_seq_ne_len("period"@, "algorithm"@);
        lemma_seq_ne_at("period"@, "digits"@, 0);
        lemma_seq_ne_len("period"@, "counter"@);
        lemma_uint_parse_round(p.step_period as nat, 255);
        assert(a5 == (QueryAcc { period: p.step_period, ..a4 }));
    }
    assert(fold_query(q, acc0) == Some(a5));
    assert(a5.secret.len() > 0);
    assert(a5.issuer.len() > 0);
}

/// A URI whose protocol part is anything but "otpauth" never parses,
/// whatever its query holds.
pub proof fn lemma_wrong_protocol_rejected(s: Seq<char>)
    requires
        first_ix(s, '?') >= 0,
        first_sub_ix(s.take(first_ix(s, '?')), "://"@) >= 0,
        s.take(first_ix(s, '?')).take(first_sub_ix(s.take(first_ix(s, '?')), "://"@))
            != "otpauth"@,
    ensures
        account_parse(s) is None,
{
}

/// A URI whose OTP type is neither "hotp" nor "totp" never parses.
pub proof fn lemma_wrong_otp_type_rejected(s: Seq<char>)
    requires
        ({
            let qi = first_ix(s, '?');
            let uri = s.take(qi);
            let pi = first_sub_ix(uri, "://"@);
            let rest = uri.skip(pi + "://"@.len());
            let si = first_ix(rest, '/');
            &&& qi >= 0
            &&& pi >= 0
            &&& si >= 0
            &&& rest.take(si) != "hotp"@
            &&& rest.take(si) != "totp"@
        }),
    ensures
        account_parse(s) is None,
{
}

/// An hotp URI whose query never set a counter (so that the absent-counter
/// sentinel survives the fold) never parses.
pub proof fn lemma_hotp_counter_required(s: Seq<char>)
    requires
        ({
            let qi = first_ix(s, '?');
            let uri = s.take(qi);
            let pi = first_sub_ix(uri, "://"@);
            let rest = uri.skip(pi + "://"@.len());
            let si = first_ix(rest, '/');
            &&& qi >= 0
            &&& pi >= 0
            &&& si >= 0
            &&& rest.take(si) == "hotp"@
            &&& (query_result(s.skip(qi + 1)) is Some ==> (query_result(s.skip(qi + 1))->0).counter
                == -1i64)
        }),
    ensures
        account_parse(s) is None,
{
}

/// A label whose decoding holds two or more colons is ambiguous: the URI
/// never parses.
pub proof fn lemma_ambiguous_label_rejected(s: Seq<char>)
    requires
        ({
            let qi = first_ix(s, '?');
            let uri = s.take(qi);
            let pi = first_sub_ix(uri, "://"@);
            let rest = uri.skip(pi + "://"@.len());
            let si = first_ix(rest, '/');
            &&& qi >= 0
            &&& pi >= 0
            &&& si >= 0
            &&& count_char(percent_decoded_of(rest.skip(si + 1)), ':') >= 2
        }),
    ensures
        account_parse(s) is None,
{
}

/// A URI without a '?' never parses: the query parameters are missing.
pub proof fn lemma_missing_parameters_rejected(s: Seq<char>)
    requires
        first_ix(s, '?') == -1,
    ensures
        account_parse(s) is None,
{
}

/// Round trip: re-parsing a serialized account succeeds and recovers the
/// OTP type, the label, and every parameter. The account must look like one
/// that parsing produced — protocol "otpauth", trimmed colon-free label
/// halves, non-empty secret and issuer — with ASCII label and issuer, an
/// account name free of the separators that serialization does not escape
/// ('?', '%'), a secret free of '&', and the inert parameter at its
/// default: a totp account's counter at its absent sentinel, an hotp
/// account's period at thirty.
#[verifier::rlimit(80)]
pub proof fn lemma_uri_round_trip(a: Account)
    requires
        a.protocol@ == "otpauth"@,
        is_ascii_seq(a.label_issuer@),
        free_of(a.label_issuer@, ':'),
        trim_spec(a.label_issuer@) == a.label_issuer@,
        is_ascii_seq(a.label_account_name@),
        free_of(a.label_account_name@, ':'),
        free_of(a.label_account_name@, '%'),
        free_of(a.label_account_name@, '?'),
        trim_spec(a.label_account_name@) == a.label_account_name@,
        is_ascii_seq(a.parameters.issuer@),
        a.parameters.issuer@.len() > 0,
        a.parameters.secret_key@.len() > 0,
        free_of(a.parameters.secret_key@, '&'),
        a.otp_type is HOTP ==> a.parameters.counter != -1i64 && a.parameters.step_period == 30,
        a.otp_type is TOTP ==> a.parameters.counter == -1i64,
    ensures
        account_parse(uri_spec(a)) is Some,
        ({
            let r = account_parse(uri_spec(a))->0;
            &&& r.0 == a.otp_type
            &&& r.1 == a.label_issuer@
            &&& r.2 == a.label_account_name@
            &&& r.3.secret == a.parameters.secret_key@
            &&& percent_decoded_of(r.3.issuer) == a.parameters.issuer@
            &&& r.3.algorithm == a.parameters.hash_algorithm
            &&& r.3.digits == a.parameters.code_digits
            &&& r.3.counter == a.parameters.counter
            &&& r.3.period == a.parameters.step_period
        }),
{
    reveal_strlit("otpauth");
    reveal_strlit("://");
    reveal_strlit("/");
    reveal_strlit(":");
    reveal_strlit("?");
    reveal_strlit("hotp");
    reveal_strlit("totp");
    let t = a.otp_type;
    let li = a.label_issuer@;
    let name = a.label_account_name@;
    let e_lab = ascii_percent_enc(li);
    assert(percent_encoded_of(li) == e_lab);
    let t_name = t.spec_name();
    let q = query_canonical(a.parameters, t);
    let u = uri_spec(a);
    let p_head = "otpauth"@ + "://"@ + t_name + "/"@ + e_lab + ":"@ + name;
    assert(u =~= p_head + seq!['?'] + q);

    // The '?' we wrote is the first one.
    lemma_enc_free(li, '?');
    assert(free_of("otpauth"@, '?'));
    assert(free_of("://"@, '?'));
    assert(free_of("/"@, '?'));
    assert(free_of(":"@, '?'));
    assert(free_of(t_name, '?')) by {
        match t {
            OtpType::HOTP => assert(free_of("hotp"@, '?')),
            OtpType::TOTP => assert(free_of("totp"@, '?')),
        }
    }
    lemma_free_of_concat("otpauth"@, "://"@, '?');
    lemma_free_of_concat("otpauth"@ + "://"@, t_name, '?');
    lemma_free_of_concat("otpauth"@ + "://"@ + t_name, "/"@, '?');
    lemma_free_of_concat("otpauth"@ + "://"@ + t_name + "/"@, e_lab, '?');
    lemma_free_of_concat("otpauth"@ + "://"@ + t_name + "/"@ + e_lab, ":"@, '?');
    lemma_free_of_concat("otpauth"@ + "://"@ + t_name + "/"@ + e_lab + ":"@, name, '?');
    assert(free_of(p_head, '?'));
    lemma_first_ix_is(seq!['?'] + q, '?', 0);
    lemma_first_ix_concat(p_head, seq!['?'] + q, '?');
    assert(u =~= p_head + (seq!['?'] + q));
    let qi = first_ix(u, '?');
    assert(qi == p_head.len());
    assert(u.take(qi) =~= p_head);
    assert(u.skip(qi + 1) =~= q);
    lemma_query_round_trip(a.parameters, t);
    assert(query_result(q) is Some);

    // The protocol separator sits right after "otpauth".
    assert(p_head.subrange(7, 7 + "://"@.len() as int) =~= "://"@);
    assert forall|j: int| #![trigger p_head.subrange(j, j + "://"@.len() as int)] 0 <= j < 7 implies
        !matches_at(p_head, "://"@, j) by {
        assert(p_head[j] == "otpauth"@[j]);
        if p_head.subrange(j, j + "://"@.len() as int) == "://"@ {
            assert(p_head.subrange(j, j + "://"@.len() as int)[0] == p_head[j]);
        }
    }
    lemma_first_sub_ix_is(p_head, "://"@, 7);
    let pi = first_sub_ix(p_head, "://"@);
    assert(pi == 7);
    assert(p_head.take(7) =~= "otpauth"@);
    let rest = p_head.skip(7 + "://"@.len() as int);
    let r_tail = "/"@ + e_lab + ":"@ + name;
    assert(rest =~= t_name + r_tail);

    // The first '/' ends the OTP type.
    assert(free_of(t_name, '/')) by {
        match t {
            OtpType::HOTP => assert(free_of("hotp"@, '/')),
            OtpType::TOTP => assert(free_of("totp"@, '/')),
        }
    }
    assert(r_tail[0] == '/');
    lemma_first_ix_is(r_tail, '/', 0);
    lemma_first_ix_concat(t_name, r_tail, '/');
    let si = first_ix(rest, '/');
    assert(t_name.len() == 4) by {
        match t {
            OtpType::HOTP => {},
            OtpType::TOTP => {},
        }
    }
    assert(si == 4);
    assert(rest.take(si) =~= t_name);
    let label = rest.skip(si + 1);
    assert(label =~= e_lab + (":"@ + name));
    if t is TOTP {
        lemma_seq_ne_at("totp"@, "hotp"@, 0);
    }

    // The label decodes to issuer, colon, name.
    let tl = ":"@ + name;
    assert(is_ascii_seq(tl) && free_of(tl, '%')) by {
        assert forall|i: int| 0 <= i < tl.len() implies #[trigger] (tl[i] as u32) < 128 && tl[i]
            != '%' by {
            if i == 0 {
                assert(tl[0] == ':');
            } else {
                assert(tl[i] == name[i - 1]);
            }
        }
    }
    lemma_dec_identity(tl);
    lemma_enc_dec(li, tl);
    assert(ascii_decodable(label));
    let d = percent_decoded_of(label);
    assert(d == li + tl);
    lemma_count_char_zero(li, ':');
    lemma_count_char_zero(name, ':');
    assert(count_char(":"@, ':') == 1) by {
        assert(":"@.len() == 1);
        assert(":"@.last() == ':');
        assert(":"@.drop_last() =~= Seq::<char>::empty());
        assert(count_char(":"@.drop_last(), ':') == 0);
    }
    lemma_count_char_concat(":"@, name, ':');
    lemma_count_char_concat(li, tl, ':');
    assert(count_char(d, ':') == 1);
    assert(tl[0] == ':');
    lemma_first_ix_is(tl, ':', 0);
    lemma_first_ix_concat(li, tl, ':');
    let ci = first_ix(d, ':');
    assert(ci == li.len());
    assert(d.take(ci) =~= li);
    assert(d.skip(ci + 1) =~= name);

    // The issuer parameter decodes back to itself.
    let e_iss = ascii_percent_enc(a.parameters.issuer@);
    lemma_enc_dec(a.parameters.issuer@, Seq::<char>::empty());
    assert(e_iss + Seq::<char>::empty() =~= e_iss);
    assert(ascii_percent_dec(Seq::<char>::empty()) =~= Seq::<char>::empty());
    assert(a.parameters.issuer@ + Seq::<char>::empty() =~= a.parameters.issuer@);
    assert(percent_decoded_of(e_iss) == a.parameters.issuer@);
}

} // verus!
