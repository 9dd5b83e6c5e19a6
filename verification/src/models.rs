use vstd::prelude::*;
use vstd::string::*;

use crate::percent::{
    percent_decode_lossy, percent_decoded_of, percent_encode_non_alnum, percent_encoded_of,
};
use crate::strutil::{
    count_char, count_char_exec, dec_digits, find_char, find_sub, first_ix, first_sub_ix,
    i64_dec_digits, i64_parse_ok, i64_parse_val, i64_to_dec, lemma_count_char_zero, lemma_first_ix,
    parse_i64, parse_u8,
    str_eq, trim_exec, trim_spec, u64_to_dec, uint_parse_ok, uint_parse_val,
};

verus! {

/// The one failure of this library: a malformed account URI, with a
/// human-readable description that carries the offending input.
#[derive(Debug)]
pub enum AccountError {
    Parsing(String),
}

impl AccountError {
    /// The diagnostic text, prefixed as the stored kind dictates.
    pub fn message(&self) -> (r: String)
        ensures
            r@ == self.spec_message(),
    {
        match self {
            AccountError::Parsing(m) => {
                let mut s = String::from_str("malformed input: ");
                s.append(m.as_str());
                s
            },
        }
    }

    pub open spec fn spec_message(&self) -> Seq<char> {
        match self {
            AccountError::Parsing(m) => "malformed input: "@ + m@,
        }
    }
}

/// Selector for the keyed-hash variant used by the OTP engine.
#[derive(Copy, Clone, Debug, PartialEq, Eq, Structural)]
pub enum HmacHash {
    SHA1,
    SHA256,
    SHA512,
}

impl HmacHash {
    /// Number of bytes in a digest produced with this algorithm.
    pub open spec fn spec_digest_len(self) -> nat {
        match self {
            HmacHash::SHA1 => 20,
            HmacHash::SHA256 => 32,
            HmacHash::SHA512 => 64,
        }
    }

    pub open spec fn spec_name(self) -> Seq<char> {
        match self {
            HmacHash::SHA1 => "SHA1"@,
            HmacHash::SHA256 => "SHA256"@,
            HmacHash::SHA512 => "SHA512"@,
        }
    }

    /// The canonical upper-case name, as it appears in an account URI.
    pub fn name(self) -> (r: &'static str)
        ensures
            r@ == self.spec_name(),
    {
        match self {
            HmacHash::SHA1 => "SHA1",
            HmacHash::SHA256 => "SHA256",
            HmacHash::SHA512 => "SHA512",
        }
    }
}

/// Which of the two OTP flavours an account uses; it decides whether the
/// counter or the step period is the live parameter.
#[derive(Copy, Clone, Debug, PartialEq, Eq, Structural)]
pub enum OtpType {
    HOTP,
    TOTP,
}

impl OtpType {
    pub open spec fn spec_name(self) -> Seq<char> {
        match self {
            OtpType::HOTP => "hotp"@,
            OtpType::TOTP => "totp"@,
        }
    }

    /// The lower-case name, as it appears in an account URI.
    pub fn name(self) -> (r: &'static str)
        ensures
            r@ == self.spec_name(),
    {
        match self {
            OtpType::HOTP => "hotp",
            OtpType::TOTP => "totp",
        }
    }
}

/// The query parameters of an account: the secret, the issuer, and the OTP
/// settings, with their documented defaults.
#[derive(Debug)]
pub struct Parameters {
    pub secret_key: String,
    pub issuer: String,
    pub hash_algorithm: HmacHash,
    pub code_digits: u8,
    pub counter: i64,
    pub step_period: u8,
}

// ---------------------------------------------------------------------------
// Parsing a query string into Parameters
// ---------------------------------------------------------------------------

/// The six recognized query fields while a query string is folded item by
/// item; the issuer still carries its percent-encoding here.
pub struct QueryAcc {
    pub secret: Seq<char>,
    pub issuer: Seq<char>,
    pub algorithm: HmacHash,
    pub digits: u8,
    pub counter: i64,
    pub period: u8,
}

/// The documented defaults: SHA1, six digits, the absent-counter sentinel,
/// a thirty-second period, and required fields still empty.
pub open spec fn init_acc() -> QueryAcc {
    QueryAcc {
        secret: Seq::empty(),
        issuer: Seq::empty(),
        algorithm: HmacHash::SHA1,
        digits: 6,
        counter: -1i64,
        period: 30,
    }
}

/// One `key=value` item folded into the accumulator. Unknown keys are
/// ignored; an unrecognized algorithm falls back to SHA1; numeric values
/// that do not parse fall back to their defaults.
pub open spec fn apply_item(acc: QueryAcc, key: Seq<char>, value: Seq<char>) -> QueryAcc {
    if key == "secret"@ {
        QueryAcc { secret: value, ..acc }
    } else if key == "issuer"@ {
        QueryAcc { issuer: value, ..acc }
    } else if key == "algorithm"@ {
        QueryAcc {
            algorithm: if value == "SHA256"@ {
                HmacHash::SHA256
            } else if value == "SHA512"@ {
                HmacHash::SHA512
            } else {
                HmacHash::SHA1
            },
            ..acc
        }
    } else if key == "digits"@ {
        QueryAcc {
            digits: if uint_parse_ok(value, 255) {
                uint_parse_val(value) as u8
            } else {
                6
            },
            ..acc
        }
    } else if key == "counter"@ {
        QueryAcc {
            counter: if i64_parse_ok(value) {
                i64_parse_val(value) as i64
            } else {
                -1i64
            },
            ..acc
        }
    } else if key == "period"@ {
        QueryAcc {
            period: if uint_parse_ok(value, 255) {
                uint_parse_val(value) as u8
            } else {
                30
            },
            ..acc
        }
    } else {
        acc
    }
}

/// An item without '=' is malformed; otherwise it splits at the first '='.
pub open spec fn apply_item_opt(acc: QueryAcc, item: Seq<char>) -> Option<QueryAcc> {
    let e = first_ix(item, '=');
    if e < 0 {
        None
    } else {
        Some(apply_item(acc, item.take(e), item.skip(e + 1)))
    }
}

/// The whole remaining query folded: items split on '&', left to right.
pub open spec fn fold_query(rem: Seq<char>, acc: QueryAcc) -> Option<QueryAcc>
    decreases rem.len(),
{
    let amp = first_ix(rem, '&');
    if amp < 0 || amp >= rem.len() {
        apply_item_opt(acc, rem)
    } else {
        match apply_item_opt(acc, rem.take(amp)) {
            None => None,
            Some(a2) => fold_query(rem.skip(amp + 1), a2),
        }
    }
}

/// A folded query is acceptable only with a non-empty secret and issuer.
pub open spec fn finish_query(o: Option<QueryAcc>) -> Option<QueryAcc> {
    match o {
        None => None,
        Some(a) => if a.secret.len() == 0 || a.issuer.len() == 0 {
            None
        } else {
            Some(a)
        },
    }
}

/// What parsing a query string yields, when it yields anything.
pub open spec fn query_result(q: Seq<char>) -> Option<QueryAcc> {
    finish_query(fold_query(q, init_acc()))
}

/// The payload of the one error variant.
pub open spec fn parsing_msg(e: AccountError) -> Seq<char> {
    match e {
        AccountError::Parsing(m) => m@,
    }
}

/// The diagnostic a failed query fold carries: a malformed item, or the
/// required fields left empty.
pub open spec fn fold_diag(rem: Seq<char>, acc: QueryAcc) -> Seq<char> {
    if fold_query(rem, acc) is None {
        "please check the query parameters"@
    } else {
        "required fields are empty"@
    }
}

/// The parsed `Parameters` carry the accumulator's fields, with the issuer
/// percent-decoded.
pub open spec fn params_match(p: Parameters, acc: QueryAcc) -> bool {
    &&& p.secret_key@ == acc.secret
    &&& p.issuer@ == percent_decoded_of(acc.issuer)
    &&& p.hash_algorithm == acc.algorithm
    &&& p.code_digits == acc.digits
    &&& p.counter == acc.counter
    &&& p.step_period == acc.period
}

// ---------------------------------------------------------------------------
// The label: an optional issuer, a colon, and an account name
// ---------------------------------------------------------------------------

/// How a label splits: no colon in the decoded text leaves the issuer empty
/// and takes the raw label, trimmed, as the name; exactly one colon splits
/// the decoded text there, both halves trimmed; more are ambiguous.
pub open spec fn label_split(label: Seq<char>) -> Option<(Seq<char>, Seq<char>)> {
    let d = percent_decoded_of(label);
    let n = count_char(d, ':');
    if n == 0 {
        Some((Seq::<char>::empty(), trim_spec(label)))
    } else if n == 1 {
        let ci = first_ix(d, ':');
        Some((trim_spec(d.take(ci)), trim_spec(d.skip(ci + 1))))
    } else {
        None
    }
}

/// A provisioned OTP account, as carried by an otpauth URI.
#[derive(Debug)]
pub struct Account {
    pub protocol: String,
    pub otp_type: OtpType,
    pub label_issuer: String,
    pub label_account_name: String,
    pub parameters: Parameters,
}

// ---------------------------------------------------------------------------
// Parsing a whole otpauth URI
// ---------------------------------------------------------------------------

/// What parsing an otpauth URI yields, when it yields anything: the OTP
/// type, the split label (issuer, account name), and the query fields.
/// Each malformed shape — no '?', a bad query, no "://", a protocol other
/// than "otpauth", no '/', a type other than hotp/totp, an hotp account
/// without a counter, an ambiguous label — yields nothing.
pub open spec fn account_parse(s: Seq<char>) -> Option<(OtpType, Seq<char>, Seq<char>, QueryAcc)> {
    let qi = first_ix(s, '?');
    if qi < 0 {
        None
    } else {
        let uri = s.take(qi);
        let query = s.skip(qi + 1);
        match query_result(query) {
            None => None,
            Some(acc) => {
                let pi = first_sub_ix(uri, "://"@);
                if pi < 0 {
                    None
                } else {
                    let protocol = uri.take(pi);
                    let rest = uri.skip(pi + "://"@.len());
                    if protocol != "otpauth"@ {
                        None
                    } else {
                        let si = first_ix(rest, '/');
                        if si < 0 {
                            None
                        } else {
                            let t = rest.take(si);
                            let label = rest.skip(si + 1);
                            if t == "hotp"@ {
                                if acc.counter == -1i64 {
                                    None
                                } else {
                                    match label_split(label) {
                                        None => None,
                                        Some(pr) => Some((OtpType::HOTP, pr.0, pr.1, acc)),
                                    }
                                }
                            } else if t == "totp"@ {
                                match label_split(label) {
                                    None => None,
                                    Some(pr) => Some((OtpType::TOTP, pr.0, pr.1, acc)),
                                }
                            } else {
                                None
                            }
                        }
                    }
                }
            },
        }
    }
}

/// The diagnostic a failed URI parse carries, by the first malformed shape
/// found, each with the offending input appended.
pub open spec fn account_diag(s: Seq<char>) -> Seq<char>
    recommends
        account_parse(s) is None,
{
    let qi = first_ix(s, '?');
    if qi < 0 {
        "missing uri parameters:\n"@ + s
    } else {
        let uri = s.take(qi);
        let query = s.skip(qi + 1);
        if query_result(query) is None {
            "malformed input: "@ + fold_diag(query, init_acc()) + ":\n"@ + s
        } else {
            let pi = first_sub_ix(uri, "://"@);
            if pi < 0 {
                "missing protocol:\n"@ + s
            } else {
                let protocol = uri.take(pi);
                let rest = uri.skip(pi + "://"@.len());
                if protocol != "otpauth"@ {
                    "wrong protocol:\n"@ + s
                } else {
                    let si = first_ix(rest, '/');
                    if si < 0 {
                        "missing otp type or label:\n"@ + s
                    } else {
                        let t = rest.take(si);
                        if t != "hotp"@ && t != "totp"@ {
                            "wrong otp type:\n"@ + s
                        } else if t == "hotp"@ && (query_result(query)->0).counter == -1i64 {
                            "missing hotp counter:\n"@ + s
                        } else {
                            "malformed input: "@ + "invalid issuer field"@ + ":\n"@ + s
                        }
                    }
                }
            }
        }
    }
}

/// A parsed `Account` carries exactly what `account_parse` extracted.
pub open spec fn account_matches(a: Account, s: Seq<char>) -> bool {
    account_parse(s) is Some && {
        let r = account_parse(s)->0;
        &&& a.protocol@ == "otpauth"@
        &&& a.otp_type == r.0
        &&& a.label_issuer@ == r.1
        &&& a.label_account_name@ == r.2
        &&& params_match(a.parameters, r.3)
    }
}

impl Account {
    /// Splits a percent-encoded label into issuer and account name.
    fn decode_label(label: &str) -> (r: Result<(String, String), AccountError>)
        ensures
            match r {
                Ok(t) => label_split(label@) == Some((t.0@, t.1@)),
                Err(e) => label_split(label@) is None && parsing_msg(e)
                    == "invalid issuer field"@,
            },
    {
        let decoded = percent_decode_lossy(label);
        let cnt = count_char_exec(decoded.as_str(), ':');
        if cnt == 0 {
            let name = trim_exec(label);
            let empty = String::new();
            proof {
                assert(empty@ =~= Seq::<char>::empty());
            }
            Ok((empty, name))
        } else if cnt == 1 {
            let ci = match find_char(decoded.as_str(), ':') {
                Some(i) => i,
                None => {
                    proof {
                        lemma_first_ix(decoded@, ':');
                        lemma_count_char_zero(decoded@, ':');
                    }
                    return Err(AccountError::Parsing(String::from_str("invalid issuer field")));
                },
            };
            proof {
                lemma_first_ix(decoded@, ':');
            }
            let dn = decoded.as_str().unicode_len();
            let left = decoded.as_str().substring_char(0, ci);
            let right = decoded.as_str().substring_char(ci + 1, dn);
            proof {
                assert(left@ =~= decoded@.take(ci as int));
                assert(right@ =~= decoded@.skip(ci + 1));
            }
            Ok((trim_exec(left), trim_exec(right)))
        } else {
            Err(AccountError::Parsing(String::from_str("invalid issuer field")))
        }
    }

    /// Parses an otpauth URI. Success and the parsed fields are exactly as
    /// `account_parse` says; every malformed input is a `Parsing` error.
    pub fn parse(s: &str) -> (r: Result<Account, AccountError>)
        ensures
            match r {
                Ok(a) => account_matches(a, s@),
                Err(e) => account_parse(s@) is None && parsing_msg(e) == account_diag(s@),
            },
    {
        let n = s.unicode_len();
        let qi = match find_char(s, '?') {
            Some(i) => i,
            None => {
                let mut m = String::from_str("missing uri parameters:\n");
                m.append(s);
                return Err(AccountError::Parsing(m));
            },
        };
        proof {
            lemma_first_ix(s@, '?');
        }
        let uri = s.substring_char(0, qi);
        let query = s.substring_char(qi + 1, n);
        proof {
            assert(uri@ =~= s@.take(qi as int));
            assert(query@ =~= s@.skip(qi + 1));
        }
        let params = match Parameters::parse(query) {
            Ok(p) => p,
            Err(err) => {
                let mut m = err.message();
                m.append(":\n");
                m.append(s);
                return Err(AccountError::Parsing(m));
            },
        };
        proof {
            reveal_strlit("://");
        }
        let pi = match find_sub(uri, "://") {
            Some(i) => i,
            None => {
                let mut m = String::from_str("missing protocol:\n");
                m.append(s);
                return Err(AccountError::Parsing(m));
            },
        };
        proof {
            crate::strutil::lemma_first_sub_ix(uri@, "://"@);
        }
        let protocol = uri.substring_char(0, pi);
        let rest = uri.substring_char(pi + 3, uri.unicode_len());
        proof {
            assert(protocol@ =~= uri@.take(pi as int));
            assert(rest@ =~= uri@.skip(pi + "://"@.len()));
        }
        if !str_eq(protocol, "otpauth") {
            let mut m = String::from_str("wrong protocol:\n");
            m.append(s);
            return Err(AccountError::Parsing(m));
        }
        let si = match find_char(rest, '/') {
            Some(i) => i,
            None => {
                let mut m = String::from_str("missing otp type or label:\n");
                m.append(s);
                return Err(AccountError::Parsing(m));
            },
        };
        proof {
            lemma_first_ix(rest@, '/');
        }
        let t = rest.substring_char(0, si);
        let label = rest.substring_char(si + 1, rest.unicode_len());
        proof {
            assert(t@ =~= rest@.take(si as int));
            assert(label@ =~= rest@.skip(si + 1));
        }
        let otp_type = if str_eq(t, "hotp") {
            OtpType::HOTP
        } else if str_eq(t, "totp") {
            OtpType::TOTP
        } else {
            let mut m = String::from_str("wrong otp type:\n");
            m.append(s);
            return Err(AccountError::Parsing(m));
        };
        if otp_type == OtpType::HOTP && params.counter == -1 {
            let mut m = String::from_str("missing hotp counter:\n");
            m.append(s);
            return Err(AccountError::Parsing(m));
        }
        let (label_issuer, label_account_name) = match Account::decode_label(label) {
            Ok(t) => t,
            Err(err) => {
                let mut m = err.message();
                m.append(":\n");
                m.append(s);
                return Err(AccountError::Parsing(m));
            },
        };
        Ok(
            Account {
                protocol: String::from_str(protocol),
                otp_type,
                label_issuer,
                label_account_name,
                parameters: params,
            },
        )
    }

    /// Replaces the secret key and touches nothing else.
    pub fn update_secret_key(&mut self, new_key: String)
        ensures
            final (self).parameters.secret_key == new_key,
            final (self).parameters.issuer == old(self).parameters.issuer,
            final (self).parameters.hash_algorithm == old(self).parameters.hash_algorithm,
            final (self).parameters.code_digits == old(self).parameters.code_digits,
            final (self).parameters.counter == old(self).parameters.counter,
            final (self).parameters.step_period == old(self).parameters.step_period,
            final (self).protocol == old(self).protocol,
            final (self).otp_type == old(self).otp_type,
            final (self).label_issuer == old(self).label_issuer,
            final (self).label_account_name == old(self).label_account_name,
    {
        self.parameters.secret_key = new_key;
    }
}

/// One exec item folded into the six running fields, exactly as
/// `apply_item_opt` says.
fn apply_item_exec(
    item: &str,
    secret: String,
    issuer: String,
    algorithm: HmacHash,
    digits: u8,
    counter: i64,
    step_period: u8,
) -> (r: Result<(String, String, HmacHash, u8, i64, u8), AccountError>)
    ensures
        ({
            let acc = (QueryAcc {
                secret: secret@,
                issuer: issuer@,
                algorithm,
                digits,
                counter,
                period: step_period,
            });
            match r {
                Ok(t) => apply_item_opt(acc, item@) == Some(
                    (QueryAcc {
                        secret: t.0@,
                        issuer: t.1@,
                        algorithm: t.2,
                        digits: t.3,
                        counter: t.4,
                        period: t.5,
                    }),
                ),
                Err(e) => apply_item_opt(acc, item@) is None && parsing_msg(e)
                    == "please check the query parameters"@,
            }
        }),
{
    let n = item.unicode_len();
    let e = match find_char(item, '=') {
        Some(e) => e,
        None => {
            return Err(AccountError::Parsing(String::from_str("please check the query parameters")));
        },
    };
    proof {
        lemma_first_ix(item@, '=');
    }
    let key = item.substring_char(0, e);
    let value = item.substring_char(e + 1, n);
    proof {
        assert(key@ =~= item@.take(e as int));
        assert(value@ =~= item@.skip(e + 1));
    }
    if str_eq(key, "secret") {
        Ok((String::from_str(value), issuer, algorithm, digits, counter, step_period))
    } else if str_eq(key, "issuer") {
        Ok((secret, String::from_str(value), algorithm, digits, counter, step_period))
    } else if str_eq(key, "algorithm") {
        let a = if str_eq(value, "SHA256") {
            HmacHash::SHA256
        } else if str_eq(value, "SHA512") {
            HmacHash::SHA512
        } else {
            HmacHash::SHA1
        };
        Ok((secret, issuer, a, digits, counter, step_period))
    } else if str_eq(key, "digits") {
        let d = match parse_u8(value) {
            Some(v) => v,
            None => 6,
        };
        Ok((secret, issuer, algorithm, d, counter, step_period))
    } else if str_eq(key, "counter") {
        let c = match parse_i64(value) {
            Some(v) => v,
            None => -1,
        };
        Ok((secret, issuer, algorithm, digits, c, step_period))
    } else if str_eq(key, "period") {
        let p = match parse_u8(value) {
            Some(v) => v,
            None => 30,
        };
        Ok((secret, issuer, algorithm, digits, counter, p))
    } else {
        Ok((secret, issuer, algorithm, digits, counter, step_period))
    }
}

/// The items of `s` from `pos` on, folded into the running fields; ends by
/// decoding the issuer and checking the required fields.
fn parse_items(
    s: &str,
    pos: usize,
    secret: String,
    issuer: String,
    algorithm: HmacHash,
    digits: u8,
    counter: i64,
    step_period: u8,
) -> (r: Result<Parameters, AccountError>)
    requires
        pos <= s@.len(),
    ensures
        ({
            let acc = (QueryAcc {
                secret: secret@,
                issuer: issuer@,
                algorithm,
                digits,
                counter,
                period: step_period,
            });
            let res = finish_query(fold_query(s@.skip(pos as int), acc));
            match r {
                Ok(p) => res is Some && params_match(p, res->0),
                Err(e) => res is None && parsing_msg(e) == fold_diag(s@.skip(pos as int), acc),
            }
        }),
    decreases s@.len() - pos,
{
    let n = s.unicode_len();
    let rest = s.substring_char(pos, n);
    proof {
        assert(rest@ =~= s@.skip(pos as int));
    }
    match find_char(rest, '&') {
        Some(amp) => {
            proof {
                lemma_first_ix(rest@, '&');
            }
            let item = rest.substring_char(0, amp);
            proof {
                assert(item@ =~= rest@.take(amp as int));
            }
            match apply_item_exec(item, secret, issuer, algorithm, digits, counter, step_period) {
                Ok(t) => {
                    proof {
                        assert(s@.skip((pos + amp + 1) as int) =~= rest@.skip(amp + 1));
                    }
                    parse_items(s, pos + amp + 1, t.0, t.1, t.2, t.3, t.4, t.5)
                },
                Err(e) => Err(e),
            }
        },
        None => {
            match apply_item_exec(rest, secret, issuer, algorithm, digits, counter, step_period) {
                Ok(t) => {
                    if t.0.as_str().is_empty() || t.1.as_str().is_empty() {
                        Err(AccountError::Parsing(String::from_str("required fields are empty")))
                    } else {
                        let decoded_issuer = percent_decode_lossy(t.1.as_str());
                        Ok(
                            Parameters {
                                secret_key: t.0,
                                issuer: decoded_issuer,
                                hash_algorithm: t.2,
                                code_digits: t.3,
                                counter: t.4,
                                step_period: t.5,
                            },
                        )
                    }
                },
                Err(e) => Err(e),
            }
        },
    }
}

// ---------------------------------------------------------------------------
// Serializing back to a canonical URI
// ---------------------------------------------------------------------------

/// The fixed leading fields every rendered query carries.
pub open spec fn query_prefix(p: Parameters) -> Seq<char> {
    "secret="@ + p.secret_key@ + "&issuer="@ + percent_encoded_of(p.issuer@) + "&algorithm="@
        + p.hash_algorithm.spec_name() + "&digits="@ + dec_digits(p.code_digits as nat)
}

/// A full query rendering: every field, counter and period both.
pub open spec fn query_full(p: Parameters) -> Seq<char> {
    query_prefix(p) + "&counter="@ + i64_dec_digits(p.counter) + "&period="@ + dec_digits(
        p.step_period as nat,
    )
}

/// The canonical query of an account: the counter only for hotp, the
/// period only for totp.
pub open spec fn query_canonical(p: Parameters, t: OtpType) -> Seq<char> {
    query_prefix(p) + match t {
        OtpType::HOTP => "&counter="@ + i64_dec_digits(p.counter),
        OtpType::TOTP => "&period="@ + dec_digits(p.step_period as nat),
    }
}

/// The canonical URI of an account: the label issuer re-encoded, the
/// account name emitted as stored.
pub open spec fn uri_spec(a: Account) -> Seq<char> {
    a.protocol@ + "://"@ + a.otp_type.spec_name() + "/"@ + percent_encoded_of(a.label_issuer@)
        + ":"@ + a.label_account_name@ + "?"@ + query_canonical(a.parameters, a.otp_type)
}

impl Account {
    /// Renders the account as its canonical otpauth URI.
    pub fn to_uri_string(&self) -> (r: String)
        ensures
            r@ == uri_spec(*self),
    {
        let mut out = self.protocol.clone();
        out.append("://");
        out.append(self.otp_type.name());
        out.append("/");
        let enc_issuer = percent_encode_non_alnum(self.label_issuer.as_str());
        out.append(enc_issuer.as_str());
        out.append(":");
        out.append(self.label_account_name.as_str());
        out.append("?");
        let q = self.parameters.render_query(self.otp_type.is_hotp(), self.otp_type.is_totp());
        out.append(q.as_str());
        proof {
            assert(out@ =~= uri_spec(*self));
        }
        out
    }
}

impl OtpType {
    fn is_hotp(self) -> (r: bool)
        ensures
            r == (self is HOTP),
    {
        match self {
            OtpType::HOTP => true,
            OtpType::TOTP => false,
        }
    }

    fn is_totp(self) -> (r: bool)
        ensures
            r == (self is TOTP),
    {
        match self {
            OtpType::HOTP => false,
            OtpType::TOTP => true,
        }
    }
}

impl Parameters {
    /// Renders the recognized fields in canonical order, the counter and
    /// the period each only when asked for.
    fn render_query(&self, with_counter: bool, with_period: bool) -> (r: String)
        ensures
            with_counter && with_period ==> r@ == query_full(*self),
            with_counter && !with_period ==> r@ == query_prefix(*self) + "&counter="@
                + i64_dec_digits(self.counter),
            !with_counter && with_period ==> r@ == query_prefix(*self) + "&period="@ + dec_digits(
                self.step_period as nat,
            ),
            !with_counter && !with_period ==> r@ == query_prefix(*self),
    {
        let mut out = String::from_str("secret=");
        out.append(self.secret_key.as_str());
        out.append("&issuer=");
        let enc_issuer = percent_encode_non_alnum(self.issuer.as_str());
        out.append(enc_issuer.as_str());
        out.append("&algorithm=");
        out.append(self.hash_algorithm.name());
        out.append("&digits=");
        let d = u64_to_dec(self.code_digits as u64);
        out.append(d.as_str());
        proof {
            assert(out@ =~= query_prefix(*self));
        }
        if with_counter {
            out.append("&counter=");
            let c = i64_to_dec(self.counter);
            out.append(c.as_str());
        }
        if with_period {
            out.append("&period=");
            let p = u64_to_dec(self.step_period as u64);
            out.append(p.as_str());
        }
        out
    }

    /// Renders every field, as the parameters print on their own.
    pub fn to_query_string(&self) -> (r: String)
        ensures
            r@ == query_full(*self),
    {
        self.render_query(true, true)
    }

    /// Parses a query string: items split on '&', each split at its first
    /// '='; `secret` and `issuer` are required, everything else defaulted.
    pub fn parse(s: &str) -> (r: Result<Parameters, AccountError>)
        ensures
            match r {
                Ok(p) => query_result(s@) is Some && params_match(p, query_result(s@)->0),
                Err(e) => query_result(s@) is None && parsing_msg(e) == fold_diag(
                    s@,
                    init_acc(),
                ),
            },
    {
        proof {
            assert(s@.skip(0) =~= s@);
        }
        parse_items(s, 0, String::new(), String::new(), HmacHash::SHA1, 6, -1, 30)
    }
}

} // verus!
