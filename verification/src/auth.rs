//! Session token service: issues and verifies compact signed claims that
//! carry a privacy-masked account identifier and an expiry.
//!
//! A token is `base64url(header) "." base64url(claims) "." signature`, where
//! the signature is the HMAC-SHA256 of everything before it, base64url
//! encoded. Only the MAC itself comes from an outside crate; the framing,
//! the claims codec and the checks are verified here.
use vstd::prelude::*;
use vstd::string::StringSliceAdditionalSpecFns;

use crate::b64url::{
    b64url_decode, b64url_encode, is_b64url_byte, is_b64url_seq, lemma_b64_roundtrip,
    lemma_encode_is_b64url, spec_b64_decode, spec_b64_encode,
};
use crate::claims::{
    header_json_bytes, lemma_claims_roundtrip, parse_claims, render_claims, spec_claims_bytes,
    spec_header_json, spec_parse_claims, wf_sub,
};
use crate::context::ServerSecret;
use crate::digits::{hex4, hex4_bytes, is_lower_hex, lemma_hex4_is_lower_hex};
use crate::error::{ClientError, Error, InternalError};
use crate::strutil::{
    all_ascii, ascii_chars, ascii_to_string, bytes_eq, find_byte, idx_first, lemma_idx_first_at,
    push_all, subvec,
};

verus! {

/// Tokens expire 30 days after issuance.
pub const SESSION_DURATION_SECS: u64 = 2592000;

/// The claim set of a verified session token.
#[derive(Debug)]
pub struct TokenClaims {
    /// Expiry as seconds since the Unix epoch; exclusive, with no skew.
    pub exp: u64,
    /// Masked subject: four lowercase hexadecimal digits.
    pub sub: String,
}

/// Base64url HMAC-SHA256 signature that the signing routine returns for a
/// message and key; a fixed function of both.
pub uninterp spec fn hs256_sig_of(message: Seq<u8>, key: Seq<u8>) -> Seq<u8>;

/// Relies on `jsonwebtoken::crypto::sign` with `Algorithm::HS256` and an
/// `EncodingKey::from_secret` key: returns the base64url (URL-safe alphabet,
/// no padding) HMAC-SHA256 of `message` under `key`; the HMAC path cannot
/// fail. Assumes the crate's `rust_crypto` provider is the process default.
#[verifier::external_body]
fn sign_hs256(message: &[u8], key: &[u8]) -> (r: Vec<u8>)
    ensures
        r@ == hs256_sig_of(message@, key@),
        is_b64url_seq(r@),
{
    let encoding_key = jsonwebtoken::EncodingKey::from_secret(key);
    jsonwebtoken::crypto::sign(message, &encoding_key, jsonwebtoken::Algorithm::HS256)
        .expect("HMAC signing cannot fail")
        .into_bytes()
}

/// Relies on `jsonwebtoken::crypto::verify` with `Algorithm::HS256`: true
/// exactly when `signature` is the base64url HMAC-SHA256 of `message` under
/// `key` (the signature is decoded strictly, so the encoded form is unique,
/// and any undecodable signature is reported as a mismatch).
#[verifier::external_body]
fn verify_hs256(signature: &[u8], message: &[u8], key: &[u8]) -> (r: bool)
    ensures
        r == (signature@ == hs256_sig_of(message@, key@)),
{
    let decoding_key = jsonwebtoken::DecodingKey::from_secret(key);
    match core::str::from_utf8(signature) {
        Ok(sig) => jsonwebtoken::crypto::verify(
            sig,
            message,
            &decoding_key,
            jsonwebtoken::Algorithm::HS256,
        ).unwrap_or(false),
        Err(_) => false,
    }
}

/// Relies on `std::time::SystemTime::now` and `duration_since`: whole
/// seconds since the Unix epoch, or `None` for a clock reading before the
/// epoch. Never panics.
#[verifier::external_body]
fn current_unix_time() -> (r: Option<u64>) {
    match std::time::SystemTime::now().duration_since(std::time::UNIX_EPOCH) {
        Ok(since_epoch) => Some(since_epoch.as_secs()),
        Err(_) => None,
    }
}

/// Base64url of the JOSE header that every issued token carries.
pub open spec fn spec_b64_header() -> Seq<u8> {
    spec_b64_encode(spec_header_json())
}

/// The masked subject of an account id: its low 14 bits in hexadecimal.
pub open spec fn spec_sub_of(account_id: u64) -> Seq<u8> {
    hex4((account_id & 0x3FFF) as nat)
}

/// `base64url(header) "." base64url(claims)`: the bytes the signature is
/// computed over.
pub open spec fn spec_signing_input(exp: u64, sub: Seq<u8>) -> Seq<u8> {
    spec_b64_header() + seq![46u8] + spec_b64_encode(spec_claims_bytes(exp, sub))
}

/// The full token issued for `account_id` at time `now` under `key`.
pub open spec fn spec_token_bytes(account_id: u64, key: Seq<u8>, now: u64) -> Seq<u8>
    recommends
        now + SESSION_DURATION_SECS <= u64::MAX,
{
    let si = spec_signing_input((now + SESSION_DURATION_SECS) as u64, spec_sub_of(account_id));
    si + seq![46u8] + hs256_sig_of(si, key)
}

/// Splits a token into its three dot-separated parts; any number of dots
/// other than exactly two is rejected.
pub open spec fn spec_split3(s: Seq<u8>) -> Option<(Seq<u8>, Seq<u8>, Seq<u8>)> {
    let i = idx_first(s, 46, 0);
    if i == s.len() {
        None
    } else {
        let j = idx_first(s, 46, i + 1);
        if j == s.len() {
            None
        } else if idx_first(s, 46, j + 1) != s.len() {
            None
        } else {
            Some((s.subrange(0, i), s.subrange(i + 1, j), s.subrange(j + 1, s.len() as int)))
        }
    }
}

/// Whether token bytes `t` verify under `key` at time `at`, and the claims
/// they carry. The signature is checked first, then the expiry, which is
/// exclusive: a token whose expiry equals `at` is rejected.
pub open spec fn spec_verify_at(t: Seq<u8>, key: Seq<u8>, at: u64) -> Option<(u64, Seq<u8>)> {
    match spec_split3(t) {
        None => None,
        Some((h, p, sig)) => {
            if h != spec_b64_header() {
                None
            } else {
                match spec_b64_decode(p) {
                    None => None,
                    Some(cb) => match spec_parse_claims(cb) {
                        None => None,
                        Some((exp, sub)) => {
                            if sig == hs256_sig_of(h + seq![46u8] + p, key) && exp > at {
                                Some((exp, sub))
                            } else {
                                None
                            }
                        },
                    },
                }
            }
        },
    }
}

proof fn lemma_b64url_seq_ascii(s: Seq<u8>)
    requires
        is_b64url_seq(s),
    ensures
        all_ascii(s),
{
    assert forall|i: int| 0 <= i < s.len() implies s[i] < 128 by {
        assert(is_b64url_byte(s[i]));
    }
}

/// Issues the token for `account_id` at time `now`, signed with `secret`.
pub fn issue_token_at(account_id: u64, secret: &str, now: u64) -> (r: String)
    requires
        now + SESSION_DURATION_SECS <= u64::MAX,
    ensures
        r@ == ascii_chars(spec_token_bytes(account_id, secret.spec_bytes(), now)),
        all_ascii(spec_token_bytes(account_id, secret.spec_bytes(), now)),
        is_b64url_seq(
            hs256_sig_of(
                spec_signing_input((now + SESSION_DURATION_SECS) as u64, spec_sub_of(account_id)),
                secret.spec_bytes(),
            ),
        ),
{
    let exp = now + SESSION_DURATION_SECS;
    proof {
        assert(account_id & 0x3FFF < 0x4000) by (bit_vector);
    }
    let mask = (account_id & 0x3FFF) as u16;
    let sub = hex4_bytes(mask);
    assert(sub@ == spec_sub_of(account_id));
    let cb = render_claims(exp, &sub);
    let payload = b64url_encode(&cb);
    let hj = header_json_bytes();
    let mut msg = b64url_encode(&hj);
    msg.push(46);
    push_all(&mut msg, &payload);
    proof {
        assert(msg@ =~= spec_signing_input(exp, sub@));
    }
    let sig = sign_hs256(msg.as_slice(), secret.as_bytes());
    let mut tok = msg;
    tok.push(46);
    push_all(&mut tok, &sig);
    proof {
        assert(tok@ =~= spec_token_bytes(account_id, secret.spec_bytes(), now));
        lemma_b64url_seq_ascii(sig@);
        assert forall|k: int| 0 <= k < tok@.len() implies tok@[k] < 128 by {
            let si = spec_signing_input(exp, sub@);
            if k < si.len() {
                if k < spec_b64_header().len() {
                    assert(is_b64url_byte(si[k]));
                } else if k == spec_b64_header().len() {
                    assert(si[k] == 46);
                } else {
                    assert(is_b64url_byte(si[k]));
                }
            } else if k == si.len() {
                assert(tok@[k] == 46);
            } else {
                assert(tok@[k] == sig@[k - si.len() - 1]);
            }
        }
    }
    ascii_to_string(tok)
}

/// Verifies `token` under `secret` at time `now` and returns its claims;
/// any structural defect, signature mismatch or non-future expiry is the
/// invalid-token client error.
pub fn verify_token_at(token: &str, secret: &str, now: u64) -> (r: Result<TokenClaims, Error>)
    ensures
        match r {
            Ok(c) => {
                let v = spec_verify_at(token.spec_bytes(), secret.spec_bytes(), now);
                v is Some && c.exp == v.unwrap().0 && c.sub@ == ascii_chars(v.unwrap().1)
            },
            Err(e) => spec_verify_at(token.spec_bytes(), secret.spec_bytes(), now) is None && e
                == Error::ClientError(ClientError::InvalidBearerToken),
        },
{
    let tv = token.as_bytes_vec();
    let n = tv.len();
    let i = find_byte(&tv, 46, 0);
    if i == n {
        return Err(Error::ClientError(ClientError::InvalidBearerToken));
    }
    let j = find_byte(&tv, 46, i + 1);
    if j == n {
        return Err(Error::ClientError(ClientError::InvalidBearerToken));
    }
    let k3 = find_byte(&tv, 46, j + 1);
    if k3 != n {
        return Err(Error::ClientError(ClientError::InvalidBearerToken));
    }
    proof {
        assert(spec_split3(tv@) == Some(
            (tv@.subrange(0, i as int), tv@.subrange(i + 1, j as int), tv@.subrange(
                j + 1,
                n as int,
            )),
        ));
    }
    let h = subvec(&tv, 0, i);
    let p = subvec(&tv, i + 1, j);
    let sig = subvec(&tv, j + 1, n);
    let hj = header_json_bytes();
    let hb = b64url_encode(&hj);
    if !bytes_eq(&h, &hb) {
        return Err(Error::ClientError(ClientError::InvalidBearerToken));
    }
    let cb = match b64url_decode(&p) {
        Some(cb) => cb,
        None => {
            return Err(Error::ClientError(ClientError::InvalidBearerToken));
        },
    };
    let parsed = match parse_claims(&cb) {
        Some(pair) => pair,
        None => {
            return Err(Error::ClientError(ClientError::InvalidBearerToken));
        },
    };
    let (exp, sub) = parsed;
    let msg = subvec(&tv, 0, j);
    proof {
        assert(msg@ =~= h@ + seq![46u8] + p@);
    }
    let mac_ok = verify_hs256(sig.as_slice(), msg.as_slice(), secret.as_bytes());
    if !mac_ok {
        return Err(Error::ClientError(ClientError::InvalidBearerToken));
    }
    if exp <= now {
        return Err(Error::ClientError(ClientError::InvalidBearerToken));
    }
    proof {
        assert forall|k: int| 0 <= k < sub@.len() implies sub@[k] < 128 by {
            assert(is_lower_hex(sub@[k]));
        }
    }
    let sub_s = ascii_to_string(sub);
    Ok(TokenClaims { exp, sub: sub_s })
}

/// Bytes of the signing secret, as the token service uses them.
pub open spec fn spec_secret_bytes(secret: &ServerSecret) -> Seq<u8> {
    vstd::utf8::encode_utf8(secret.0@)
}

/// Completes token issuance for one clock reading. The decision is exact:
/// no reading (a clock before the epoch), or one too large to carry a
/// 30-day expiry, is the invalid-clock error; any other reading fixes the
/// token byte for byte.
pub fn issue_for_clock(account_id: u64, secret: &ServerSecret, clock: Option<u64>) -> (r: Result<
    String,
    Error,
>)
    ensures
        match clock {
            None => r == Err::<String, Error>(Error::InternalError(InternalError::InvalidClock)),
            Some(now) => if now + SESSION_DURATION_SECS <= u64::MAX {
                match r {
                    Ok(tok) => tok@ == ascii_chars(
                        spec_token_bytes(account_id, spec_secret_bytes(secret), now),
                    ),
                    Err(_) => false,
                }
            } else {
                r == Err::<String, Error>(Error::InternalError(InternalError::InvalidClock))
            },
        },
{
    match clock {
        None => Err(Error::InternalError(InternalError::InvalidClock)),
        Some(now) => {
            if now <= u64::MAX - SESSION_DURATION_SECS {
                Ok(issue_token_at(account_id, secret.0.as_str(), now))
            } else {
                Err(Error::InternalError(InternalError::InvalidClock))
            }
        },
    }
}

/// Completes token verification for one clock reading. The decision is
/// exact: no reading is the invalid-clock error; with one, the outcome is
/// the verification result at exactly that instant.
pub fn decode_for_clock(token: &str, secret: &ServerSecret, clock: Option<u64>) -> (r: Result<
    TokenClaims,
    Error,
>)
    ensures
        match clock {
            None => r == Err::<TokenClaims, Error>(
                Error::InternalError(InternalError::InvalidClock),
            ),
            Some(now) => match r {
                Ok(c) => {
                    let v = spec_verify_at(token.spec_bytes(), spec_secret_bytes(secret), now);
                    v is Some && c.exp == v.unwrap().0 && c.sub@ == ascii_chars(v.unwrap().1)
                },
                Err(e) => spec_verify_at(token.spec_bytes(), spec_secret_bytes(secret), now)
                    is None && e == Error::ClientError(ClientError::InvalidBearerToken),
            },
        },
{
    match clock {
        None => Err(Error::InternalError(InternalError::InvalidClock)),
        Some(now) => verify_token_at(token, secret.0.as_str(), now),
    }
}

/// Issues a token for `account_id` expiring 30 days from now: one clock
/// reading handed to `issue_for_clock`, which decides everything else.
pub fn create_token(account_id: u64, secret: &ServerSecret) -> (r: Result<String, Error>)
    ensures
        match r {
            Ok(tok) => exists|iat: u64|
                iat + SESSION_DURATION_SECS <= u64::MAX && tok@ == ascii_chars(
                    #[trigger] spec_token_bytes(account_id, spec_secret_bytes(secret), iat),
                ),
            Err(e) => e == Error::InternalError(InternalError::InvalidClock),
        },
{
    let clock = current_unix_time();
    let r = issue_for_clock(account_id, secret, clock);
    proof {
        if r is Ok {
            assert(clock is Some);
            let now = clock.unwrap();
            assert(r.unwrap()@ == ascii_chars(
                spec_token_bytes(account_id, spec_secret_bytes(secret), now),
            ));
        }
    }
    r
}

/// Verifies `token` against the current time: one clock reading handed to
/// `decode_for_clock`, which decides everything else. Verification
/// failures of any kind map to the invalid-token client error, as the
/// caller must not learn more.
pub fn decode_token(token: &str, secret: &ServerSecret) -> (r: Result<TokenClaims, Error>)
    ensures
        match r {
            Ok(c) => exists|at: u64|
                #[trigger] spec_verify_at(token.spec_bytes(), spec_secret_bytes(secret), at)
                    is Some && c.exp == spec_verify_at(
                    token.spec_bytes(),
                    spec_secret_bytes(secret),
                    at,
                ).unwrap().0 && c.sub@ == ascii_chars(
                    spec_verify_at(
                        token.spec_bytes(),
                        spec_secret_bytes(secret),
                        at,
                    ).unwrap().1,
                ),
            Err(e) => e == Error::ClientError(ClientError::InvalidBearerToken) || e
                == Error::InternalError(InternalError::InvalidClock),
        },
{
    let clock = current_unix_time();
    let r = decode_for_clock(token, secret, clock);
    proof {
        if r is Ok {
            assert(clock is Some);
            assert(spec_verify_at(
                token.spec_bytes(),
                spec_secret_bytes(secret),
                clock.unwrap(),
            ) is Some);
        }
    }
    r
}

/// Token part of a bearer authorization header: everything after the first
/// space, provided the text before it is exactly `Bearer`.
pub open spec fn spec_bearer(h: Seq<u8>) -> Option<Seq<u8>> {
    let i = idx_first(h, 32, 0);
    if i == h.len() {
        None
    } else if h.subrange(0, i) != seq![66u8, 101, 97, 114, 101, 114] {
        None
    } else {
        Some(h.subrange(i + 1, h.len() as int))
    }
}

/// Extracts the token from an authorization header; a header that is not
/// printable ASCII or not bearer-schemed is an invalid-auth-header error.
pub fn extract_bearer_token(header: &str) -> (r: Result<String, ClientError>)
    ensures
        match r {
            Ok(t) => header.is_ascii() && spec_bearer(header.spec_bytes()) is Some && t@
                == ascii_chars(spec_bearer(header.spec_bytes()).unwrap()),
            Err(e) => e == ClientError::InvalidAuthHeader && (!header.is_ascii() || spec_bearer(
                header.spec_bytes(),
            ) is None),
        },
{
    if !header.is_ascii() {
        return Err(ClientError::InvalidAuthHeader);
    }
    let hv = header.as_bytes_vec();
    let n = hv.len();
    let i = find_byte(&hv, 32, 0);
    if i == n {
        return Err(ClientError::InvalidAuthHeader);
    }
    let scheme = subvec(&hv, 0, i);
    let mut bearer: Vec<u8> = Vec::new();
    bearer.push(66);
    bearer.push(101);
    bearer.push(97);
    bearer.push(114);
    bearer.push(101);
    bearer.push(114);
    assert(bearer@ =~= seq![66u8, 101, 97, 114, 101, 114]);
    if !bytes_eq(&scheme, &bearer) {
        return Err(ClientError::InvalidAuthHeader);
    }
    let rest = subvec(&hv, i + 1, n);
    proof {
        vstd::string::is_ascii_spec_bytes(header);
        assert forall|k: int| 0 <= k < rest@.len() implies rest@[k] < 128 by {
            assert(rest@[k] == header.spec_bytes()[i + 1 + k]);
            assert(header.spec_bytes()[i + 1 + k] == header@[i + 1 + k] as u8);
            assert('\0' <= header@[i + 1 + k] <= '\u{7f}');
        }
    }
    Ok(ascii_to_string(rest))
}

/// Identity attached to a request context, or the authentication-required
/// error where the endpoint demands one and none is present.
pub fn identity_from_context(ctx: Option<TokenClaims>) -> (r: Result<TokenClaims, Error>)
    ensures
        match ctx {
            Some(c) => r == Ok::<TokenClaims, Error>(c),
            None => r == Err::<TokenClaims, Error>(Error::ClientError(ClientError::AuthRequired)),
        },
{
    match ctx {
        Some(c) => Ok(c),
        None => Err(Error::ClientError(ClientError::AuthRequired)),
    }
}

/// Round trip: a token issued for `account_id` at `now` verifies under the
/// same secret at any earlier time than its expiry, and yields exactly the
/// masked subject and that expiry. The last premise states that the
/// signature is base64url text, which the signing routine guarantees and
/// `issue_token_at` exports.
pub proof fn lemma_token_round_trip(account_id: u64, key: Seq<u8>, now: u64, at: u64)
    ensures
        ({
            let exp = (now + SESSION_DURATION_SECS) as u64;
            let sub = spec_sub_of(account_id);
            let si = spec_signing_input(exp, sub);
            (now + SESSION_DURATION_SECS <= u64::MAX && at < exp && is_b64url_seq(
                hs256_sig_of(si, key),
            )) ==> spec_verify_at(spec_token_bytes(account_id, key, now), key, at) == Some(
                (exp, sub),
            )
        }),
{
    let exp = (now + SESSION_DURATION_SECS) as u64;
    let sub = spec_sub_of(account_id);
    let si = spec_signing_input(exp, sub);
    if now + SESSION_DURATION_SECS <= u64::MAX && at < exp && is_b64url_seq(
        hs256_sig_of(si, key),
    ) {
        let h = spec_b64_header();
        let p = spec_b64_encode(spec_claims_bytes(exp, sub));
        let sg = hs256_sig_of(si, key);
        let t = spec_token_bytes(account_id, key, now);
        lemma_encode_is_b64url(spec_header_json());
        lemma_encode_is_b64url(spec_claims_bytes(exp, sub));
        assert(!is_b64url_byte(46));
        assert(t =~= h + seq![46u8] + p + seq![46u8] + sg);
        let i = h.len() as int;
        let j = i + 1 + p.len() as int;
        assert forall|m: int| 0 <= m < i implies t[m] != 46 by {
            assert(t[m] == h[m]);
            assert(is_b64url_byte(h[m]));
        }
        assert(t[i] == 46);
        lemma_idx_first_at(t, 46, 0, i);
        assert forall|m: int| i + 1 <= m < j implies t[m] != 46 by {
            assert(t[m] == p[m - i - 1]);
            assert(is_b64url_byte(p[m - i - 1]));
        }
        assert(t[j] == 46);
        lemma_idx_first_at(t, 46, i + 1, j);
        assert forall|m: int| j + 1 <= m < t.len() implies t[m] != 46 by {
            assert(t[m] == sg[m - j - 1]);
            assert(is_b64url_byte(sg[m - j - 1]));
        }
        lemma_idx_first_at(t, 46, j + 1, t.len() as int);
        assert(spec_split3(t) == Some(
            (t.subrange(0, i), t.subrange(i + 1, j), t.subrange(j + 1, t.len() as int)),
        ));
        assert(t.subrange(0, i) =~= h);
        assert(t.subrange(i + 1, j) =~= p);
        assert(t.subrange(j + 1, t.len() as int) =~= sg);
        lemma_b64_roundtrip(spec_claims_bytes(exp, sub));
        lemma_hex4_is_lower_hex((account_id & 0x3FFF) as nat);
        lemma_claims_roundtrip(exp, sub);
        assert(h + seq![46u8] + p =~= si);
        assert(spec_verify_at(t, key, at) == Some((exp, sub)));
    }
}

/// Subject masking: a token depends on the account id only through its low
/// 14 bits, so accounts that agree on those bits get identical tokens and
/// a token alone cannot identify an account more precisely.
pub proof fn lemma_subject_masking(id1: u64, id2: u64, key: Seq<u8>, now: u64)
    requires
        id1 & 0x3FFF == id2 & 0x3FFF,
    ensures
        spec_token_bytes(id1, key, now) == spec_token_bytes(id2, key, now),
{
}

/// Forgery resistance reduces to the MAC: a token accepted under `key`
/// carries, as its third part, exactly the HMAC of its first two parts
/// under that same `key`.
pub proof fn lemma_accepted_token_is_signed(t: Seq<u8>, key: Seq<u8>, at: u64)
    ensures
        spec_verify_at(t, key, at) is Some ==> ({
            let (h, p, sig) = spec_split3(t).unwrap();
            h == spec_b64_header() && sig == hs256_sig_of(h + seq![46u8] + p, key)
        }),
{
}

/// Expiry is exclusive: a token is accepted only at times strictly before
/// its expiry, so a token whose expiry equals the current time is rejected.
pub proof fn lemma_expiry_is_exclusive(t: Seq<u8>, key: Seq<u8>, at: u64)
    ensures
        spec_verify_at(t, key, at) is Some ==> spec_verify_at(t, key, at).unwrap().0 > at,
{
}

} // verus!
