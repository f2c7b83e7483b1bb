//! OpenID verification client logic: the fail-closed check of the
//! provider's re-validation response and the extraction of the verified
//! account identity from the identity URL.
use vstd::prelude::*;

use crate::error::{ClientError, Error, InternalError};
use crate::regions::OpenIDEndpoint;
use crate::strutil::str_eq;

verus! {

/// The full set of fields of an indirect identity assertion, as resubmitted
/// to the provider. Everything but the mode, endpoint and identity URL is
/// an opaque bag of string fields, echoed unchanged.
#[derive(Debug)]
pub struct OpenIDParams {
    pub mode: String,
    pub endpoint: OpenIDEndpoint,
    pub identity: String,
    pub other: Vec<(String, String)>,
}

/// Account identity confirmed by the provider.
#[derive(Debug)]
pub struct VerifiedAccount {
    pub account_id: u64,
    pub nickname: String,
}

/// Overrides the assertion's mode field with the server-to-server
/// re-validation mode; every other field is echoed unchanged.
pub fn prepare_verification(params: OpenIDParams) -> (r: OpenIDParams)
    ensures
        r.mode@ == "check_authentication"@,
        r.endpoint == params.endpoint,
        r.identity == params.identity,
        r.other == params.other,
{
    OpenIDParams {
        mode: String::from_str("check_authentication"),
        endpoint: params.endpoint,
        identity: params.identity,
        other: params.other,
    }
}

/// The one plaintext body that confirms an assertion; anything else is a
/// rejection.
pub open spec fn spec_success_body() -> Seq<char> {
    "is_valid:true\nns:http://specs.openid.net/auth/2.0\n"@
}

/// Fail-closed check of the provider's response body: true only for the
/// exact expected confirmation line.
pub fn is_positive_assertion(body: &str) -> (r: bool)
    ensures
        r == (body@ == spec_success_body()),
{
    str_eq(body, "is_valid:true\nns:http://specs.openid.net/auth/2.0\n")
}

pub open spec fn is_digit_c(c: char) -> bool {
    48 <= c as u32 && c as u32 <= 57
}

/// Numeric value of a sequence of decimal digit characters.
pub open spec fn dec_val_c(s: Seq<char>) -> nat
    decreases s.len(),
{
    if s.len() == 0 {
        0
    } else {
        dec_val_c(s.drop_last()) * 10 + (s.last() as u32 - 48) as nat
    }
}

proof fn lemma_dec_val_c_prefix_le(s: Seq<char>, i: int, j: int)
    requires
        0 <= i <= j <= s.len(),
    ensures
        dec_val_c(s.subrange(0, i)) <= dec_val_c(s.subrange(0, j)),
    decreases j - i,
{
    if i < j {
        lemma_dec_val_c_prefix_le(s, i, j - 1);
        assert(s.subrange(0, j).drop_last() =~= s.subrange(0, j - 1));
    }
}

/// End of the maximal run of digit characters starting at `i`.
pub open spec fn digit_run_end_c(s: Seq<char>, i: int) -> int
    decreases s.len() - i,
{
    if i < 0 || i >= s.len() {
        i
    } else if is_digit_c(s[i]) {
        digit_run_end_c(s, i + 1)
    } else {
        i
    }
}

proof fn lemma_digit_run_c_at(s: Seq<char>, from: int, at: int)
    requires
        0 <= from <= at <= s.len(),
        forall|m: int| from <= m < at ==> is_digit_c(#[trigger] s[m]),
        at == s.len() || !is_digit_c(s[at]),
    ensures
        digit_run_end_c(s, from) == at,
    decreases at - from,
{
    if from < at {
        lemma_digit_run_c_at(s, from + 1, at);
    }
}

/// First occurrence of `c` in `s` at or after `from`, or `s.len()`.
pub open spec fn idx_first_c(s: Seq<char>, c: char, from: int) -> int
    decreases s.len() - from,
{
    if from < 0 || from >= s.len() {
        s.len() as int
    } else if s[from] == c {
        from
    } else {
        idx_first_c(s, c, from + 1)
    }
}

proof fn lemma_idx_first_c_at(s: Seq<char>, c: char, from: int, at: int)
    requires
        0 <= from <= at <= s.len(),
        forall|m: int| from <= m < at ==> s[m] != c,
        at == s.len() || s[at] == c,
    ensures
        idx_first_c(s, c, from) == if at == s.len() {
            s.len() as int
        } else {
            at
        },
    decreases at - from,
{
    if from < at {
        lemma_idx_first_c_at(s, c, from + 1, at);
    } else if at < s.len() {
        assert(idx_first_c(s, c, from) == at);
    }
}

/// Largest index in `[from, to)` holding `c`, or `-1` if there is none.
pub open spec fn last_before_c(s: Seq<char>, c: char, from: int, to: int) -> int
    decreases to - from,
{
    if to <= from || from < 0 || to > s.len() {
        -1
    } else if s[to - 1] == c {
        to - 1
    } else {
        last_before_c(s, c, from, to - 1)
    }
}

proof fn lemma_last_before_c_found(s: Seq<char>, c: char, from: int, to: int, l: int)
    requires
        0 <= from <= l < to <= s.len(),
        s[l] == c,
        forall|m: int| l < m < to ==> s[m] != c,
    ensures
        last_before_c(s, c, from, to) == l,
    decreases to - l,
{
    if l < to - 1 {
        lemma_last_before_c_found(s, c, from, to - 1, l);
    }
}

proof fn lemma_last_before_c_none(s: Seq<char>, c: char, from: int, to: int)
    requires
        0 <= from,
        to <= s.len(),
        forall|m: int| from <= m < to ==> s[m] != c,
    ensures
        last_before_c(s, c, from, to) == -1,
    decreases to - from,
{
    if to > from && from >= 0 && to <= s.len() {
        lemma_last_before_c_none(s, c, from, to - 1);
    }
}

/// Match of the identity pattern `/id/<digits>-<name>/` starting exactly at
/// `i`: after the literal `/id/` comes a non-empty digit run, a dash, and a
/// non-empty name that ends before the last slash found before the end of
/// the line. Returns the digit and name character ranges.
pub open spec fn spec_match_identity_at(s: Seq<char>, i: int) -> Option<(Seq<char>, Seq<char>)> {
    if i + 4 > s.len() || s.subrange(i, i + 4) != "/id/"@ {
        None
    } else {
        let de = digit_run_end_c(s, i + 4);
        if de == i + 4 {
            None
        } else if de >= s.len() || s[de] != '-' {
            None
        } else {
            let lim = idx_first_c(s, '\n', de + 1);
            let l = last_before_c(s, '/', de + 2, lim);
            if l < 0 {
                None
            } else {
                Some((s.subrange(i + 4, de), s.subrange(de + 1, l)))
            }
        }
    }
}

/// Leftmost match of the identity pattern at or after `i`.
pub open spec fn spec_find_identity(s: Seq<char>, i: int) -> Option<(Seq<char>, Seq<char>)>
    decreases s.len() - i,
{
    if i < 0 || i >= s.len() {
        None
    } else {
        match spec_match_identity_at(s, i) {
            Some(m) => Some(m),
            None => spec_find_identity(s, i + 1),
        }
    }
}

/// Digit and name ranges of the leftmost identity match in a URL path.
pub open spec fn spec_parse_identity(s: Seq<char>) -> Option<(Seq<char>, Seq<char>)> {
    spec_find_identity(s, 0)
}

fn is_digit_char(c: char) -> (r: bool)
    ensures
        r == is_digit_c(c),
{
    let u = c as u32;
    48 <= u && u <= 57
}

/// Value of the digit characters `path[from..to]`, or `None` beyond
/// `u64::MAX`.
fn parse_dec_value_c(path: &str, from: usize, to: usize) -> (r: Option<u64>)
    requires
        from <= to <= path@.len(),
        forall|k: int| from <= k < to ==> is_digit_c(#[trigger] path@[k]),
    ensures
        match r {
            Some(v) => v == dec_val_c(path@.subrange(from as int, to as int)),
            None => dec_val_c(path@.subrange(from as int, to as int)) > u64::MAX,
        },
{
    let mut acc: u64 = 0;
    let mut i: usize = from;
    while i < to
        invariant
            from <= i <= to <= path@.len(),
            forall|k: int| from <= k < to ==> is_digit_c(#[trigger] path@[k]),
            acc == dec_val_c(path@.subrange(from as int, i as int)),
        decreases to - i,
    {
        let c = path.get_char(i);
        let d = (c as u32) - 48;
        proof {
            assert(path@.subrange(from as int, i + 1).drop_last() =~= path@.subrange(
                from as int,
                i as int,
            ));
        }
        let next = match acc.checked_mul(10) {
            Some(m) => m.checked_add(d as u64),
            None => None,
        };
        match next {
            Some(v) => {
                acc = v;
            },
            None => {
                proof {
                    lemma_dec_val_c_prefix_le(
                        path@.subrange(from as int, to as int),
                        i + 1 - from,
                        to - from,
                    );
                    assert(path@.subrange(from as int, to as int).subrange(0, i + 1 - from)
                        =~= path@.subrange(from as int, i + 1));
                    assert(path@.subrange(from as int, to as int).subrange(0, to - from) =~= path@
                        .subrange(from as int, to as int));
                }
                return None;
            },
        }
        i = i + 1;
    }
    assert(path@.subrange(from as int, to as int) =~= path@.subrange(from as int, i as int));
    Some(acc)
}

/// Tries the identity pattern at position `i`; on success returns the digit
/// range `[i + 4, de)` and name range `[de + 1, l)`.
fn try_match_at(path: &str, i: usize, n: usize) -> (r: Option<(usize, usize)>)
    requires
        n == path@.len(),
        i < n,
    ensures
        match r {
            Some((de, l)) => {
                &&& spec_match_identity_at(path@, i as int) == Some(
                    (path@.subrange(i + 4, de as int), path@.subrange(de + 1, l as int)),
                )
                &&& i + 4 < de < n
                &&& de + 1 <= l < n
                &&& forall|k: int| i + 4 <= k < de ==> is_digit_c(#[trigger] path@[k])
            },
            None => spec_match_identity_at(path@, i as int) is None,
        },
{
    proof {
        reveal_strlit("/id/");
    }
    if n - i < 4 {
        return None;
    }
    if !(path.get_char(i) == '/' && path.get_char(i + 1) == 'i' && path.get_char(i + 2) == 'd'
        && path.get_char(i + 3) == '/') {
        proof {
            let lit = "/id/"@;
            let sub = path@.subrange(i as int, i + 4);
            assert(sub[0] == path@[i as int] && sub[1] == path@[i + 1] && sub[2] == path@[i + 2]
                && sub[3] == path@[i + 3]);
            assert(sub != lit);
        }
        return None;
    }
    proof {
        assert(path@.subrange(i as int, i + 4) =~= "/id/"@);
    }
    let mut de = i + 4;
    while de < n && is_digit_char(path.get_char(de))
        invariant
            i + 4 <= de <= n == path@.len(),
            forall|m: int| i + 4 <= m < de ==> is_digit_c(#[trigger] path@[m]),
        decreases n - de,
    {
        de = de + 1;
    }
    proof {
        lemma_digit_run_c_at(path@, i + 4, de as int);
    }
    if de == i + 4 {
        return None;
    }
    if de == n || path.get_char(de) != '-' {
        return None;
    }
    let mut lim = de + 1;
    while lim < n && path.get_char(lim) != '\n'
        invariant
            de + 1 <= lim <= n == path@.len(),
            forall|m: int| de + 1 <= m < lim ==> path@[m] != '\n',
        decreases n - lim,
    {
        lim = lim + 1;
    }
    proof {
        lemma_idx_first_c_at(path@, '\n', de + 1, lim as int);
    }
    if lim - de < 2 {
        proof {
            lemma_last_before_c_none(path@, '/', de + 2, lim as int);
        }
        return None;
    }
    let mut l: usize = 0;
    let mut found = false;
    let mut k = de + 2;
    while k < lim
        invariant
            de + 2 <= k <= lim <= n == path@.len(),
            found ==> de + 2 <= l < k && path@[l as int] == '/' && forall|m: int|
                l < m < k ==> path@[m] != '/',
            !found ==> forall|m: int| de + 2 <= m < k ==> path@[m] != '/',
        decreases lim - k,
    {
        if path.get_char(k) == '/' {
            l = k;
            found = true;
        }
        k = k + 1;
    }
    if !found {
        proof {
            lemma_last_before_c_none(path@, '/', de + 2, lim as int);
        }
        return None;
    }
    proof {
        lemma_last_before_c_found(path@, '/', de + 2, lim as int, l as int);
    }
    Some((de, l))
}

/// Extracts `account_id` and `nickname` from the path of a confirmed
/// identity URL. The provider has already vouched for the assertion, so a
/// path that does not match the pattern is an internal error, as is an
/// account id beyond 64 bits; neither is ever defaulted.
pub fn parse_identity(path: &str) -> (r: Result<VerifiedAccount, Error>)
    ensures
        match r {
            Ok(acc) => {
                let m = spec_parse_identity(path@);
                m is Some && acc.account_id == dec_val_c(m.unwrap().0) && acc.nickname@
                    == m.unwrap().1
            },
            Err(e) => match e {
                Error::InternalError(InternalError::IdentityMismatch(p)) => p@ == path@
                    && spec_parse_identity(path@) is None,
                Error::InternalError(InternalError::AccountIdOutOfRange) => spec_parse_identity(
                    path@,
                ) is Some && dec_val_c(spec_parse_identity(path@).unwrap().0) > u64::MAX,
                _ => false,
            },
        },
{
    let n = path.unicode_len();
    let mut i: usize = 0;
    while i < n
        invariant
            i <= n == path@.len(),
            spec_find_identity(path@, 0) == spec_find_identity(path@, i as int),
        decreases n - i,
    {
        match try_match_at(path, i, n) {
            Some((de, l)) => {
                proof {
                    assert(spec_find_identity(path@, i as int) == spec_match_identity_at(
                        path@,
                        i as int,
                    ));
                }
                let v = match parse_dec_value_c(path, i + 4, de) {
                    Some(v) => v,
                    None => {
                        return Err(Error::InternalError(InternalError::AccountIdOutOfRange));
                    },
                };
                let nick = path.substring_char(de + 1, l).to_owned();
                return Ok(VerifiedAccount { account_id: v, nickname: nick });
            },
            None => {
                proof {
                    assert(spec_find_identity(path@, i as int) == spec_find_identity(
                        path@,
                        i + 1,
                    ));
                }
            },
        }
        i = i + 1;
    }
    Err(Error::InternalError(InternalError::IdentityMismatch(path.to_owned())))
}

/// The path component that `url::Url::parse` gives for a URL string, or
/// `None` where the string does not parse; a fixed function of the input.
pub uninterp spec fn url_path_of(u: Seq<char>) -> Option<Seq<char>>;

/// Relies on `url::Url::parse` and `url::Url::path`: parses the URL and
/// returns its path component.
#[verifier::external_body]
fn url_path(u: &str) -> (r: Option<String>)
    ensures
        match r {
            Some(p) => url_path_of(u@) == Some(p@),
            None => url_path_of(u@) is None,
        },
{
    match url::Url::parse(u) {
        Ok(x) => Some(x.path().to_owned()),
        Err(_) => None,
    }
}

/// Decides the outcome of a verification round trip from the provider's
/// response body and the asserted identity URL. Any body other than the
/// exact confirmation line is a rejection (`Ok(None)`), never an error; on
/// confirmation, the identity is parsed from the URL's path and a failure
/// there is an internal error.
pub fn interpret_verification(body: &str, identity: &str) -> (r: Result<
    Option<VerifiedAccount>,
    Error,
>)
    ensures
        body@ != spec_success_body() ==> r == Ok::<Option<VerifiedAccount>, Error>(None),
        match r {
            Ok(opt) => match opt {
                Some(acc) => body@ == spec_success_body() && url_path_of(identity@) is Some && {
                    let m = spec_parse_identity(url_path_of(identity@).unwrap());
                    m is Some && acc.account_id == dec_val_c(m.unwrap().0) && acc.nickname@
                        == m.unwrap().1
                },
                None => body@ != spec_success_body(),
            },
            Err(e) => body@ == spec_success_body() && match e {
                Error::InternalError(InternalError::IdentityMismatch(p)) => (url_path_of(
                    identity@,
                ) is None && p@ == identity@) || (url_path_of(identity@) is Some && p@
                    == url_path_of(identity@).unwrap() && spec_parse_identity(
                    url_path_of(identity@).unwrap(),
                ) is None),
                Error::InternalError(InternalError::AccountIdOutOfRange) => url_path_of(identity@)
                    is Some && spec_parse_identity(url_path_of(identity@).unwrap()) is Some
                    && dec_val_c(
                    spec_parse_identity(url_path_of(identity@).unwrap()).unwrap().0,
                ) > u64::MAX,
                _ => false,
            },
        },
{
    if !is_positive_assertion(body) {
        return Ok(None);
    }
    let p = match url_path(identity) {
        Some(p) => p,
        None => {
            return Err(Error::InternalError(InternalError::IdentityMismatch(identity.to_owned())));
        },
    };
    match parse_identity(p.as_str()) {
        Ok(acc) => Ok(Some(acc)),
        Err(e) => Err(e),
    }
}

/// The provider's verdict as the pipeline's outcome: a confirmed account
/// passes through unchanged, and a rejection is the rejected-assertion
/// client error — a legitimate negative outcome, never an internal one.
pub fn require_verified_account(outcome: Option<VerifiedAccount>) -> (r: Result<
    VerifiedAccount,
    Error,
>)
    ensures
        match outcome {
            Some(acc) => r == Ok::<VerifiedAccount, Error>(acc),
            None => r == Err::<VerifiedAccount, Error>(
                Error::ClientError(ClientError::OpenIDRejected),
            ),
        },
{
    match outcome {
        Some(acc) => Ok(acc),
        None => Err(Error::ClientError(ClientError::OpenIDRejected)),
    }
}

} // verus!
