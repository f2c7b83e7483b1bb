//! Statistics API client logic: the request parameters, the response
//! envelope, the account lookup and the battle-count eligibility gate.
//! The HTTP transport itself stays outside the library; everything the
//! response decides is decided here.
use vstd::prelude::*;

use crate::auth::create_token;
use crate::context::{AppId, ServerSecret};
use crate::digits::{dec_digits, dec_string_bytes};
use crate::error::{ClientError, Error, InternalError};
use crate::strutil::{ascii_chars, ascii_to_string, str_eq};

verus! {

/// Minimum battle count required before a session token is issued; the
/// count exactly at the threshold is accepted.
pub const MIN_BATTLES: u32 = 200;

/// Path of the account info endpoint under a region's API base URL.
pub open spec fn spec_account_info_path() -> Seq<char> {
    "/wot/account/info/"@
}

/// Path of the account info endpoint under a region's API base URL.
pub fn account_info_path() -> (r: &'static str)
    ensures
        r@ == spec_account_info_path(),
{
    "/wot/account/info/"
}

/// Battle statistics over all modes.
#[derive(Debug)]
pub struct ModeStatistics {
    pub battles: u32,
}

#[derive(Debug)]
pub struct AccountStatistics {
    pub all: ModeStatistics,
}

/// Public account record of the statistics API; the creation date is held
/// as seconds since the Unix epoch.
#[derive(Debug)]
pub struct AccountInfo {
    pub account_id: u64,
    pub nickname: String,
    pub created_at: i64,
    pub statistics: AccountStatistics,
}

impl AccountInfo {
    /// Field-for-field copy.
    pub fn duplicate(&self) -> (r: AccountInfo)
        ensures
            r == *self,
    {
        AccountInfo {
            account_id: self.account_id,
            nickname: self.nickname.clone(),
            created_at: self.created_at,
            statistics: AccountStatistics {
                all: ModeStatistics { battles: self.statistics.all.battles },
            },
        }
    }
}

/// Error body of the statistics API's envelope.
#[derive(Debug)]
pub struct ErrorDetail {
    pub message: String,
    pub code: u16,
    pub field: Option<String>,
    pub value: Option<String>,
}

/// The envelope every statistics API response arrives in, discriminated by
/// its status field.
#[derive(Debug)]
pub enum ApiResponse<T> {
    Success(T),
    Error(ErrorDetail),
}

/// Error message with which the API reports unusable application
/// credentials; mapped to a distinguished configuration error.
pub open spec fn spec_invalid_credentials_message() -> Seq<char> {
    "invalid access/application credentials"@
}

/// Decimal character rendering of an account id, as it keys the response
/// map.
pub open spec fn spec_account_key(account_id: u64) -> Seq<char> {
    ascii_chars(dec_digits(account_id as nat))
}

/// Unwraps the response envelope: data on success; on the error variant,
/// the known invalid-credentials message becomes a distinguished
/// configuration error and anything else an opaque upstream error whose
/// message is preserved for logs only.
pub fn get_response_data<T>(r: ApiResponse<T>) -> (out: Result<T, Error>)
    ensures
        match r {
            ApiResponse::Success(data) => out == Ok::<T, Error>(data),
            ApiResponse::Error(detail) => if detail.message@
                == spec_invalid_credentials_message() {
                out == Err::<T, Error>(Error::InternalError(InternalError::InvalidApiCredentials))
            } else {
                out == Err::<T, Error>(
                    Error::InternalError(InternalError::UpstreamError(detail.message)),
                )
            },
        },
{
    match r {
        ApiResponse::Success(data) => Ok(data),
        ApiResponse::Error(detail) => {
            if str_eq(detail.message.as_str(), "invalid access/application credentials") {
                Err(Error::InternalError(InternalError::InvalidApiCredentials))
            } else {
                Err(Error::InternalError(InternalError::UpstreamError(detail.message)))
            }
        },
    }
}

/// Query parameters of the account info request: the application id and the
/// requested account id, in that order.
pub fn account_info_query(app_id: &AppId, account_id: u64) -> (r: Vec<(String, String)>)
    ensures
        r@.len() == 2,
        r@[0].0@ == "application_id"@,
        r@[0].1 == app_id.0,
        r@[1].0@ == "account_id"@,
        r@[1].1@ == spec_account_key(account_id),
{
    let mut out: Vec<(String, String)> = Vec::new();
    out.push((String::from_str("application_id"), app_id.0.clone()));
    let key = account_key(account_id);
    out.push((String::from_str("account_id"), key));
    out
}

/// Renders an account id the way the response map keys it.
pub fn account_key(account_id: u64) -> (r: String)
    ensures
        r@ == spec_account_key(account_id),
{
    let bytes = dec_string_bytes(account_id);
    proof {
        crate::digits::lemma_dec_digits_are_digits(account_id as nat);
        assert forall|i: int| 0 <= i < bytes@.len() implies bytes@[i] < 128 by {
            assert(crate::digits::is_digit(bytes@[i]));
        }
    }
    ascii_to_string(bytes)
}

/// Value of the first entry whose key is `key`, or `None` if there is no
/// such entry.
pub open spec fn spec_lookup(s: Seq<(String, AccountInfo)>, key: Seq<char>) -> Option<AccountInfo>
    decreases s.len(),
{
    if s.len() == 0 {
        None
    } else if s[0].0@ == key {
        Some(s[0].1)
    } else {
        spec_lookup(s.drop_first(), key)
    }
}

/// Picks the requested account out of the decoded response map; an absent
/// account id is a distinct not-found condition.
pub fn lookup_account(entries: &Vec<(String, AccountInfo)>, account_id: u64) -> (r: Result<
    AccountInfo,
    Error,
>)
    ensures
        match r {
            Ok(info) => spec_lookup(entries@, spec_account_key(account_id)) == Some(info),
            Err(e) => spec_lookup(entries@, spec_account_key(account_id)) is None && e
                == Error::InternalError(InternalError::AccountNotFound(account_id)),
        },
{
    let needle = account_key(account_id);
    proof {
        assert(entries@.skip(0) =~= entries@);
    }
    let n = entries.len();
    let mut k: usize = 0;
    while k < n
        invariant
            k <= n == entries@.len(),
            needle@ == spec_account_key(account_id),
            spec_lookup(entries@, needle@) == spec_lookup(entries@.skip(k as int), needle@),
        decreases n - k,
    {
        if str_eq(entries[k].0.as_str(), needle.as_str()) {
            proof {
                assert(entries@.skip(k as int)[0] == entries@[k as int]);
                assert(spec_lookup(entries@.skip(k as int), needle@) == Some(
                    entries@[k as int].1,
                ));
            }
            return Ok(entries[k].1.duplicate());
        }
        proof {
            assert(entries@.skip(k as int)[0] == entries@[k as int]);
            assert(entries@.skip(k as int).drop_first() =~= entries@.skip(k + 1));
        }
        k = k + 1;
    }
    proof {
        assert(entries@.skip(n as int) =~= Seq::<(String, AccountInfo)>::empty());
    }
    Err(Error::InternalError(InternalError::AccountNotFound(account_id)))
}

/// Eligibility gate: accounts with fewer battles than the threshold are
/// turned away with the not-enough-battles client error; the threshold
/// itself is accepted.
pub fn check_minimum_battles(battles: u32) -> (r: Result<(), Error>)
    ensures
        r is Ok <==> battles >= MIN_BATTLES,
        r is Err ==> r == Err::<(), Error>(Error::ClientError(ClientError::NotEnoughBattles)),
{
    if battles < MIN_BATTLES {
        Err(Error::ClientError(ClientError::NotEnoughBattles))
    } else {
        Ok(())
    }
}

/// Final policy step of an authentication attempt: only an account at or
/// above the battle threshold gets a session token issued.
pub fn authorize_session(battles: u32, account_id: u64, secret: &ServerSecret) -> (r: Result<
    String,
    Error,
>)
    ensures
        battles < MIN_BATTLES ==> r == Err::<String, Error>(
            Error::ClientError(ClientError::NotEnoughBattles),
        ),
        battles >= MIN_BATTLES ==> match r {
            Ok(tok) => exists|iat: u64|
                iat + crate::auth::SESSION_DURATION_SECS <= u64::MAX && tok@ == ascii_chars(
                    #[trigger] crate::auth::spec_token_bytes(
                        account_id,
                        crate::auth::spec_secret_bytes(secret),
                        iat,
                    ),
                ),
            Err(e) => e == Error::InternalError(InternalError::InvalidClock),
        },
{
    match check_minimum_battles(battles) {
        Ok(()) => create_token(account_id, secret),
        Err(e) => Err(e),
    }
}

} // verus!
