use wot_api::api_client::{
    account_info_query, account_key, authorize_session, check_minimum_battles, get_response_data,
    lookup_account, AccountInfo, AccountStatistics, ApiResponse, ErrorDetail, ModeStatistics,
    MIN_BATTLES,
};
use wot_api::context::{AppId, ServerSecret};
use wot_api::error::{ClientError, Error, InternalError};

fn account(id: u64, nickname: &str, battles: u32) -> AccountInfo {
    AccountInfo {
        account_id: id,
        nickname: nickname.to_string(),
        created_at: 1_600_000_000,
        statistics: AccountStatistics { all: ModeStatistics { battles } },
    }
}

fn error_detail(message: &str) -> ErrorDetail {
    ErrorDetail { message: message.to_string(), code: 407, field: None, value: None }
}

#[test]
fn success_envelope_yields_the_data() {
    let r: Result<u32, Error> = get_response_data(ApiResponse::Success(7));
    assert_eq!(r.unwrap(), 7);
}

#[test]
fn credential_sentinel_is_distinguished() {
    let r: Result<u32, Error> =
        get_response_data(ApiResponse::Error(error_detail("invalid access/application credentials")));
    assert!(matches!(
        r,
        Err(Error::InternalError(InternalError::InvalidApiCredentials))
    ));
}

#[test]
fn other_error_envelopes_keep_their_message_for_logs() {
    let r: Result<u32, Error> =
        get_response_data(ApiResponse::Error(error_detail("SOURCE_NOT_AVAILABLE")));
    match r {
        Err(Error::InternalError(InternalError::UpstreamError(msg))) => {
            assert_eq!(msg, "SOURCE_NOT_AVAILABLE");
        },
        _ => panic!("expected an opaque upstream error"),
    }
}

#[test]
fn request_parameters_are_built_from_the_configuration() {
    let q = account_info_query(&AppId("my-app-id".to_string()), 500075682);
    assert_eq!(q.len(), 2);
    assert_eq!(q[0].0, "application_id");
    assert_eq!(q[0].1, "my-app-id");
    assert_eq!(q[1].0, "account_id");
    assert_eq!(q[1].1, "500075682");
}

#[test]
fn account_keys_are_decimal() {
    assert_eq!(account_key(0), "0");
    assert_eq!(account_key(12345), "12345");
    assert_eq!(account_key(u64::MAX), "18446744073709551615");
}

#[test]
fn lookup_finds_the_requested_account() {
    let entries = vec![
        ("1".to_string(), account(1, "a", 10)),
        ("12345".to_string(), account(12345, "b", 500)),
    ];
    let info = lookup_account(&entries, 12345).expect("present");
    assert_eq!(info.account_id, 12345);
    assert_eq!(info.nickname, "b");
    assert_eq!(info.statistics.all.battles, 500);
}

#[test]
fn absent_account_is_not_found_not_a_decode_failure() {
    let entries = vec![("1".to_string(), account(1, "a", 10))];
    let r = lookup_account(&entries, 2);
    assert!(matches!(
        r,
        Err(Error::InternalError(InternalError::AccountNotFound(2)))
    ));
}

#[test]
fn battle_threshold_is_inclusive() {
    assert!(check_minimum_battles(MIN_BATTLES).is_ok());
    assert!(check_minimum_battles(MIN_BATTLES + 1).is_ok());
    let r = check_minimum_battles(MIN_BATTLES - 1);
    assert!(matches!(
        r,
        Err(Error::ClientError(ClientError::NotEnoughBattles))
    ));
    assert!(check_minimum_battles(0).is_err());
}

#[test]
fn authorization_gates_then_issues() {
    let secret = ServerSecret("secret".to_string());
    let token = authorize_session(200, 12345, &secret).expect("eligible");
    assert!(token.contains('.'));
    let r = authorize_session(199, 12345, &secret);
    assert!(matches!(
        r,
        Err(Error::ClientError(ClientError::NotEnoughBattles))
    ));
}

#[test]
fn status_codes_follow_the_error_taxonomy() {
    assert_eq!(ClientError::InvalidQuerySchema("x".to_string()).status_code(), 400);
    assert_eq!(ClientError::InvalidBodySchema("x".to_string()).status_code(), 400);
    assert_eq!(ClientError::InvalidAuthHeader.status_code(), 401);
    assert_eq!(ClientError::InvalidBearerToken.status_code(), 401);
    assert_eq!(ClientError::AuthRequired.status_code(), 401);
    assert_eq!(ClientError::OpenIDRejected.status_code(), 401);
    assert_eq!(ClientError::NotEnoughBattles.status_code(), 401);
    assert_eq!(Error::ClientError(ClientError::AuthRequired).status_code(), 401);
    assert_eq!(
        Error::InternalError(InternalError::AccountNotFound(1)).status_code(),
        500
    );
    assert_eq!(ClientError::NotEnoughBattles.name(), "NotEnoughBattles");
    assert_eq!(ClientError::InvalidBearerToken.name(), "InvalidBearerToken");
}
