use wot_api::error::{ClientError, Error, InternalError};
use wot_api::openid::{
    interpret_verification, is_positive_assertion, parse_identity, prepare_verification,
    require_verified_account, OpenIDParams, VerifiedAccount,
};
use wot_api::regions::OpenIDEndpoint;

const SUCCESS: &str = "is_valid:true\nns:http://specs.openid.net/auth/2.0\n";

#[test]
fn verification_is_fail_closed() {
    assert!(is_positive_assertion(SUCCESS));
    assert!(!is_positive_assertion(""));
    assert!(!is_positive_assertion("is_valid:true"));
    assert!(!is_positive_assertion("is_valid:true\nns:http://specs.openid.net/auth/2.0"));
    assert!(!is_positive_assertion("is_valid:true\nns:http://specs.openid.net/auth/2.0\n\n"));
    assert!(!is_positive_assertion("IS_VALID:TRUE\nns:http://specs.openid.net/auth/2.0\n"));
    assert!(!is_positive_assertion("is_valid:false\nns:http://specs.openid.net/auth/2.0\n"));
    assert!(!is_positive_assertion(" is_valid:true\nns:http://specs.openid.net/auth/2.0\n"));
}

#[test]
fn identity_path_parses_id_and_nickname() {
    let acc = parse_identity("/id/12345-Foo/").expect("parses");
    assert_eq!(acc.account_id, 12345);
    assert_eq!(acc.nickname, "Foo");
}

#[test]
fn identity_path_failures_are_errors_not_defaults() {
    // No digits between the marker and the dash.
    assert!(parse_identity("/id/-Foo/").is_err());
    // No trailing slash after the nickname.
    assert!(parse_identity("/id/12345-Foo").is_err());
    // Empty nickname.
    assert!(parse_identity("/id/12345-/").is_err());
    // No marker at all.
    assert!(parse_identity("/profile/12345-Foo/").is_err());
    assert!(parse_identity("").is_err());
}

#[test]
fn identity_match_is_leftmost_and_greedy() {
    // The first marker lacks digits, so the match starts at the second.
    let acc = parse_identity("/id/x/id/5-a/").expect("parses");
    assert_eq!(acc.account_id, 5);
    assert_eq!(acc.nickname, "a");
    // The nickname runs to the last slash of the line.
    let acc = parse_identity("/id/7-a/b/").expect("parses");
    assert_eq!(acc.account_id, 7);
    assert_eq!(acc.nickname, "a/b");
    // A prefix before the marker is fine.
    let acc = parse_identity("/eu/id/42-Nick/").expect("parses");
    assert_eq!(acc.account_id, 42);
    assert_eq!(acc.nickname, "Nick");
}

#[test]
fn identity_id_beyond_u64_is_an_error() {
    let r = parse_identity("/id/99999999999999999999-x/");
    assert!(matches!(
        r,
        Err(Error::InternalError(InternalError::AccountIdOutOfRange))
    ));
}

#[test]
fn interpretation_confirms_and_extracts() {
    let r = interpret_verification(SUCCESS, "https://eu.wargaming.net/id/12345-Foo/");
    let acc = r.expect("no error").expect("confirmed");
    assert_eq!(acc.account_id, 12345);
    assert_eq!(acc.nickname, "Foo");
}

#[test]
fn interpretation_reads_only_the_url_path() {
    // The query string would change the nickname if the whole URL were
    // scanned; only the path is.
    let r = interpret_verification(
        SUCCESS,
        "https://eu.wargaming.net/id/123-Foo/?next=a/b",
    );
    let acc = r.expect("no error").expect("confirmed");
    assert_eq!(acc.account_id, 123);
    assert_eq!(acc.nickname, "Foo");
}

#[test]
fn rejection_is_a_negative_outcome_not_an_error() {
    let r = interpret_verification("is_valid:false\n", "https://eu.wargaming.net/id/1-a/");
    assert!(matches!(r, Ok(None)));
}

#[test]
fn confirmed_but_malformed_identity_is_an_internal_error() {
    let r = interpret_verification(SUCCESS, "https://eu.wargaming.net/profile/12345/");
    assert!(matches!(r, Err(Error::InternalError(_))));
    let r = interpret_verification(SUCCESS, "not a url at all");
    assert!(matches!(r, Err(Error::InternalError(_))));
}

#[test]
fn preparation_overrides_only_the_mode() {
    let params = OpenIDParams {
        mode: "id_res".to_string(),
        endpoint: OpenIDEndpoint::EU,
        identity: "https://eu.wargaming.net/id/1-a/".to_string(),
        other: vec![("openid.sig".to_string(), "abc".to_string())],
    };
    let prepared = prepare_verification(params);
    assert_eq!(prepared.mode, "check_authentication");
    assert!(matches!(prepared.endpoint, OpenIDEndpoint::EU));
    assert_eq!(prepared.identity, "https://eu.wargaming.net/id/1-a/");
    assert_eq!(prepared.other.len(), 1);
    assert_eq!(prepared.other[0].0, "openid.sig");
    assert_eq!(prepared.other[0].1, "abc");
}

#[test]
fn provider_rejection_maps_to_the_client_error() {
    let confirmed = VerifiedAccount { account_id: 9, nickname: "Nick".to_string() };
    let acc = require_verified_account(Some(confirmed)).unwrap();
    assert_eq!(acc.account_id, 9);
    assert_eq!(acc.nickname, "Nick");
    assert!(matches!(
        require_verified_account(None),
        Err(Error::ClientError(ClientError::OpenIDRejected))
    ));
}
