use wot_api::regions::{ApiRealm, OpenIDEndpoint};

#[test]
fn every_region_has_both_endpoints() {
    assert_eq!(OpenIDEndpoint::EU.url(), "https://eu.wargaming.net/id/openid/");
    assert_eq!(OpenIDEndpoint::NA.url(), "https://na.wargaming.net/id/openid/");
    assert_eq!(OpenIDEndpoint::ASIA.url(), "https://asia.wargaming.net/id/openid/");
    assert_eq!(ApiRealm::EU.url(), "https://api.worldoftanks.eu");
    assert_eq!(ApiRealm::NA.url(), "https://api.worldoftanks.na");
    assert_eq!(ApiRealm::ASIA.url(), "https://api.worldoftanks.asia");
}

#[test]
fn endpoint_maps_to_its_realm() {
    assert_eq!(OpenIDEndpoint::EU.api_realm(), ApiRealm::EU);
    assert_eq!(OpenIDEndpoint::NA.api_realm(), ApiRealm::NA);
    assert_eq!(OpenIDEndpoint::ASIA.api_realm(), ApiRealm::ASIA);
}

#[test]
fn unknown_endpoint_fails_to_construct() {
    assert!(matches!(
        OpenIDEndpoint::from_url("https://eu.wargaming.net/id/openid/"),
        Some(OpenIDEndpoint::EU)
    ));
    assert!(matches!(
        OpenIDEndpoint::from_url("https://asia.wargaming.net/id/openid/"),
        Some(OpenIDEndpoint::ASIA)
    ));
    assert!(OpenIDEndpoint::from_url("https://ru.wargaming.net/id/openid/").is_none());
    assert!(OpenIDEndpoint::from_url("https://eu.wargaming.net/id/openid").is_none());
    assert!(OpenIDEndpoint::from_url("").is_none());
}

#[test]
fn endpoint_urls_resolve_against_the_base() {
    let u = ApiRealm::EU.get_endpoint_url("/wot/account/info/").expect("resolves");
    assert_eq!(u, "https://api.worldoftanks.eu/wot/account/info/");
    let u = ApiRealm::ASIA.get_endpoint_url("/wot/account/info/").expect("resolves");
    assert_eq!(u, "https://api.worldoftanks.asia/wot/account/info/");
    // Relative resolution really happens: a relative path replaces nothing
    // and a fresh absolute path replaces the old one.
    let u = ApiRealm::NA.get_endpoint_url("wot/account/list/").expect("resolves");
    assert_eq!(u, "https://api.worldoftanks.na/wot/account/list/");
}
