//! Region registry: a static mapping from a region to the identity
//! provider's verification endpoint and the statistics API's base URL.
use vstd::prelude::*;

use crate::error::{Error, InternalError};

verus! {

/// Identity-provider endpoint that an assertion names; unknown endpoints
/// fail to construct (`from_url` returns `None`).
#[derive(Clone, Copy, Debug, PartialEq, Eq, Structural)]
pub enum OpenIDEndpoint {
    EU,
    NA,
    ASIA,
}

/// Region of the statistics API.
#[derive(Clone, Copy, Debug, PartialEq, Eq, Structural)]
pub enum ApiRealm {
    EU,
    NA,
    ASIA,
}

pub open spec fn spec_openid_url(e: OpenIDEndpoint) -> Seq<char> {
    match e {
        OpenIDEndpoint::EU => "https://eu.wargaming.net/id/openid/"@,
        OpenIDEndpoint::NA => "https://na.wargaming.net/id/openid/"@,
        OpenIDEndpoint::ASIA => "https://asia.wargaming.net/id/openid/"@,
    }
}

pub open spec fn spec_api_url(r: ApiRealm) -> Seq<char> {
    match r {
        ApiRealm::EU => "https://api.worldoftanks.eu"@,
        ApiRealm::NA => "https://api.worldoftanks.na"@,
        ApiRealm::ASIA => "https://api.worldoftanks.asia"@,
    }
}

pub open spec fn spec_api_realm_of(e: OpenIDEndpoint) -> ApiRealm {
    match e {
        OpenIDEndpoint::EU => ApiRealm::EU,
        OpenIDEndpoint::NA => ApiRealm::NA,
        OpenIDEndpoint::ASIA => ApiRealm::ASIA,
    }
}

/// The URL that `url::Url::parse(base)` then `join(path)` resolves to, or
/// `None` where parsing or joining fails; a fixed function of both inputs.
pub uninterp spec fn url_join_of(base: Seq<char>, path: Seq<char>) -> Option<Seq<char>>;

/// Relies on `url::Url::parse` and `url::Url::join`: resolves `path`
/// against `base` and renders the result, or fails where either step does.
#[verifier::external_body]
fn url_join(base: &str, path: &str) -> (r: Option<String>)
    ensures
        match r {
            Some(u) => url_join_of(base@, path@) == Some(u@),
            None => url_join_of(base@, path@) is None,
        },
{
    match url::Url::parse(base) {
        Ok(b) => match b.join(path) {
            Ok(u) => Some(u.as_str().to_owned()),
            Err(_) => None,
        },
        Err(_) => None,
    }
}

impl OpenIDEndpoint {
    /// Verification endpoint URL of the identity provider.
    pub fn url(&self) -> (r: String)
        ensures
            r@ == spec_openid_url(*self),
    {
        match self {
            OpenIDEndpoint::EU => String::from_str("https://eu.wargaming.net/id/openid/"),
            OpenIDEndpoint::NA => String::from_str("https://na.wargaming.net/id/openid/"),
            OpenIDEndpoint::ASIA => String::from_str("https://asia.wargaming.net/id/openid/"),
        }
    }

    /// The statistics API region served by the same realm.
    pub fn api_realm(&self) -> (r: ApiRealm)
        ensures
            r == spec_api_realm_of(*self),
    {
        match self {
            OpenIDEndpoint::EU => ApiRealm::EU,
            OpenIDEndpoint::NA => ApiRealm::NA,
            OpenIDEndpoint::ASIA => ApiRealm::ASIA,
        }
    }

    /// The endpoint whose URL is exactly `s`; any other string fails.
    pub fn from_url(s: &str) -> (r: Option<OpenIDEndpoint>)
        ensures
            match r {
                Some(e) => s@ == spec_openid_url(e),
                None => s@ != spec_openid_url(OpenIDEndpoint::EU) && s@ != spec_openid_url(
                    OpenIDEndpoint::NA,
                ) && s@ != spec_openid_url(OpenIDEndpoint::ASIA),
            },
    {
        if crate::strutil::str_eq(s, "https://eu.wargaming.net/id/openid/") {
            Some(OpenIDEndpoint::EU)
        } else if crate::strutil::str_eq(s, "https://na.wargaming.net/id/openid/") {
            Some(OpenIDEndpoint::NA)
        } else if crate::strutil::str_eq(s, "https://asia.wargaming.net/id/openid/") {
            Some(OpenIDEndpoint::ASIA)
        } else {
            None
        }
    }
}

impl ApiRealm {
    /// Base URL of the region's statistics API.
    pub fn url(&self) -> (r: String)
        ensures
            r@ == spec_api_url(*self),
    {
        match self {
            ApiRealm::EU => String::from_str("https://api.worldoftanks.eu"),
            ApiRealm::NA => String::from_str("https://api.worldoftanks.na"),
            ApiRealm::ASIA => String::from_str("https://api.worldoftanks.asia"),
        }
    }

    /// Resolves `endpoint` against the region's API base URL; a path that
    /// does not resolve is a configuration error.
    pub fn get_endpoint_url(&self, endpoint: &str) -> (r: Result<String, Error>)
        ensures
            match r {
                Ok(u) => url_join_of(spec_api_url(*self), endpoint@) == Some(u@),
                Err(e) => url_join_of(spec_api_url(*self), endpoint@) is None && match e {
                    Error::InternalError(InternalError::UrlJoinFailed(p)) => p@ == endpoint@,
                    _ => false,
                },
            },
    {
        let base = self.url();
        match url_join(base.as_str(), endpoint) {
            Some(u) => Ok(u),
            None => Err(Error::InternalError(InternalError::UrlJoinFailed(endpoint.to_owned()))),
        }
    }
}

} // verus!
