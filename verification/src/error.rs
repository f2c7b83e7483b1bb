//! Error taxonomy of the authentication pipeline: client errors are safe to
//! echo to the caller, internal errors are surfaced only as an opaque
//! failure.
use vstd::prelude::*;

verus! {

/// One field-level violation found by semantic validation.
#[derive(Debug)]
pub struct FieldError {
    /// Name of the offending field, or `"__all__"` for a cross-field rule.
    pub field: String,
    /// Short code naming the violated rule.
    pub code: String,
}

/// The structured list of field-level violations of one payload.
#[derive(Debug)]
pub struct ValidationErrors {
    pub errors: Vec<FieldError>,
}

/// Errors caused by the caller; their description is safe to return.
#[derive(Debug)]
pub enum ClientError {
    /// The query string does not decode into the target type.
    InvalidQuerySchema(String),
    /// The query decoded but violates a domain rule.
    InvalidQuery(ValidationErrors),
    /// The request body does not decode into the target type.
    InvalidBodySchema(String),
    /// The body decoded but violates a domain rule.
    InvalidBody(ValidationErrors),
    /// An authorization header is present but not a bearer scheme.
    InvalidAuthHeader,
    /// The bearer token failed verification or is expired.
    InvalidBearerToken,
    /// The endpoint requires an identity and none is attached.
    AuthRequired,
    /// The identity provider rejected the assertion.
    OpenIDRejected,
    /// The account's battle count is below the required threshold.
    NotEnoughBattles,
}

/// Failures that are logged in full but surfaced opaquely.
#[derive(Debug)]
pub enum InternalError {
    /// An endpoint path could not be resolved against a region's base URL.
    UrlJoinFailed(String),
    /// The statistics API reported the application credentials invalid.
    InvalidApiCredentials,
    /// Any other error envelope from the statistics API; the message is kept
    /// for logs only.
    UpstreamError(String),
    /// The requested account id is absent from the statistics response map.
    AccountNotFound(u64),
    /// The provider confirmed the assertion but the identity URL path does
    /// not have the expected shape.
    IdentityMismatch(String),
    /// The identity URL path matched but its digits exceed an unsigned
    /// 64-bit integer.
    AccountIdOutOfRange,
    /// The system clock is outside the range a token can be issued for.
    InvalidClock,
    /// A transport or decoding failure while talking to an external service.
    Transport(String),
}

#[derive(Debug)]
pub enum Error {
    ClientError(ClientError),
    InternalError(InternalError),
}

pub open spec fn spec_client_status(e: ClientError) -> u16 {
    match e {
        ClientError::InvalidQuerySchema(_) => 400,
        ClientError::InvalidQuery(_) => 400,
        ClientError::InvalidBodySchema(_) => 400,
        ClientError::InvalidBody(_) => 400,
        ClientError::InvalidAuthHeader => 401,
        ClientError::InvalidBearerToken => 401,
        ClientError::AuthRequired => 401,
        ClientError::OpenIDRejected => 401,
        ClientError::NotEnoughBattles => 401,
    }
}

pub open spec fn spec_client_name(e: ClientError) -> Seq<char> {
    match e {
        ClientError::InvalidQuerySchema(_) => "InvalidQuerySchema"@,
        ClientError::InvalidQuery(_) => "InvalidQuery"@,
        ClientError::InvalidBodySchema(_) => "InvalidBodySchema"@,
        ClientError::InvalidBody(_) => "InvalidBody"@,
        ClientError::InvalidAuthHeader => "InvalidAuthHeader"@,
        ClientError::InvalidBearerToken => "InvalidBearerToken"@,
        ClientError::AuthRequired => "AuthRequired"@,
        ClientError::OpenIDRejected => "OpenIDRejected"@,
        ClientError::NotEnoughBattles => "NotEnoughBattles"@,
    }
}

impl ClientError {
    /// HTTP status that the error maps to.
    pub fn status_code(&self) -> (r: u16)
        ensures
            r == spec_client_status(*self),
    {
        match self {
            ClientError::InvalidQuerySchema(_) => 400,
            ClientError::InvalidQuery(_) => 400,
            ClientError::InvalidBodySchema(_) => 400,
            ClientError::InvalidBody(_) => 400,
            ClientError::InvalidAuthHeader => 401,
            ClientError::InvalidBearerToken => 401,
            ClientError::AuthRequired => 401,
            ClientError::OpenIDRejected => 401,
            ClientError::NotEnoughBattles => 401,
        }
    }

    /// Stable name of the error variant, as serialized to clients.
    pub fn name(&self) -> (r: String)
        ensures
            r@ == spec_client_name(*self),
    {
        match self {
            ClientError::InvalidQuerySchema(_) => String::from_str("InvalidQuerySchema"),
            ClientError::InvalidQuery(_) => String::from_str("InvalidQuery"),
            ClientError::InvalidBodySchema(_) => String::from_str("InvalidBodySchema"),
            ClientError::InvalidBody(_) => String::from_str("InvalidBody"),
            ClientError::InvalidAuthHeader => String::from_str("InvalidAuthHeader"),
            ClientError::InvalidBearerToken => String::from_str("InvalidBearerToken"),
            ClientError::AuthRequired => String::from_str("AuthRequired"),
            ClientError::OpenIDRejected => String::from_str("OpenIDRejected"),
            ClientError::NotEnoughBattles => String::from_str("NotEnoughBattles"),
        }
    }
}

pub open spec fn spec_error_status(e: Error) -> u16 {
    match e {
        Error::ClientError(c) => spec_client_status(c),
        Error::InternalError(_) => 500,
    }
}

impl Error {
    /// HTTP status that the error maps to; internal errors are opaque.
    pub fn status_code(&self) -> (r: u16)
        ensures
            r == spec_error_status(*self),
    {
        match self {
            Error::ClientError(c) => c.status_code(),
            Error::InternalError(_) => 500,
        }
    }
}

} // verus!
