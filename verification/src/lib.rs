//! Delegated-identity authentication pipeline for a game-statistics backend.
//!
//! The crate covers the region registry, the statistics API envelope, the
//! OpenID assertion verification logic, session-token issuance and
//! verification, validated request extraction, and the bounded retry
//! executor.
pub mod api_client;
pub mod auth;
pub mod b64url;
pub mod claims;
pub mod context;
pub mod digits;
pub mod error;
pub mod model;
pub mod openid;
pub mod regions;
pub mod request_id;
pub mod retry;
pub mod strutil;
pub mod validation;
