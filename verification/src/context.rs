//! Configuration values handed to the pipeline from outside: the statistics
//! API application id and the token signing secret.
use vstd::prelude::*;

verus! {

/// Application id (API key) for the statistics API.
#[derive(Debug, Clone)]
pub struct AppId(pub String);

/// Symmetric secret that session tokens are signed with.
#[derive(Debug, Clone)]
pub struct ServerSecret(pub String);

} // verus!
