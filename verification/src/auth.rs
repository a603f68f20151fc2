//! What the login services hand to the library: the answers that it is given,
//! as plain values.
//!
//! The library does not talk to these services. Whoever does hands it a token
//! and a profile, and asks it for the request that joins a server.

use vstd::prelude::*;

verus! {

/// The answer of the Xbox Live service: a token.
#[derive(Debug, Clone, PartialEq, Eq)]
pub struct XboxAuthResponse {
    pub Token: String,
}

/// The profile of a player: its id, as hexadecimal digits with or without
/// dashes, and its name.
#[derive(Debug, Clone, PartialEq, Eq)]
pub struct MinecraftProfileResponse {
    pub id: String,
    pub name: String,
}

} // verus!
