//! The versions of the protocol that the library speaks.

use vstd::prelude::*;

verus! {

/// A version of the protocol.
#[derive(Debug, Clone, Copy, PartialEq, Eq, Structural)]
pub enum ProtocolVersion {
    /// Version 47, which the game speaks from 1.8 to 1.8.9.
    V47,
}

impl ProtocolVersion {
    /// The number that the handshake names the version by.
    pub fn id(self) -> (n: i32)
        ensures
            n == 47,
    {
        match self {
            ProtocolVersion::V47 => 47,
        }
    }
}

} // verus!
