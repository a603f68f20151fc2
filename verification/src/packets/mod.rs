//! The packets of the protocol, each as a type of its own.
//!
//! Every packet has a place in the wire format, so it can be read and written
//! like any other value. On top of that a packet that the server sends can be
//! parsed from the payload of a frame, and one that the client sends can be
//! turned into such a payload and knows the name it is listed under.

use vstd::prelude::*;
use vstd::string::StringExecFns;
use crate::ids::{Direction, IDS};

pub mod chunk;
pub mod entity;
pub mod login;
pub mod player;
pub mod plugin;
pub mod serverbound;
pub mod window;
pub mod world;

verus! {

/// The message of the error for a payload that is not a well-formed packet of
/// the given name.
pub fn malformed(name: &str) -> (message: String)
    ensures
        message@ == "malformed packet: "@ + name@,
{
    String::from_str("malformed packet: ").concat(name)
}

/// The message of the error for a packet of the given name that holds what
/// cannot be written.
pub fn unsendable(name: &str) -> (message: String)
    ensures
        message@ == "packet cannot be written: "@ + name@,
{
    String::from_str("packet cannot be written: ").concat(name)
}

/// A packet that the server sends.
pub trait ClientboundPacket: View + Sized {
    /// The name under which the packet is listed.
    spec fn listed() -> IDS;

    /// What a payload holds, if it is a well-formed packet of this type. Bytes
    /// that follow the packet are left aside.
    spec fn parsed(s: Seq<u8>) -> Option<Self::V>;

    /// Reads the packet from the payload of a frame.
    fn parse(data: &[u8]) -> (r: Result<Self, String>)
        ensures
            match r {
                Ok(p) => Self::parsed(data@) == Some(p@),
                Err(_) => Self::parsed(data@) is None,
            },
    ;

    /// The name under which the packet is listed.
    fn id() -> (r: IDS)
        ensures
            r == Self::listed(),
            r.spec_direction() == Direction::Clientbound,
    ;
}

/// A packet that the client sends.
pub trait ServerboundPacket: View + Sized {
    /// The name under which the packet is listed.
    spec fn packet_id(&self) -> IDS;

    /// Whether the packet can be written: its strings and counts are within
    /// the limits of the format.
    spec fn sendable(m: Self::V) -> bool;

    /// The payload that stands for the packet: its fields in order, without
    /// the packet's number.
    spec fn payload(m: Self::V) -> Seq<u8>;

    /// The payload of the packet, or an error where the packet holds what
    /// cannot be written.
    fn to_bytes(&self) -> (r: Result<Vec<u8>, String>)
        ensures
            match r {
                Ok(bytes) => Self::sendable(self@) && bytes@ == Self::payload(self@),
                Err(_) => !Self::sendable(self@),
            },
    ;

    /// The name under which the packet is listed.
    fn id(&self) -> (r: IDS)
        ensures
            r == self.packet_id(),
            r.spec_direction() == Direction::Serverbound,
    ;
}

} // verus!
