//! Registries: which packet a number names, and which number a packet has, in
//! one version of the protocol.

use vstd::prelude::*;
use crate::ids::{Direction, Phase, IDS};

verus! {

/// The packets of one version of the protocol and their numbers.
pub trait PacketRegistry {
    /// The packet that `id` names in the given phase and direction, if it
    /// names one.
    spec fn label_of(phase: Phase, direction: Direction, id: int) -> Option<IDS>;

    /// The number of a packet.
    spec fn id_of(label: IDS) -> int;

    /// The packet that `id` names in the given phase and direction, if it
    /// names one.
    fn id_to_label(phase: Phase, direction: Direction, id: i32) -> (r: Option<IDS>)
        ensures
            r == Self::label_of(phase, direction, id as int),
    ;

    /// The number of a packet.
    fn label_to_id(label: IDS) -> (r: i32)
        ensures
            r == Self::id_of(label),
    ;
}

/// The registry of version 47.
pub struct V47Registry;

impl PacketRegistry for V47Registry {
    open spec fn label_of(phase: Phase, direction: Direction, id: int) -> Option<IDS> {
        IDS::named(phase, direction, id)
    }

    open spec fn id_of(label: IDS) -> int {
        label.number()
    }

    fn id_to_label(phase: Phase, direction: Direction, id: i32) -> (r: Option<IDS>) {
        match direction {
            Direction::Clientbound => IDS::from_clientbound_id(phase, id),
            Direction::Serverbound => IDS::from_serverbound_id(phase, id),
        }
    }

    fn label_to_id(label: IDS) -> (r: i32) {
        label.parse()
    }
}

} // verus!
