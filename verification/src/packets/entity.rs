//! The packets by which the server tells of entities.

use vstd::prelude::*;
use crate::arrays::{CountedArray, VarIntArray};
use crate::basic::{Angle, Boolean, Position, UUID};
use crate::fixed::{Byte, Double, Int, Short, UnsignedByte};
use crate::ids::IDS;
use crate::metadata::{EntityMetadata, MetadataEntryModel};
use crate::optional::OptionalNbt;
use crate::packets::{malformed, ClientboundPacket};
use crate::slot::{Slot, SlotModel};
use crate::text::VarString;
use crate::varint::VarInt;
use crate::wire::{lemma_field_read, lemma_join, present, read, tail, only_if, taken, Wire};

verus! {

/// A player has come into view.
#[derive(Debug, Clone, PartialEq, Eq)]
pub struct SpawnPlayer {
    pub entity_id: VarInt,
    pub player_uuid: UUID,
    pub x: Int,
    pub y: Int,
    pub z: Int,
    pub yaw: Angle,
    pub pitch: Angle,
    pub current_item: Short,
    pub metadata: EntityMetadata,
}

/// What a `SpawnPlayer` holds.
pub struct SpawnPlayerModel {
    pub entity_id: VarInt,
    pub player_uuid: Seq<u8>,
    pub x: Int,
    pub y: Int,
    pub z: Int,
    pub yaw: Angle,
    pub pitch: Angle,
    pub current_item: Short,
    pub metadata: Seq<MetadataEntryModel>,
}

impl View for SpawnPlayer {
    type V = SpawnPlayerModel;

    open spec fn view(&self) -> SpawnPlayerModel {
        SpawnPlayerModel {
            entity_id: self.entity_id@,
            player_uuid: self.player_uuid@,
            x: self.x@,
            y: self.y@,
            z: self.z@,
            yaw: self.yaw@,
            pitch: self.pitch@,
            current_item: self.current_item@,
            metadata: self.metadata@,
        }
    }
}

impl SpawnPlayer {
    /// A packet of the given fields.
    pub fn new(
        entity_id: VarInt,
        player_uuid: UUID,
        x: Int,
        y: Int,
        z: Int,
        yaw: Angle,
        pitch: Angle,
        current_item: Short,
        metadata: EntityMetadata,
    ) -> (r: Self)
        ensures
            r == (SpawnPlayer {
                entity_id,
                player_uuid,
                x,
                y,
                z,
                yaw,
                pitch,
                current_item,
                metadata,
            }),
    {
        SpawnPlayer {
            entity_id,
            player_uuid,
            x,
            y,
            z,
            yaw,
            pitch,
            current_item,
            metadata,
        }
    }
}

impl Wire for SpawnPlayer {
    open spec fn valid(m: SpawnPlayerModel) -> bool {
        &&& VarInt::valid(m.entity_id)
        &&& UUID::valid(m.player_uuid)
        &&& Int::valid(m.x)
        &&& Int::valid(m.y)
        &&& Int::valid(m.z)
        &&& Angle::valid(m.yaw)
        &&& Angle::valid(m.pitch)
        &&& Short::valid(m.current_item)
        &&& EntityMetadata::valid(m.metadata)
    }

    open spec fn wire(m: SpawnPlayerModel) -> Seq<u8> {
        VarInt::wire(m.entity_id)
            + UUID::wire(m.player_uuid)
            + Int::wire(m.x)
            + Int::wire(m.y)
            + Int::wire(m.z)
            + Angle::wire(m.yaw)
            + Angle::wire(m.pitch)
            + Short::wire(m.current_item)
            + EntityMetadata::wire(m.metadata)
    }

    open spec fn decoded(s: Seq<u8>) -> Option<(SpawnPlayerModel, int)> {
        let r0 = VarInt::decoded(s);
        let n0 = taken(r0);
        let f_entity_id = read(r0);
        let r1 = UUID::decoded(s.skip(n0));
        let n1 = n0 + taken(r1);
        let f_player_uuid = read(r1);
        let r2 = Int::decoded(s.skip(n1));
        let n2 = n1 + taken(r2);
        let f_x = read(r2);
        let r3 = Int::decoded(s.skip(n2));
        let n3 = n2 + taken(r3);
        let f_y = read(r3);
        let r4 = Int::decoded(s.skip(n3));
        let n4 = n3 + taken(r4);
        let f_z = read(r4);
        let r5 = Angle::decoded(s.skip(n4));
        let n5 = n4 + taken(r5);
        let f_yaw = read(r5);
        let r6 = Angle::decoded(s.skip(n5));
        let n6 = n5 + taken(r6);
        let f_pitch = read(r6);
        let r7 = Short::decoded(s.skip(n6));
        let n7 = n6 + taken(r7);
        let f_current_item = read(r7);
        let r8 = EntityMetadata::decoded(s.skip(n7));
        let n8 = n7 + taken(r8);
        let f_metadata = read(r8);
        if r0 is Some && r1 is Some && r2 is Some && r3 is Some && r4 is Some && r5 is Some
            && r6 is Some && r7 is Some && r8 is Some {
            Some(
                (
                    SpawnPlayerModel {
                        entity_id: f_entity_id,
                        player_uuid: f_player_uuid,
                        x: f_x,
                        y: f_y,
                        z: f_z,
                        yaw: f_yaw,
                        pitch: f_pitch,
                        current_item: f_current_item,
                        metadata: f_metadata,
                    },
                    n8,
                ),
            )
        } else {
            None
        }
    }

    fn decode(data: &[u8]) -> (r: Option<(Self, usize)>) {
        let (f_entity_id, k0) = match <VarInt as Wire>::decode(data) {
            Some(x) => x,
            None => {
                return None;
            },
        };
        proof {
            VarInt::lemma_decoded_bounds(data@);
        }
        let n0 = k0;
        let (f_player_uuid, k1) = match <UUID as Wire>::decode(tail(data, n0)) {
            Some(x) => x,
            None => {
                return None;
            },
        };
        proof {
            UUID::lemma_decoded_bounds(data@.skip(n0 as int));
        }
        let n1 = n0 + k1;
        let (f_x, k2) = match <Int as Wire>::decode(tail(data, n1)) {
            Some(x) => x,
            None => {
                return None;
            },
        };
        proof {
            Int::lemma_decoded_bounds(data@.skip(n1 as int));
        }
        let n2 = n1 + k2;
        let (f_y, k3) = match <Int as Wire>::decode(tail(data, n2)) {
            Some(x) => x,
            None => {
                return None;
            },
        };
        proof {
            Int::lemma_decoded_bounds(data@.skip(n2 as int));
        }
        let n3 = n2 + k3;
        let (f_z, k4) = match <Int as Wire>::decode(tail(data, n3)) {
            Some(x) => x,
            None => {
                return None;
            },
        };
        proof {
            Int::lemma_decoded_bounds(data@.skip(n3 as int));
        }
        let n4 = n3 + k4;
        let (f_yaw, k5) = match <Angle as Wire>::decode(tail(data, n4)) {
            Some(x) => x,
            None => {
                return None;
            },
        };
        proof {
            Angle::lemma_decoded_bounds(data@.skip(n4 as int));
        }
        let n5 = n4 + k5;
        let (f_pitch, k6) = match <Angle as Wire>::decode(tail(data, n5)) {
            Some(x) => x,
            None => {
                return None;
            },
        };
        proof {
            Angle::lemma_decoded_bounds(data@.skip(n5 as int));
        }
        let n6 = n5 + k6;
        let (f_current_item, k7) = match <Short as Wire>::decode(tail(data, n6)) {
            Some(x) => x,
            None => {
                return None;
            },
        };
        proof {
            Short::lemma_decoded_bounds(data@.skip(n6 as int));
        }
        let n7 = n6 + k7;
        let (f_metadata, k8) = match <EntityMetadata as Wire>::decode(tail(data, n7)) {
            Some(x) => x,
            None => {
                return None;
            },
        };
        proof {
            EntityMetadata::lemma_decoded_bounds(data@.skip(n7 as int));
        }
        let n8 = n7 + k8;
        Some(
            (
                SpawnPlayer {
                    entity_id: f_entity_id,
                    player_uuid: f_player_uuid,
                    x: f_x,
                    y: f_y,
                    z: f_z,
                    yaw: f_yaw,
                    pitch: f_pitch,
                    current_item: f_current_item,
                    metadata: f_metadata,
                },
                n8,
            ),
        )
    }

    fn encode(&self, out: &mut Vec<u8>) {
        self.entity_id.encode(out);
        self.player_uuid.encode(out);
        self.x.encode(out);
        self.y.encode(out);
        self.z.encode(out);
        self.yaw.encode(out);
        self.pitch.encode(out);
        self.current_item.encode(out);
        self.metadata.encode(out);
        assert(out@ =~= old(out)@ + Self::wire(self@));
    }

    fn check(&self) -> (b: bool) {
        self.entity_id.check()
            && self.player_uuid.check()
            && self.x.check()
            && self.y.check()
            && self.z.check()
            && self.yaw.check()
            && self.pitch.check()
            && self.current_item.check()
            && self.metadata.check()
    }

    proof fn lemma_decoded_bounds(s: Seq<u8>) {
        let r0 = VarInt::decoded(s);
        VarInt::lemma_decoded_bounds(s);
        let n0 = taken(r0);
        let f_entity_id = read(r0);
        let r1 = UUID::decoded(s.skip(n0));
        UUID::lemma_decoded_bounds(s.skip(n0));
        let n1 = n0 + taken(r1);
        let f_player_uuid = read(r1);
        let r2 = Int::decoded(s.skip(n1));
        Int::lemma_decoded_bounds(s.skip(n1));
        let n2 = n1 + taken(r2);
        let f_x = read(r2);
        let r3 = Int::decoded(s.skip(n2));
        Int::lemma_decoded_bounds(s.skip(n2));
        let n3 = n2 + taken(r3);
        let f_y = read(r3);
        let r4 = Int::decoded(s.skip(n3));
        Int::lemma_decoded_bounds(s.skip(n3));
        let n4 = n3 + taken(r4);
        let f_z = read(r4);
        let r5 = Angle::decoded(s.skip(n4));
        Angle::lemma_decoded_bounds(s.skip(n4));
        let n5 = n4 + taken(r5);
        let f_yaw = read(r5);
        let r6 = Angle::decoded(s.skip(n5));
        Angle::lemma_decoded_bounds(s.skip(n5));
        let n6 = n5 + taken(r6);
        let f_pitch = read(r6);
        let r7 = Short::decoded(s.skip(n6));
        Short::lemma_decoded_bounds(s.skip(n6));
        let n7 = n6 + taken(r7);
        let f_current_item = read(r7);
        let r8 = EntityMetadata::decoded(s.skip(n7));
        EntityMetadata::lemma_decoded_bounds(s.skip(n7));
        let n8 = n7 + taken(r8);
        let f_metadata = read(r8);
    }

    proof fn lemma_decoded_wire(m: SpawnPlayerModel, rest: Seq<u8>) {
        let s = Self::wire(m) + rest;
        let w0 = VarInt::wire(m.entity_id);
        let w1 = UUID::wire(m.player_uuid);
        let w2 = Int::wire(m.x);
        let w3 = Int::wire(m.y);
        let w4 = Int::wire(m.z);
        let w5 = Angle::wire(m.yaw);
        let w6 = Angle::wire(m.pitch);
        let w7 = Short::wire(m.current_item);
        let w8 = EntityMetadata::wire(m.metadata);
        let p0 = w0;
        let p1 = p0 + w1;
        let p2 = p1 + w2;
        let p3 = p2 + w3;
        let p4 = p3 + w4;
        let p5 = p4 + w5;
        let p6 = p5 + w6;
        let p7 = p6 + w7;
        let p8 = p7 + w8;
        let t8 = rest;
        let t7 = w8 + t8;
        let t6 = w7 + t7;
        let t5 = w6 + t6;
        let t4 = w5 + t5;
        let t3 = w4 + t4;
        let t2 = w3 + t3;
        let t1 = w2 + t2;
        let t0 = w1 + t1;
        assert(s == p8 + t8);
        lemma_join(p7, w8, t8);
        lemma_join(p6, w7, t7);
        lemma_join(p5, w6, t6);
        lemma_join(p4, w5, t5);
        lemma_join(p3, w4, t4);
        lemma_join(p2, w3, t3);
        lemma_join(p1, w2, t2);
        lemma_join(p0, w1, t1);
        assert(s.skip(0) =~= s);
        let a0 = 0int;
        lemma_field_read::<VarInt>(s, a0, m.entity_id, t0);
        let a1 = a0 + w0.len();
        lemma_field_read::<UUID>(s, a1, m.player_uuid, t1);
        let a2 = a1 + w1.len();
        lemma_field_read::<Int>(s, a2, m.x, t2);
        let a3 = a2 + w2.len();
        lemma_field_read::<Int>(s, a3, m.y, t3);
        let a4 = a3 + w3.len();
        lemma_field_read::<Int>(s, a4, m.z, t4);
        let a5 = a4 + w4.len();
        lemma_field_read::<Angle>(s, a5, m.yaw, t5);
        let a6 = a5 + w5.len();
        lemma_field_read::<Angle>(s, a6, m.pitch, t6);
        let a7 = a6 + w6.len();
        lemma_field_read::<Short>(s, a7, m.current_item, t7);
        let a8 = a7 + w7.len();
        lemma_field_read::<EntityMetadata>(s, a8, m.metadata, t8);
    }
}

impl ClientboundPacket for SpawnPlayer {
    open spec fn listed() -> IDS {
        IDS::SpawnPlayer
    }

    open spec fn parsed(s: Seq<u8>) -> Option<SpawnPlayerModel> {
        match Self::decoded(s) {
            Some((m, _)) => Some(m),
            None => None,
        }
    }

    fn parse(data: &[u8]) -> (r: Result<Self, String>) {
        match Self::decode(data) {
            Some((p, _)) => Ok(p),
            None => Err(malformed("SpawnPlayer")),
        }
    }

    fn id() -> (r: IDS) {
        IDS::SpawnPlayer
    }
}

/// An entity has picked up an item.
#[derive(Debug, Clone, Copy, PartialEq, Eq, Structural)]
pub struct CollectItem {
    pub collected_entity_id: VarInt,
    pub collector_entity_id: VarInt,
}

impl View for CollectItem {
    type V = CollectItem;

    open spec fn view(&self) -> CollectItem {
        *self
    }
}

impl CollectItem {
    /// A packet of the given fields.
    pub fn new(collected_entity_id: VarInt, collector_entity_id: VarInt) -> (r: Self)
        ensures
            r == (CollectItem { collected_entity_id, collector_entity_id }),
    {
        CollectItem { collected_entity_id, collector_entity_id }
    }
}

impl Wire for CollectItem {
    open spec fn valid(m: CollectItem) -> bool {
        &&& VarInt::valid(m.collected_entity_id)
        &&& VarInt::valid(m.collector_entity_id)
    }

    open spec fn wire(m: CollectItem) -> Seq<u8> {
        VarInt::wire(m.collected_entity_id)
            + VarInt::wire(m.collector_entity_id)
    }

    open spec fn decoded(s: Seq<u8>) -> Option<(CollectItem, int)> {
        let r0 = VarInt::decoded(s);
        let n0 = taken(r0);
        let f_collected_entity_id = read(r0);
        let r1 = VarInt::decoded(s.skip(n0));
        let n1 = n0 + taken(r1);
        let f_collector_entity_id = read(r1);
        if r0 is Some && r1 is Some {
            Some(
                (
                    CollectItem {
                        collected_entity_id: f_collected_entity_id,
                        collector_entity_id: f_collector_entity_id,
                    },
                    n1,
                ),
            )
        } else {
            None
        }
    }

    fn decode(data: &[u8]) -> (r: Option<(Self, usize)>) {
        let (f_collected_entity_id, k0) = match <VarInt as Wire>::decode(data) {
            Some(x) => x,
            None => {
                return None;
            },
        };
        proof {
            VarInt::lemma_decoded_bounds(data@);
        }
        let n0 = k0;
        let (f_collector_entity_id, k1) = match <VarInt as Wire>::decode(tail(data, n0)) {
            Some(x) => x,
            None => {
                return None;
            },
        };
        proof {
            VarInt::lemma_decoded_bounds(data@.skip(n0 as int));
        }
        let n1 = n0 + k1;
        Some(
            (
                CollectItem {
                    collected_entity_id: f_collected_entity_id,
                    collector_entity_id: f_collector_entity_id,
                },
                n1,
            ),
        )
    }

    fn encode(&self, out: &mut Vec<u8>) {
        self.collected_entity_id.encode(out);
        self.collector_entity_id.encode(out);
        assert(out@ =~= old(out)@ + Self::wire(self@));
    }

    fn check(&self) -> (b: bool) {
        self.collected_entity_id.check()
            && self.collector_entity_id.check()
    }

    proof fn lemma_decoded_bounds(s: Seq<u8>) {
        let r0 = VarInt::decoded(s);
        VarInt::lemma_decoded_bounds(s);
        let n0 = taken(r0);
        let f_collected_entity_id = read(r0);
        let r1 = VarInt::decoded(s.skip(n0));
        VarInt::lemma_decoded_bounds(s.skip(n0));
        let n1 = n0 + taken(r1);
        let f_collector_entity_id = read(r1);
    }

    proof fn lemma_decoded_wire(m: CollectItem, rest: Seq<u8>) {
        let s = Self::wire(m) + rest;
        let w0 = VarInt::wire(m.collected_entity_id);
        let w1 = VarInt::wire(m.collector_entity_id);
        let p0 = w0;
        let p1 = p0 + w1;
        let t1 = rest;
        let t0 = w1 + t1;
        assert(s == p1 + t1);
        lemma_join(p0, w1, t1);
        assert(s.skip(0) =~= s);
        let a0 = 0int;
        lemma_field_read::<VarInt>(s, a0, m.collected_entity_id, t0);
        let a1 = a0 + w0.len();
        lemma_field_read::<VarInt>(s, a1, m.collector_entity_id, t1);
    }
}

impl ClientboundPacket for CollectItem {
    open spec fn listed() -> IDS {
        IDS::CollectItem
    }

    open spec fn parsed(s: Seq<u8>) -> Option<CollectItem> {
        match Self::decoded(s) {
            Some((m, _)) => Some(m),
            None => None,
        }
    }

    fn parse(data: &[u8]) -> (r: Result<Self, String>) {
        match Self::decode(data) {
            Some((p, _)) => Ok(p),
            None => Err(malformed("CollectItem")),
        }
    }

    fn id() -> (r: IDS) {
        IDS::CollectItem
    }
}

/// A velocity along the three axes.
#[derive(Debug, Clone, Copy, PartialEq, Eq, Structural)]
pub struct Velocity {
    pub x: Short,
    pub y: Short,
    pub z: Short,
}

impl View for Velocity {
    type V = Velocity;

    open spec fn view(&self) -> Velocity {
        *self
    }
}

impl Velocity {
    /// A packet of the given fields.
    pub fn new(x: Short, y: Short, z: Short) -> (r: Self)
        ensures
            r == (Velocity { x, y, z }),
    {
        Velocity { x, y, z }
    }
}

impl Wire for Velocity {
    open spec fn valid(m: Velocity) -> bool {
        &&& Short::valid(m.x)
        &&& Short::valid(m.y)
        &&& Short::valid(m.z)
    }

    open spec fn wire(m: Velocity) -> Seq<u8> {
        Short::wire(m.x)
            + Short::wire(m.y)
            + Short::wire(m.z)
    }

    open spec fn decoded(s: Seq<u8>) -> Option<(Velocity, int)> {
        let r0 = Short::decoded(s);
        let n0 = taken(r0);
        let f_x = read(r0);
        let r1 = Short::decoded(s.skip(n0));
        let n1 = n0 + taken(r1);
        let f_y = read(r1);
        let r2 = Short::decoded(s.skip(n1));
        let n2 = n1 + taken(r2);
        let f_z = read(r2);
        if r0 is Some && r1 is Some && r2 is Some {
            Some((Velocity { x: f_x, y: f_y, z: f_z }, n2))
        } else {
            None
        }
    }

    fn decode(data: &[u8]) -> (r: Option<(Self, usize)>) {
        let (f_x, k0) = match <Short as Wire>::decode(data) {
            Some(x) => x,
            None => {
                return None;
            },
        };
        proof {
            Short::lemma_decoded_bounds(data@);
        }
        let n0 = k0;
        let (f_y, k1) = match <Short as Wire>::decode(tail(data, n0)) {
            Some(x) => x,
            None => {
                return None;
            },
        };
        proof {
            Short::lemma_decoded_bounds(data@.skip(n0 as int));
        }
        let n1 = n0 + k1;
        let (f_z, k2) = match <Short as Wire>::decode(tail(data, n1)) {
            Some(x) => x,
            None => {
                return None;
            },
        };
        proof {
            Short::lemma_decoded_bounds(data@.skip(n1 as int));
        }
        let n2 = n1 + k2;
        Some((Velocity { x: f_x, y: f_y, z: f_z }, n2))
    }

    fn encode(&self, out: &mut Vec<u8>) {
        self.x.encode(out);
        self.y.encode(out);
        self.z.encode(out);
        assert(out@ =~= old(out)@ + Self::wire(self@));
    }

    fn check(&self) -> (b: bool) {
        self.x.check()
            && self.y.check()
            && self.z.check()
    }

    proof fn lemma_decoded_bounds(s: Seq<u8>) {
        let r0 = Short::decoded(s);
        Short::lemma_decoded_bounds(s);
        let n0 = taken(r0);
        let f_x = read(r0);
        let r1 = Short::decoded(s.skip(n0));
        Short::lemma_decoded_bounds(s.skip(n0));
        let n1 = n0 + taken(r1);
        let f_y = read(r1);
        let r2 = Short::decoded(s.skip(n1));
        Short::lemma_decoded_bounds(s.skip(n1));
        let n2 = n1 + taken(r2);
        let f_z = read(r2);
    }

    proof fn lemma_decoded_wire(m: Velocity, rest: Seq<u8>) {
        let s = Self::wire(m) + rest;
        let w0 = Short::wire(m.x);
        let w1 = Short::wire(m.y);
        let w2 = Short::wire(m.z);
        let p0 = w0;
        let p1 = p0 + w1;
        let p2 = p1 + w2;
        let t2 = rest;
        let t1 = w2 + t2;
        let t0 = w1 + t1;
        assert(s == p2 + t2);
        lemma_join(p1, w2, t2);
        lemma_join(p0, w1, t1);
        assert(s.skip(0) =~= s);
        let a0 = 0int;
        lemma_field_read::<Short>(s, a0, m.x, t0);
        let a1 = a0 + w0.len();
        lemma_field_read::<Short>(s, a1, m.y, t1);
        let a2 = a1 + w1.len();
        lemma_field_read::<Short>(s, a2, m.z, t2);
    }
}

/// An object or vehicle has come into view. The velocity is there exactly when
/// `data` is not zero.
#[derive(Debug, Clone, PartialEq, Eq)]
pub struct SpawnObject {
    pub entity_id: VarInt,
    pub _type: Byte,
    pub x: Int,
    pub y: Int,
    pub z: Int,
    pub pitch: Angle,
    pub yaw: Angle,
    pub data: Int,
    pub velocity: Option<Velocity>,
}

impl View for SpawnObject {
    type V = SpawnObject;

    open spec fn view(&self) -> SpawnObject {
        *self
    }
}

impl SpawnObject {
    /// A packet of the given fields.
    pub fn new(
        entity_id: VarInt,
        _type: Byte,
        x: Int,
        y: Int,
        z: Int,
        pitch: Angle,
        yaw: Angle,
        data: Int,
        velocity: Option<Velocity>,
    ) -> (r: Self)
        ensures
            r == (SpawnObject { entity_id, _type, x, y, z, pitch, yaw, data, velocity }),
    {
        SpawnObject { entity_id, _type, x, y, z, pitch, yaw, data, velocity }
    }
}

impl Wire for SpawnObject {
    open spec fn valid(m: SpawnObject) -> bool {
        &&& VarInt::valid(m.entity_id)
        &&& Byte::valid(m._type)
        &&& Int::valid(m.x)
        &&& Int::valid(m.y)
        &&& Int::valid(m.z)
        &&& Angle::valid(m.pitch)
        &&& Angle::valid(m.yaw)
        &&& Int::valid(m.data)
        &&& (m.data.0 != 0) == (m.velocity is Some)
        &&& m.velocity matches Some(v) ==> Velocity::valid(v)
    }

    open spec fn wire(m: SpawnObject) -> Seq<u8> {
        VarInt::wire(m.entity_id)
            + Byte::wire(m._type)
            + Int::wire(m.x)
            + Int::wire(m.y)
            + Int::wire(m.z)
            + Angle::wire(m.pitch)
            + Angle::wire(m.yaw)
            + Int::wire(m.data)
            + only_if(m.velocity is Some, Velocity::wire(m.velocity.unwrap()))
    }

    open spec fn decoded(s: Seq<u8>) -> Option<(SpawnObject, int)> {
        let r0 = VarInt::decoded(s);
        let n0 = taken(r0);
        let f_entity_id = read(r0);
        let r1 = Byte::decoded(s.skip(n0));
        let n1 = n0 + taken(r1);
        let f__type = read(r1);
        let r2 = Int::decoded(s.skip(n1));
        let n2 = n1 + taken(r2);
        let f_x = read(r2);
        let r3 = Int::decoded(s.skip(n2));
        let n3 = n2 + taken(r3);
        let f_y = read(r3);
        let r4 = Int::decoded(s.skip(n3));
        let n4 = n3 + taken(r4);
        let f_z = read(r4);
        let r5 = Angle::decoded(s.skip(n4));
        let n5 = n4 + taken(r5);
        let f_pitch = read(r5);
        let r6 = Angle::decoded(s.skip(n5));
        let n6 = n5 + taken(r6);
        let f_yaw = read(r6);
        let r7 = Int::decoded(s.skip(n6));
        let n7 = n6 + taken(r7);
        let f_data = read(r7);
        let r8 = if f_data.0 != 0 {
            present(Velocity::decoded(s.skip(n7)))
        } else {
            Some((None, 0))
        };
        let n8 = n7 + taken(r8);
        let f_velocity = read(r8);
        if r0 is Some && r1 is Some && r2 is Some && r3 is Some && r4 is Some && r5 is Some
            && r6 is Some && r7 is Some && r8 is Some {
            Some(
                (
                    SpawnObject {
                        entity_id: f_entity_id,
                        _type: f__type,
                        x: f_x,
                        y: f_y,
                        z: f_z,
                        pitch: f_pitch,
                        yaw: f_yaw,
                        data: f_data,
                        velocity: f_velocity,
                    },
                    n8,
                ),
            )
        } else {
            None
        }
    }

    fn decode(data: &[u8]) -> (r: Option<(Self, usize)>) {
        let (f_entity_id, k0) = match <VarInt as Wire>::decode(data) {
            Some(x) => x,
            None => {
                return None;
            },
        };
        proof {
            VarInt::lemma_decoded_bounds(data@);
        }
        let n0 = k0;
        let (f__type, k1) = match <Byte as Wire>::decode(tail(data, n0)) {
            Some(x) => x,
            None => {
                return None;
            },
        };
        proof {
            Byte::lemma_decoded_bounds(data@.skip(n0 as int));
        }
        let n1 = n0 + k1;
        let (f_x, k2) = match <Int as Wire>::decode(tail(data, n1)) {
            Some(x) => x,
            None => {
                return None;
            },
        };
        proof {
            Int::lemma_decoded_bounds(data@.skip(n1 as int));
        }
        let n2 = n1 + k2;
        let (f_y, k3) = match <Int as Wire>::decode(tail(data, n2)) {
            Some(x) => x,
            None => {
                return None;
            },
        };
        proof {
            Int::lemma_decoded_bounds(data@.skip(n2 as int));
        }
        let n3 = n2 + k3;
        let (f_z, k4) = match <Int as Wire>::decode(tail(data, n3)) {
            Some(x) => x,
            None => {
                return None;
            },
        };
        proof {
            Int::lemma_decoded_bounds(data@.skip(n3 as int));
        }
        let n4 = n3 + k4;
        let (f_pitch, k5) = match <Angle as Wire>::decode(tail(data, n4)) {
            Some(x) => x,
            None => {
                return None;
            },
        };
        proof {
            Angle::lemma_decoded_bounds(data@.skip(n4 as int));
        }
        let n5 = n4 + k5;
        let (f_yaw, k6) = match <Angle as Wire>::decode(tail(data, n5)) {
            Some(x) => x,
            None => {
                return None;
            },
        };
        proof {
            Angle::lemma_decoded_bounds(data@.skip(n5 as int));
        }
        let n6 = n5 + k6;
        let (f_data, k7) = match <Int as Wire>::decode(tail(data, n6)) {
            Some(x) => x,
            None => {
                return None;
            },
        };
        proof {
            Int::lemma_decoded_bounds(data@.skip(n6 as int));
        }
        let n7 = n6 + k7;
        let (f_velocity, k8) = if f_data.0 != 0 {
            match <Velocity as Wire>::decode(tail(data, n7)) {
                Some((v, k)) => (Some(v), k),
                None => {
                    return None;
                },
            }
        } else {
            (None, 0)
        };
        proof {
            Velocity::lemma_decoded_bounds(data@.skip(n7 as int));
        }
        let n8 = n7 + k8;
        Some(
            (
                SpawnObject {
                    entity_id: f_entity_id,
                    _type: f__type,
                    x: f_x,
                    y: f_y,
                    z: f_z,
                    pitch: f_pitch,
                    yaw: f_yaw,
                    data: f_data,
                    velocity: f_velocity,
                },
                n8,
            ),
        )
    }

    fn encode(&self, out: &mut Vec<u8>) {
        self.entity_id.encode(out);
        self._type.encode(out);
        self.x.encode(out);
        self.y.encode(out);
        self.z.encode(out);
        self.pitch.encode(out);
        self.yaw.encode(out);
        self.data.encode(out);
        match &self.velocity {
            Some(v) => {
                v.encode(out);
            },
            None => {},
        }
        assert(out@ =~= old(out)@ + Self::wire(self@));
    }

    fn check(&self) -> (b: bool) {
        self.entity_id.check()
            && self._type.check()
            && self.x.check()
            && self.y.check()
            && self.z.check()
            && self.pitch.check()
            && self.yaw.check()
            && self.data.check()
            && ((self.data.0 != 0) == self.velocity.is_some())
            && (match &self.velocity {
            Some(v) => v.check(),
            None => true,
        })
    }

    proof fn lemma_decoded_bounds(s: Seq<u8>) {
        let r0 = VarInt::decoded(s);
        VarInt::lemma_decoded_bounds(s);
        let n0 = taken(r0);
        let f_entity_id = read(r0);
        let r1 = Byte::decoded(s.skip(n0));
        Byte::lemma_decoded_bounds(s.skip(n0));
        let n1 = n0 + taken(r1);
        let f__type = read(r1);
        let r2 = Int::decoded(s.skip(n1));
        Int::lemma_decoded_bounds(s.skip(n1));
        let n2 = n1 + taken(r2);
        let f_x = read(r2);
        let r3 = Int::decoded(s.skip(n2));
        Int::lemma_decoded_bounds(s.skip(n2));
        let n3 = n2 + taken(r3);
        let f_y = read(r3);
        let r4 = Int::decoded(s.skip(n3));
        Int::lemma_decoded_bounds(s.skip(n3));
        let n4 = n3 + taken(r4);
        let f_z = read(r4);
        let r5 = Angle::decoded(s.skip(n4));
        Angle::lemma_decoded_bounds(s.skip(n4));
        let n5 = n4 + taken(r5);
        let f_pitch = read(r5);
        let r6 = Angle::decoded(s.skip(n5));
        Angle::lemma_decoded_bounds(s.skip(n5));
        let n6 = n5 + taken(r6);
        let f_yaw = read(r6);
        let r7 = Int::decoded(s.skip(n6));
        Int::lemma_decoded_bounds(s.skip(n6));
        let n7 = n6 + taken(r7);
        let f_data = read(r7);
        let r8 = if f_data.0 != 0 {
            present(Velocity::decoded(s.skip(n7)))
        } else {
            Some((None, 0))
        };
        Velocity::lemma_decoded_bounds(s.skip(n7));
        let n8 = n7 + taken(r8);
        let f_velocity = read(r8);
    }

    proof fn lemma_decoded_wire(m: SpawnObject, rest: Seq<u8>) {
        let s = Self::wire(m) + rest;
        let w0 = VarInt::wire(m.entity_id);
        let w1 = Byte::wire(m._type);
        let w2 = Int::wire(m.x);
        let w3 = Int::wire(m.y);
        let w4 = Int::wire(m.z);
        let w5 = Angle::wire(m.pitch);
        let w6 = Angle::wire(m.yaw);
        let w7 = Int::wire(m.data);
        let w8 = only_if(m.velocity is Some, Velocity::wire(m.velocity.unwrap()));
        let p0 = w0;
        let p1 = p0 + w1;
        let p2 = p1 + w2;
        let p3 = p2 + w3;
        let p4 = p3 + w4;
        let p5 = p4 + w5;
        let p6 = p5 + w6;
        let p7 = p6 + w7;
        let p8 = p7 + w8;
        let t8 = rest;
        let t7 = w8 + t8;
        let t6 = w7 + t7;
        let t5 = w6 + t6;
        let t4 = w5 + t5;
        let t3 = w4 + t4;
        let t2 = w3 + t3;
        let t1 = w2 + t2;
        let t0 = w1 + t1;
        assert(s == p8 + t8);
        lemma_join(p7, w8, t8);
        lemma_join(p6, w7, t7);
        lemma_join(p5, w6, t6);
        lemma_join(p4, w5, t5);
        lemma_join(p3, w4, t4);
        lemma_join(p2, w3, t3);
        lemma_join(p1, w2, t2);
        lemma_join(p0, w1, t1);
        assert(s.skip(0) =~= s);
        let a0 = 0int;
        lemma_field_read::<VarInt>(s, a0, m.entity_id, t0);
        let a1 = a0 + w0.len();
        lemma_field_read::<Byte>(s, a1, m._type, t1);
        let a2 = a1 + w1.len();
        lemma_field_read::<Int>(s, a2, m.x, t2);
        let a3 = a2 + w2.len();
        lemma_field_read::<Int>(s, a3, m.y, t3);
        let a4 = a3 + w3.len();
        lemma_field_read::<Int>(s, a4, m.z, t4);
        let a5 = a4 + w4.len();
        lemma_field_read::<Angle>(s, a5, m.pitch, t5);
        let a6 = a5 + w5.len();
        lemma_field_read::<Angle>(s, a6, m.yaw, t6);
        let a7 = a6 + w6.len();
        lemma_field_read::<Int>(s, a7, m.data, t7);
        let a8 = a7 + w7.len();
        match m.velocity {
            Some(v) => {
                lemma_field_read::<Velocity>(s, a8, v, t8);
            },
            None => {
                assert(w8 + t8 =~= t8);
            },
        }
    }
}

impl ClientboundPacket for SpawnObject {
    open spec fn listed() -> IDS {
        IDS::SpawnObject
    }

    open spec fn parsed(s: Seq<u8>) -> Option<SpawnObject> {
        match Self::decoded(s) {
            Some((m, _)) => Some(m),
            None => None,
        }
    }

    fn parse(data: &[u8]) -> (r: Result<Self, String>) {
        match Self::decode(data) {
            Some((p, _)) => Ok(p),
            None => Err(malformed("SpawnObject")),
        }
    }

    fn id() -> (r: IDS) {
        IDS::SpawnObject
    }
}

/// A mob has come into view.
#[derive(Debug, Clone, PartialEq, Eq)]
pub struct SpawnMob {
    pub entity_id: VarInt,
    pub _type: UnsignedByte,
    pub x: Int,
    pub y: Int,
    pub z: Int,
    pub yaw: Angle,
    pub pitch: Angle,
    pub head_pitch: Angle,
    pub velocity_x: Short,
    pub velocity_y: Short,
    pub velocity_z: Short,
    pub metadata: EntityMetadata,
}

/// What a `SpawnMob` holds.
pub struct SpawnMobModel {
    pub entity_id: VarInt,
    pub _type: UnsignedByte,
    pub x: Int,
    pub y: Int,
    pub z: Int,
    pub yaw: Angle,
    pub pitch: Angle,
    pub head_pitch: Angle,
    pub velocity_x: Short,
    pub velocity_y: Short,
    pub velocity_z: Short,
    pub metadata: Seq<MetadataEntryModel>,
}

impl View for SpawnMob {
    type V = SpawnMobModel;

    open spec fn view(&self) -> SpawnMobModel {
        SpawnMobModel {
            entity_id: self.entity_id@,
            _type: self._type@,
            x: self.x@,
            y: self.y@,
            z: self.z@,
            yaw: self.yaw@,
            pitch: self.pitch@,
            head_pitch: self.head_pitch@,
            velocity_x: self.velocity_x@,
            velocity_y: self.velocity_y@,
            velocity_z: self.velocity_z@,
            metadata: self.metadata@,
        }
    }
}

impl SpawnMob {
    /// A packet of the given fields.
    pub fn new(
        entity_id: VarInt,
        _type: UnsignedByte,
        x: Int,
        y: Int,
        z: Int,
        yaw: Angle,
        pitch: Angle,
        head_pitch: Angle,
        velocity_x: Short,
        velocity_y: Short,
        velocity_z: Short,
        metadata: EntityMetadata,
    ) -> (r: Self)
        ensures
            r == (SpawnMob {
                entity_id,
                _type,
                x,
                y,
                z,
                yaw,
                pitch,
                head_pitch,
                velocity_x,
                velocity_y,
                velocity_z,
                metadata,
            }),
    {
        SpawnMob {
            entity_id,
            _type,
            x,
            y,
            z,
            yaw,
            pitch,
            head_pitch,
            velocity_x,
            velocity_y,
            velocity_z,
            metadata,
        }
    }
}

impl Wire for SpawnMob {
    open spec fn valid(m: SpawnMobModel) -> bool {
        &&& VarInt::valid(m.entity_id)
        &&& UnsignedByte::valid(m._type)
        &&& Int::valid(m.x)
        &&& Int::valid(m.y)
        &&& Int::valid(m.z)
        &&& Angle::valid(m.yaw)
        &&& Angle::valid(m.pitch)
        &&& Angle::valid(m.head_pitch)
        &&& Short::valid(m.velocity_x)
        &&& Short::valid(m.velocity_y)
        &&& Short::valid(m.velocity_z)
        &&& EntityMetadata::valid(m.metadata)
    }

    open spec fn wire(m: SpawnMobModel) -> Seq<u8> {
        VarInt::wire(m.entity_id)
            + UnsignedByte::wire(m._type)
            + Int::wire(m.x)
            + Int::wire(m.y)
            + Int::wire(m.z)
            + Angle::wire(m.yaw)
            + Angle::wire(m.pitch)
            + Angle::wire(m.head_pitch)
            + Short::wire(m.velocity_x)
            + Short::wire(m.velocity_y)
            + Short::wire(m.velocity_z)
            + EntityMetadata::wire(m.metadata)
    }

    open spec fn decoded(s: Seq<u8>) -> Option<(SpawnMobModel, int)> {
        let r0 = VarInt::decoded(s);
        let n0 = taken(r0);
        let f_entity_id = read(r0);
        let r1 = UnsignedByte::decoded(s.skip(n0));
        let n1 = n0 + taken(r1);
        let f__type = read(r1);
        let r2 = Int::decoded(s.skip(n1));
        let n2 = n1 + taken(r2);
        let f_x = read(r2);
        let r3 = Int::decoded(s.skip(n2));
        let n3 = n2 + taken(r3);
        let f_y = read(r3);
        let r4 = Int::decoded(s.skip(n3));
        let n4 = n3 + taken(r4);
        let f_z = read(r4);
        let r5 = Angle::decoded(s.skip(n4));
        let n5 = n4 + taken(r5);
        let f_yaw = read(r5);
        let r6 = Angle::decoded(s.skip(n5));
        let n6 = n5 + taken(r6);
        let f_pitch = read(r6);
        let r7 = Angle::decoded(s.skip(n6));
        let n7 = n6 + taken(r7);
        let f_head_pitch = read(r7);
        let r8 = Short::decoded(s.skip(n7));
        let n8 = n7 + taken(r8);
        let f_velocity_x = read(r8);
        let r9 = Short::decoded(s.skip(n8));
        let n9 = n8 + taken(r9);
        let f_velocity_y = read(r9);
        let r10 = Short::decoded(s.skip(n9));
        let n10 = n9 + taken(r10);
        let f_velocity_z = read(r10);
        let r11 = EntityMetadata::decoded(s.skip(n10));
        let n11 = n10 + taken(r11);
        let f_metadata = read(r11);
        if r0 is Some && r1 is Some && r2 is Some && r3 is Some && r4 is Some && r5 is Some
            && r6 is Some && r7 is Some && r8 is Some && r9 is Some && r10 is Some
            && r11 is Some {
            Some(
                (
                    SpawnMobModel {
                        entity_id: f_entity_id,
                        _type: f__type,
                        x: f_x,
                        y: f_y,
                        z: f_z,
                        yaw: f_yaw,
                        pitch: f_pitch,
                        head_pitch: f_head_pitch,
                        velocity_x: f_velocity_x,
                        velocity_y: f_velocity_y,
                        velocity_z: f_velocity_z,
                        metadata: f_metadata,
                    },
                    n11,
                ),
            )
        } else {
            None
        }
    }

    fn decode(data: &[u8]) -> (r: Option<(Self, usize)>) {
        let (f_entity_id, k0) = match <VarInt as Wire>::decode(data) {
            Some(x) => x,
            None => {
                return None;
            },
        };
        proof {
            VarInt::lemma_decoded_bounds(data@);
        }
        let n0 = k0;
        let (f__type, k1) = match <UnsignedByte as Wire>::decode(tail(data, n0)) {
            Some(x) => x,
            None => {
                return None;
            },
        };
        proof {
            UnsignedByte::lemma_decoded_bounds(data@.skip(n0 as int));
        }
        let n1 = n0 + k1;
        let (f_x, k2) = match <Int as Wire>::decode(tail(data, n1)) {
            Some(x) => x,
            None => {
                return None;
            },
        };
        proof {
            Int::lemma_decoded_bounds(data@.skip(n1 as int));
        }
        let n2 = n1 + k2;
        let (f_y, k3) = match <Int as Wire>::decode(tail(data, n2)) {
            Some(x) => x,
            None => {
                return None;
            },
        };
        proof {
            Int::lemma_decoded_bounds(data@.skip(n2 as int));
        }
        let n3 = n2 + k3;
        let (f_z, k4) = match <Int as Wire>::decode(tail(data, n3)) {
            Some(x) => x,
            None => {
                return None;
            },
        };
        proof {
            Int::lemma_decoded_bounds(data@.skip(n3 as int));
        }
        let n4 = n3 + k4;
        let (f_yaw, k5) = match <Angle as Wire>::decode(tail(data, n4)) {
            Some(x) => x,
            None => {
                return None;
            },
        };
        proof {
            Angle::lemma_decoded_bounds(data@.skip(n4 as int));
        }
        let n5 = n4 + k5;
        let (f_pitch, k6) = match <Angle as Wire>::decode(tail(data, n5)) {
            Some(x) => x,
            None => {
                return None;
            },
        };
        proof {
            Angle::lemma_decoded_bounds(data@.skip(n5 as int));
        }
        let n6 = n5 + k6;
        let (f_head_pitch, k7) = match <Angle as Wire>::decode(tail(data, n6)) {
            Some(x) => x,
            None => {
                return None;
            },
        };
        proof {
            Angle::lemma_decoded_bounds(data@.skip(n6 as int));
        }
        let n7 = n6 + k7;
        let (f_velocity_x, k8) = match <Short as Wire>::decode(tail(data, n7)) {
            Some(x) => x,
            None => {
                return None;
            },
        };
        proof {
            Short::lemma_decoded_bounds(data@.skip(n7 as int));
        }
        let n8 = n7 + k8;
        let (f_velocity_y, k9) = match <Short as Wire>::decode(tail(data, n8)) {
            Some(x) => x,
            None => {
                return None;
            },
        };
        proof {
            Short::lemma_decoded_bounds(data@.skip(n8 as int));
        }
        let n9 = n8 + k9;
        let (f_velocity_z, k10) = match <Short as Wire>::decode(tail(data, n9)) {
            Some(x) => x,
            None => {
                return None;
            },
        };
        proof {
            Short::lemma_decoded_bounds(data@.skip(n9 as int));
        }
        let n10 = n9 + k10;
        let (f_metadata, k11) = match <EntityMetadata as Wire>::decode(tail(data, n10)) {
            Some(x) => x,
            None => {
                return None;
            },
        };
        proof {
            EntityMetadata::lemma_decoded_bounds(data@.skip(n10 as int));
        }
        let n11 = n10 + k11;
        Some(
            (
                SpawnMob {
                    entity_id: f_entity_id,
                    _type: f__type,
                    x: f_x,
                    y: f_y,
                    z: f_z,
                    yaw: f_yaw,
                    pitch: f_pitch,
                    head_pitch: f_head_pitch,
                    velocity_x: f_velocity_x,
                    velocity_y: f_velocity_y,
                    velocity_z: f_velocity_z,
                    metadata: f_metadata,
                },
                n11,
            ),
        )
    }

    fn encode(&self, out: &mut Vec<u8>) {
        self.entity_id.encode(out);
        self._type.encode(out);
        self.x.encode(out);
        self.y.encode(out);
        self.z.encode(out);
        self.yaw.encode(out);
        self.pitch.encode(out);
        self.head_pitch.encode(out);
        self.velocity_x.encode(out);
        self.velocity_y.encode(out);
        self.velocity_z.encode(out);
        self.metadata.encode(out);
        assert(out@ =~= old(out)@ + Self::wire(self@));
    }

    fn check(&self) -> (b: bool) {
        self.entity_id.check()
            && self._type.check()
            && self.x.check()
            && self.y.check()
            && self.z.check()
            && self.yaw.check()
            && self.pitch.check()
            && self.head_pitch.check()
            && self.velocity_x.check()
            && self.velocity_y.check()
            && self.velocity_z.check()
            && self.metadata.check()
    }

    proof fn lemma_decoded_bounds(s: Seq<u8>) {
        let r0 = VarInt::decoded(s);
        VarInt::lemma_decoded_bounds(s);
        let n0 = taken(r0);
        let f_entity_id = read(r0);
        let r1 = UnsignedByte::decoded(s.skip(n0));
        UnsignedByte::lemma_decoded_bounds(s.skip(n0));
        let n1 = n0 + taken(r1);
        let f__type = read(r1);
        let r2 = Int::decoded(s.skip(n1));
        Int::lemma_decoded_bounds(s.skip(n1));
        let n2 = n1 + taken(r2);
        let f_x = read(r2);
        let r3 = Int::decoded(s.skip(n2));
        Int::lemma_decoded_bounds(s.skip(n2));
        let n3 = n2 + taken(r3);
        let f_y = read(r3);
        let r4 = Int::decoded(s.skip(n3));
        Int::lemma_decoded_bounds(s.skip(n3));
        let n4 = n3 + taken(r4);
        let f_z = read(r4);
        let r5 = Angle::decoded(s.skip(n4));
        Angle::lemma_decoded_bounds(s.skip(n4));
        let n5 = n4 + taken(r5);
        let f_yaw = read(r5);
        let r6 = Angle::decoded(s.skip(n5));
        Angle::lemma_decoded_bounds(s.skip(n5));
        let n6 = n5 + taken(r6);
        let f_pitch = read(r6);
        let r7 = Angle::decoded(s.skip(n6));
        Angle::lemma_decoded_bounds(s.skip(n6));
        let n7 = n6 + taken(r7);
        let f_head_pitch = read(r7);
        let r8 = Short::decoded(s.skip(n7));
        Short::lemma_decoded_bounds(s.skip(n7));
        let n8 = n7 + taken(r8);
        let f_velocity_x = read(r8);
        let r9 = Short::decoded(s.skip(n8));
        Short::lemma_decoded_bounds(s.skip(n8));
        let n9 = n8 + taken(r9);
        let f_velocity_y = read(r9);
        let r10 = Short::decoded(s.skip(n9));
        Short::lemma_decoded_bounds(s.skip(n9));
        let n10 = n9 + taken(r10);
        let f_velocity_z = read(r10);
        let r11 = EntityMetadata::decoded(s.skip(n10));
        EntityMetadata::lemma_decoded_bounds(s.skip(n10));
        let n11 = n10 + taken(r11);
        let f_metadata = read(r11);
    }

    proof fn lemma_decoded_wire(m: SpawnMobModel, rest: Seq<u8>) {
        let s = Self::wire(m) + rest;
        let w0 = VarInt::wire(m.entity_id);
        let w1 = UnsignedByte::wire(m._type);
        let w2 = Int::wire(m.x);
        let w3 = Int::wire(m.y);
        let w4 = Int::wire(m.z);
        let w5 = Angle::wire(m.yaw);
        let w6 = Angle::wire(m.pitch);
        let w7 = Angle::wire(m.head_pitch);
        let w8 = Short::wire(m.velocity_x);
        let w9 = Short::wire(m.velocity_y);
        let w10 = Short::wire(m.velocity_z);
        let w11 = EntityMetadata::wire(m.metadata);
        let p0 = w0;
        let p1 = p0 + w1;
        let p2 = p1 + w2;
        let p3 = p2 + w3;
        let p4 = p3 + w4;
        let p5 = p4 + w5;
        let p6 = p5 + w6;
        let p7 = p6 + w7;
        let p8 = p7 + w8;
        let p9 = p8 + w9;
        let p10 = p9 + w10;
        let p11 = p10 + w11;
        let t11 = rest;
        let t10 = w11 + t11;
        let t9 = w10 + t10;
        let t8 = w9 + t9;
        let t7 = w8 + t8;
        let t6 = w7 + t7;
        let t5 = w6 + t6;
        let t4 = w5 + t5;
        let t3 = w4 + t4;
        let t2 = w3 + t3;
        let t1 = w2 + t2;
        let t0 = w1 + t1;
        assert(s == p11 + t11);
        lemma_join(p10, w11, t11);
        lemma_join(p9, w10, t10);
        lemma_join(p8, w9, t9);
        lemma_join(p7, w8, t8);
        lemma_join(p6, w7, t7);
        lemma_join(p5, w6, t6);
        lemma_join(p4, w5, t5);
        lemma_join(p3, w4, t4);
        lemma_join(p2, w3, t3);
        lemma_join(p1, w2, t2);
        lemma_join(p0, w1, t1);
        assert(s.skip(0) =~= s);
        let a0 = 0int;
        lemma_field_read::<VarInt>(s, a0, m.entity_id, t0);
        let a1 = a0 + w0.len();
        lemma_field_read::<UnsignedByte>(s, a1, m._type, t1);
        let a2 = a1 + w1.len();
        lemma_field_read::<Int>(s, a2, m.x, t2);
        let a3 = a2 + w2.len();
        lemma_field_read::<Int>(s, a3, m.y, t3);
        let a4 = a3 + w3.len();
        lemma_field_read::<Int>(s, a4, m.z, t4);
        let a5 = a4 + w4.len();
        lemma_field_read::<Angle>(s, a5, m.yaw, t5);
        let a6 = a5 + w5.len();
        lemma_field_read::<Angle>(s, a6, m.pitch, t6);
        let a7 = a6 + w6.len();
        lemma_field_read::<Angle>(s, a7, m.head_pitch, t7);
        let a8 = a7 + w7.len();
        lemma_field_read::<Short>(s, a8, m.velocity_x, t8);
        let a9 = a8 + w8.len();
        lemma_field_read::<Short>(s, a9, m.velocity_y, t9);
        let a10 = a9 + w9.len();
        lemma_field_read::<Short>(s, a10, m.velocity_z, t10);
        let a11 = a10 + w10.len();
        lemma_field_read::<EntityMetadata>(s, a11, m.metadata, t11);
    }
}

impl ClientboundPacket for SpawnMob {
    open spec fn listed() -> IDS {
        IDS::SpawnMob
    }

    open spec fn parsed(s: Seq<u8>) -> Option<SpawnMobModel> {
        match Self::decoded(s) {
            Some((m, _)) => Some(m),
            None => None,
        }
    }

    fn parse(data: &[u8]) -> (r: Result<Self, String>) {
        match Self::decode(data) {
            Some((p, _)) => Ok(p),
            None => Err(malformed("SpawnMob")),
        }
    }

    fn id() -> (r: IDS) {
        IDS::SpawnMob
    }
}

/// A painting has come into view.
#[derive(Debug, Clone, PartialEq, Eq)]
pub struct SpawnPainting {
    pub entity_id: VarInt,
    pub title: VarString,
    pub location: Position,
    pub direction: Short,
}

/// What a `SpawnPainting` holds.
pub struct SpawnPaintingModel {
    pub entity_id: VarInt,
    pub title: Seq<char>,
    pub location: Position,
    pub direction: Short,
}

impl View for SpawnPainting {
    type V = SpawnPaintingModel;

    open spec fn view(&self) -> SpawnPaintingModel {
        SpawnPaintingModel {
            entity_id: self.entity_id@,
            title: self.title@,
            location: self.location@,
            direction: self.direction@,
        }
    }
}

impl SpawnPainting {
    /// A packet of the given fields.
    pub fn new(
        entity_id: VarInt,
        title: VarString,
        location: Position,
        direction: Short,
    ) -> (r: Self)
        ensures
            r == (SpawnPainting { entity_id, title, location, direction }),
    {
        SpawnPainting { entity_id, title, location, direction }
    }
}

impl Wire for SpawnPainting {
    open spec fn valid(m: SpawnPaintingModel) -> bool {
        &&& VarInt::valid(m.entity_id)
        &&& VarString::valid(m.title)
        &&& Position::valid(m.location)
        &&& Short::valid(m.direction)
    }

    open spec fn wire(m: SpawnPaintingModel) -> Seq<u8> {
        VarInt::wire(m.entity_id)
            + VarString::wire(m.title)
            + Position::wire(m.location)
            + Short::wire(m.direction)
    }

    open spec fn decoded(s: Seq<u8>) -> Option<(SpawnPaintingModel, int)> {
        let r0 = VarInt::decoded(s);
        let n0 = taken(r0);
        let f_entity_id = read(r0);
        let r1 = VarString::decoded(s.skip(n0));
        let n1 = n0 + taken(r1);
        let f_title = read(r1);
        let r2 = Position::decoded(s.skip(n1));
        let n2 = n1 + taken(r2);
        let f_location = read(r2);
        let r3 = Short::decoded(s.skip(n2));
        let n3 = n2 + taken(r3);
        let f_direction = read(r3);
        if r0 is Some && r1 is Some && r2 is Some && r3 is Some {
            Some(
                (
                    SpawnPaintingModel {
                        entity_id: f_entity_id,
                        title: f_title,
                        location: f_location,
                        direction: f_direction,
                    },
                    n3,
                ),
            )
        } else {
            None
        }
    }

    fn decode(data: &[u8]) -> (r: Option<(Self, usize)>) {
        let (f_entity_id, k0) = match <VarInt as Wire>::decode(data) {
            Some(x) => x,
            None => {
                return None;
            },
        };
        proof {
            VarInt::lemma_decoded_bounds(data@);
        }
        let n0 = k0;
        let (f_title, k1) = match <VarString as Wire>::decode(tail(data, n0)) {
            Some(x) => x,
            None => {
                return None;
            },
        };
        proof {
            VarString::lemma_decoded_bounds(data@.skip(n0 as int));
        }
        let n1 = n0 + k1;
        let (f_location, k2) = match <Position as Wire>::decode(tail(data, n1)) {
            Some(x) => x,
            None => {
                return None;
            },
        };
        proof {
            Position::lemma_decoded_bounds(data@.skip(n1 as int));
        }
        let n2 = n1 + k2;
        let (f_direction, k3) = match <Short as Wire>::decode(tail(data, n2)) {
            Some(x) => x,
            None => {
                return None;
            },
        };
        proof {
            Short::lemma_decoded_bounds(data@.skip(n2 as int));
        }
        let n3 = n2 + k3;
        Some(
            (
                SpawnPainting {
                    entity_id: f_entity_id,
                    title: f_title,
                    location: f_location,
                    direction: f_direction,
                },
                n3,
            ),
        )
    }

    fn encode(&self, out: &mut Vec<u8>) {
        self.entity_id.encode(out);
        self.title.encode(out);
        self.location.encode(out);
        self.direction.encode(out);
        assert(out@ =~= old(out)@ + Self::wire(self@));
    }

    fn check(&self) -> (b: bool) {
        self.entity_id.check()
            && self.title.check()
            && self.location.check()
            && self.direction.check()
    }

    proof fn lemma_decoded_bounds(s: Seq<u8>) {
        let r0 = VarInt::decoded(s);
        VarInt::lemma_decoded_bounds(s);
        let n0 = taken(r0);
        let f_entity_id = read(r0);
        let r1 = VarString::decoded(s.skip(n0));
        VarString::lemma_decoded_bounds(s.skip(n0));
        let n1 = n0 + taken(r1);
        let f_title = read(r1);
        let r2 = Position::decoded(s.skip(n1));
        Position::lemma_decoded_bounds(s.skip(n1));
        let n2 = n1 + taken(r2);
        let f_location = read(r2);
        let r3 = Short::decoded(s.skip(n2));
        Short::lemma_decoded_bounds(s.skip(n2));
        let n3 = n2 + taken(r3);
        let f_direction = read(r3);
    }

    proof fn lemma_decoded_wire(m: SpawnPaintingModel, rest: Seq<u8>) {
        let s = Self::wire(m) + rest;
        let w0 = VarInt::wire(m.entity_id);
        let w1 = VarString::wire(m.title);
        let w2 = Position::wire(m.location);
        let w3 = Short::wire(m.direction);
        let p0 = w0;
        let p1 = p0 + w1;
        let p2 = p1 + w2;
        let p3 = p2 + w3;
        let t3 = rest;
        let t2 = w3 + t3;
        let t1 = w2 + t2;
        let t0 = w1 + t1;
        assert(s == p3 + t3);
        lemma_join(p2, w3, t3);
        lemma_join(p1, w2, t2);
        lemma_join(p0, w1, t1);
        assert(s.skip(0) =~= s);
        let a0 = 0int;
        lemma_field_read::<VarInt>(s, a0, m.entity_id, t0);
        let a1 = a0 + w0.len();
        lemma_field_read::<VarString>(s, a1, m.title, t1);
        let a2 = a1 + w1.len();
        lemma_field_read::<Position>(s, a2, m.location, t2);
        let a3 = a2 + w2.len();
        lemma_field_read::<Short>(s, a3, m.direction, t3);
    }
}

impl ClientboundPacket for SpawnPainting {
    open spec fn listed() -> IDS {
        IDS::SpawnPainting
    }

    open spec fn parsed(s: Seq<u8>) -> Option<SpawnPaintingModel> {
        match Self::decoded(s) {
            Some((m, _)) => Some(m),
            None => None,
        }
    }

    fn parse(data: &[u8]) -> (r: Result<Self, String>) {
        match Self::decode(data) {
            Some((p, _)) => Ok(p),
            None => Err(malformed("SpawnPainting")),
        }
    }

    fn id() -> (r: IDS) {
        IDS::SpawnPainting
    }
}

/// An experience orb has come into view.
#[derive(Debug, Clone, Copy, PartialEq, Eq, Structural)]
pub struct SpawnExperienceOrb {
    pub entity_id: VarInt,
    pub x: Int,
    pub y: Int,
    pub z: Int,
    pub count: Short,
}

impl View for SpawnExperienceOrb {
    type V = SpawnExperienceOrb;

    open spec fn view(&self) -> SpawnExperienceOrb {
        *self
    }
}

impl SpawnExperienceOrb {
    /// A packet of the given fields.
    pub fn new(entity_id: VarInt, x: Int, y: Int, z: Int, count: Short) -> (r: Self)
        ensures
            r == (SpawnExperienceOrb { entity_id, x, y, z, count }),
    {
        SpawnExperienceOrb { entity_id, x, y, z, count }
    }
}

impl Wire for SpawnExperienceOrb {
    open spec fn valid(m: SpawnExperienceOrb) -> bool {
        &&& VarInt::valid(m.entity_id)
        &&& Int::valid(m.x)
        &&& Int::valid(m.y)
        &&& Int::valid(m.z)
        &&& Short::valid(m.count)
    }

    open spec fn wire(m: SpawnExperienceOrb) -> Seq<u8> {
        VarInt::wire(m.entity_id)
            + Int::wire(m.x)
            + Int::wire(m.y)
            + Int::wire(m.z)
            + Short::wire(m.count)
    }

    open spec fn decoded(s: Seq<u8>) -> Option<(SpawnExperienceOrb, int)> {
        let r0 = VarInt::decoded(s);
        let n0 = taken(r0);
        let f_entity_id = read(r0);
        let r1 = Int::decoded(s.skip(n0));
        let n1 = n0 + taken(r1);
        let f_x = read(r1);
        let r2 = Int::decoded(s.skip(n1));
        let n2 = n1 + taken(r2);
        let f_y = read(r2);
        let r3 = Int::decoded(s.skip(n2));
        let n3 = n2 + taken(r3);
        let f_z = read(r3);
        let r4 = Short::decoded(s.skip(n3));
        let n4 = n3 + taken(r4);
        let f_count = read(r4);
        if r0 is Some && r1 is Some && r2 is Some && r3 is Some && r4 is Some {
            Some(
                (
                    SpawnExperienceOrb {
                        entity_id: f_entity_id,
                        x: f_x,
                        y: f_y,
                        z: f_z,
                        count: f_count,
                    },
                    n4,
                ),
            )
        } else {
            None
        }
    }

    fn decode(data: &[u8]) -> (r: Option<(Self, usize)>) {
        let (f_entity_id, k0) = match <VarInt as Wire>::decode(data) {
            Some(x) => x,
            None => {
                return None;
            },
        };
        proof {
            VarInt::lemma_decoded_bounds(data@);
        }
        let n0 = k0;
        let (f_x, k1) = match <Int as Wire>::decode(tail(data, n0)) {
            Some(x) => x,
            None => {
                return None;
            },
        };
        proof {
            Int::lemma_decoded_bounds(data@.skip(n0 as int));
        }
        let n1 = n0 + k1;
        let (f_y, k2) = match <Int as Wire>::decode(tail(data, n1)) {
            Some(x) => x,
            None => {
                return None;
            },
        };
        proof {
            Int::lemma_decoded_bounds(data@.skip(n1 as int));
        }
        let n2 = n1 + k2;
        let (f_z, k3) = match <Int as Wire>::decode(tail(data, n2)) {
            Some(x) => x,
            None => {
                return None;
            },
        };
        proof {
            Int::lemma_decoded_bounds(data@.skip(n2 as int));
        }
        let n3 = n2 + k3;
        let (f_count, k4) = match <Short as Wire>::decode(tail(data, n3)) {
            Some(x) => x,
            None => {
                return None;
            },
        };
        proof {
            Short::lemma_decoded_bounds(data@.skip(n3 as int));
        }
        let n4 = n3 + k4;
        Some(
            (
                SpawnExperienceOrb {
                    entity_id: f_entity_id,
                    x: f_x,
                    y: f_y,
                    z: f_z,
                    count: f_count,
                },
                n4,
            ),
        )
    }

    fn encode(&self, out: &mut Vec<u8>) {
        self.entity_id.encode(out);
        self.x.encode(out);
        self.y.encode(out);
        self.z.encode(out);
        self.count.encode(out);
        assert(out@ =~= old(out)@ + Self::wire(self@));
    }

    fn check(&self) -> (b: bool) {
        self.entity_id.check()
            && self.x.check()
            && self.y.check()
            && self.z.check()
            && self.count.check()
    }

    proof fn lemma_decoded_bounds(s: Seq<u8>) {
        let r0 = VarInt::decoded(s);
        VarInt::lemma_decoded_bounds(s);
        let n0 = taken(r0);
        let f_entity_id = read(r0);
        let r1 = Int::decoded(s.skip(n0));
        Int::lemma_decoded_bounds(s.skip(n0));
        let n1 = n0 + taken(r1);
        let f_x = read(r1);
        let r2 = Int::decoded(s.skip(n1));
        Int::lemma_decoded_bounds(s.skip(n1));
        let n2 = n1 + taken(r2);
        let f_y = read(r2);
        let r3 = Int::decoded(s.skip(n2));
        Int::lemma_decoded_bounds(s.skip(n2));
        let n3 = n2 + taken(r3);
        let f_z = read(r3);
        let r4 = Short::decoded(s.skip(n3));
        Short::lemma_decoded_bounds(s.skip(n3));
        let n4 = n3 + taken(r4);
        let f_count = read(r4);
    }

    proof fn lemma_decoded_wire(m: SpawnExperienceOrb, rest: Seq<u8>) {
        let s = Self::wire(m) + rest;
        let w0 = VarInt::wire(m.entity_id);
        let w1 = Int::wire(m.x);
        let w2 = Int::wire(m.y);
        let w3 = Int::wire(m.z);
        let w4 = Short::wire(m.count);
        let p0 = w0;
        let p1 = p0 + w1;
        let p2 = p1 + w2;
        let p3 = p2 + w3;
        let p4 = p3 + w4;
        let t4 = rest;
        let t3 = w4 + t4;
        let t2 = w3 + t3;
        let t1 = w2 + t2;
        let t0 = w1 + t1;
        assert(s == p4 + t4);
        lemma_join(p3, w4, t4);
        lemma_join(p2, w3, t3);
        lemma_join(p1, w2, t2);
        lemma_join(p0, w1, t1);
        assert(s.skip(0) =~= s);
        let a0 = 0int;
        lemma_field_read::<VarInt>(s, a0, m.entity_id, t0);
        let a1 = a0 + w0.len();
        lemma_field_read::<Int>(s, a1, m.x, t1);
        let a2 = a1 + w1.len();
        lemma_field_read::<Int>(s, a2, m.y, t2);
        let a3 = a2 + w2.len();
        lemma_field_read::<Int>(s, a3, m.z, t3);
        let a4 = a3 + w3.len();
        lemma_field_read::<Short>(s, a4, m.count, t4);
    }
}

impl ClientboundPacket for SpawnExperienceOrb {
    open spec fn listed() -> IDS {
        IDS::SpawnExperienceOrb
    }

    open spec fn parsed(s: Seq<u8>) -> Option<SpawnExperienceOrb> {
        match Self::decoded(s) {
            Some((m, _)) => Some(m),
            None => None,
        }
    }

    fn parse(data: &[u8]) -> (r: Result<Self, String>) {
        match Self::decode(data) {
            Some((p, _)) => Ok(p),
            None => Err(malformed("SpawnExperienceOrb")),
        }
    }

    fn id() -> (r: IDS) {
        IDS::SpawnExperienceOrb
    }
}

/// A thunderbolt has struck.
#[derive(Debug, Clone, Copy, PartialEq, Eq, Structural)]
pub struct SpawnGlobalEntity {
    pub entity_id: VarInt,
    pub _type: Byte,
    pub x: Int,
    pub y: Int,
    pub z: Int,
}

impl View for SpawnGlobalEntity {
    type V = SpawnGlobalEntity;

    open spec fn view(&self) -> SpawnGlobalEntity {
        *self
    }
}

impl SpawnGlobalEntity {
    /// A packet of the given fields.
    pub fn new(entity_id: VarInt, _type: Byte, x: Int, y: Int, z: Int) -> (r: Self)
        ensures
            r == (SpawnGlobalEntity { entity_id, _type, x, y, z }),
    {
        SpawnGlobalEntity { entity_id, _type, x, y, z }
    }
}

impl Wire for SpawnGlobalEntity {
    open spec fn valid(m: SpawnGlobalEntity) -> bool {
        &&& VarInt::valid(m.entity_id)
        &&& Byte::valid(m._type)
        &&& Int::valid(m.x)
        &&& Int::valid(m.y)
        &&& Int::valid(m.z)
    }

    open spec fn wire(m: SpawnGlobalEntity) -> Seq<u8> {
        VarInt::wire(m.entity_id)
            + Byte::wire(m._type)
            + Int::wire(m.x)
            + Int::wire(m.y)
            + Int::wire(m.z)
    }

    open spec fn decoded(s: Seq<u8>) -> Option<(SpawnGlobalEntity, int)> {
        let r0 = VarInt::decoded(s);
        let n0 = taken(r0);
        let f_entity_id = read(r0);
        let r1 = Byte::decoded(s.skip(n0));
        let n1 = n0 + taken(r1);
        let f__type = read(r1);
        let r2 = Int::decoded(s.skip(n1));
        let n2 = n1 + taken(r2);
        let f_x = read(r2);
        let r3 = Int::decoded(s.skip(n2));
        let n3 = n2 + taken(r3);
        let f_y = read(r3);
        let r4 = Int::decoded(s.skip(n3));
        let n4 = n3 + taken(r4);
        let f_z = read(r4);
        if r0 is Some && r1 is Some && r2 is Some && r3 is Some && r4 is Some {
            Some(
                (
                    SpawnGlobalEntity {
                        entity_id: f_entity_id,
                        _type: f__type,
                        x: f_x,
                        y: f_y,
                        z: f_z,
                    },
                    n4,
                ),
            )
        } else {
            None
        }
    }

    fn decode(data: &[u8]) -> (r: Option<(Self, usize)>) {
        let (f_entity_id, k0) = match <VarInt as Wire>::decode(data) {
            Some(x) => x,
            None => {
                return None;
            },
        };
        proof {
            VarInt::lemma_decoded_bounds(data@);
        }
        let n0 = k0;
        let (f__type, k1) = match <Byte as Wire>::decode(tail(data, n0)) {
            Some(x) => x,
            None => {
                return None;
            },
        };
        proof {
            Byte::lemma_decoded_bounds(data@.skip(n0 as int));
        }
        let n1 = n0 + k1;
        let (f_x, k2) = match <Int as Wire>::decode(tail(data, n1)) {
            Some(x) => x,
            None => {
                return None;
            },
        };
        proof {
            Int::lemma_decoded_bounds(data@.skip(n1 as int));
        }
        let n2 = n1 + k2;
        let (f_y, k3) = match <Int as Wire>::decode(tail(data, n2)) {
            Some(x) => x,
            None => {
                return None;
            },
        };
        proof {
            Int::lemma_decoded_bounds(data@.skip(n2 as int));
        }
        let n3 = n2 + k3;
        let (f_z, k4) = match <Int as Wire>::decode(tail(data, n3)) {
            Some(x) => x,
            None => {
                return None;
            },
        };
        proof {
            Int::lemma_decoded_bounds(data@.skip(n3 as int));
        }
        let n4 = n3 + k4;
        Some(
            (
                SpawnGlobalEntity {
                    entity_id: f_entity_id,
                    _type: f__type,
                    x: f_x,
                    y: f_y,
                    z: f_z,
                },
                n4,
            ),
        )
    }

    fn encode(&self, out: &mut Vec<u8>) {
        self.entity_id.encode(out);
        self._type.encode(out);
        self.x.encode(out);
        self.y.encode(out);
        self.z.encode(out);
        assert(out@ =~= old(out)@ + Self::wire(self@));
    }

    fn check(&self) -> (b: bool) {
        self.entity_id.check()
            && self._type.check()
            && self.x.check()
            && self.y.check()
            && self.z.check()
    }

    proof fn lemma_decoded_bounds(s: Seq<u8>) {
        let r0 = VarInt::decoded(s);
        VarInt::lemma_decoded_bounds(s);
        let n0 = taken(r0);
        let f_entity_id = read(r0);
        let r1 = Byte::decoded(s.skip(n0));
        Byte::lemma_decoded_bounds(s.skip(n0));
        let n1 = n0 + taken(r1);
        let f__type = read(r1);
        let r2 = Int::decoded(s.skip(n1));
        Int::lemma_decoded_bounds(s.skip(n1));
        let n2 = n1 + taken(r2);
        let f_x = read(r2);
        let r3 = Int::decoded(s.skip(n2));
        Int::lemma_decoded_bounds(s.skip(n2));
        let n3 = n2 + taken(r3);
        let f_y = read(r3);
        let r4 = Int::decoded(s.skip(n3));
        Int::lemma_decoded_bounds(s.skip(n3));
        let n4 = n3 + taken(r4);
        let f_z = read(r4);
    }

    proof fn lemma_decoded_wire(m: SpawnGlobalEntity, rest: Seq<u8>) {
        let s = Self::wire(m) + rest;
        let w0 = VarInt::wire(m.entity_id);
        let w1 = Byte::wire(m._type);
        let w2 = Int::wire(m.x);
        let w3 = Int::wire(m.y);
        let w4 = Int::wire(m.z);
        let p0 = w0;
        let p1 = p0 + w1;
        let p2 = p1 + w2;
        let p3 = p2 + w3;
        let p4 = p3 + w4;
        let t4 = rest;
        let t3 = w4 + t4;
        let t2 = w3 + t3;
        let t1 = w2 + t2;
        let t0 = w1 + t1;
        assert(s == p4 + t4);
        lemma_join(p3, w4, t4);
        lemma_join(p2, w3, t3);
        lemma_join(p1, w2, t2);
        lemma_join(p0, w1, t1);
        assert(s.skip(0) =~= s);
        let a0 = 0int;
        lemma_field_read::<VarInt>(s, a0, m.entity_id, t0);
        let a1 = a0 + w0.len();
        lemma_field_read::<Byte>(s, a1, m._type, t1);
        let a2 = a1 + w1.len();
        lemma_field_read::<Int>(s, a2, m.x, t2);
        let a3 = a2 + w2.len();
        lemma_field_read::<Int>(s, a3, m.y, t3);
        let a4 = a3 + w3.len();
        lemma_field_read::<Int>(s, a4, m.z, t4);
    }
}

impl ClientboundPacket for SpawnGlobalEntity {
    open spec fn listed() -> IDS {
        IDS::SpawnGlobalEntity
    }

    open spec fn parsed(s: Seq<u8>) -> Option<SpawnGlobalEntity> {
        match Self::decoded(s) {
            Some((m, _)) => Some(m),
            None => None,
        }
    }

    fn parse(data: &[u8]) -> (r: Result<Self, String>) {
        match Self::decode(data) {
            Some((p, _)) => Ok(p),
            None => Err(malformed("SpawnGlobalEntity")),
        }
    }

    fn id() -> (r: IDS) {
        IDS::SpawnGlobalEntity
    }
}

/// The velocity of an entity.
#[derive(Debug, Clone, Copy, PartialEq, Eq, Structural)]
pub struct EntityVelocity {
    pub entity_id: VarInt,
    pub velocity_x: Short,
    pub velocity_y: Short,
    pub velocity_z: Short,
}

impl View for EntityVelocity {
    type V = EntityVelocity;

    open spec fn view(&self) -> EntityVelocity {
        *self
    }
}

impl EntityVelocity {
    /// A packet of the given fields.
    pub fn new(
        entity_id: VarInt,
        velocity_x: Short,
        velocity_y: Short,
        velocity_z: Short,
    ) -> (r: Self)
        ensures
            r == (EntityVelocity { entity_id, velocity_x, velocity_y, velocity_z }),
    {
        EntityVelocity { entity_id, velocity_x, velocity_y, velocity_z }
    }
}

impl Wire for EntityVelocity {
    open spec fn valid(m: EntityVelocity) -> bool {
        &&& VarInt::valid(m.entity_id)
        &&& Short::valid(m.velocity_x)
        &&& Short::valid(m.velocity_y)
        &&& Short::valid(m.velocity_z)
    }

    open spec fn wire(m: EntityVelocity) -> Seq<u8> {
        VarInt::wire(m.entity_id)
            + Short::wire(m.velocity_x)
            + Short::wire(m.velocity_y)
            + Short::wire(m.velocity_z)
    }

    open spec fn decoded(s: Seq<u8>) -> Option<(EntityVelocity, int)> {
        let r0 = VarInt::decoded(s);
        let n0 = taken(r0);
        let f_entity_id = read(r0);
        let r1 = Short::decoded(s.skip(n0));
        let n1 = n0 + taken(r1);
        let f_velocity_x = read(r1);
        let r2 = Short::decoded(s.skip(n1));
        let n2 = n1 + taken(r2);
        let f_velocity_y = read(r2);
        let r3 = Short::decoded(s.skip(n2));
        let n3 = n2 + taken(r3);
        let f_velocity_z = read(r3);
        if r0 is Some && r1 is Some && r2 is Some && r3 is Some {
            Some(
                (
                    EntityVelocity {
                        entity_id: f_entity_id,
                        velocity_x: f_velocity_x,
                        velocity_y: f_velocity_y,
                        velocity_z: f_velocity_z,
                    },
                    n3,
                ),
            )
        } else {
            None
        }
    }

    fn decode(data: &[u8]) -> (r: Option<(Self, usize)>) {
        let (f_entity_id, k0) = match <VarInt as Wire>::decode(data) {
            Some(x) => x,
            None => {
                return None;
            },
        };
        proof {
            VarInt::lemma_decoded_bounds(data@);
        }
        let n0 = k0;
        let (f_velocity_x, k1) = match <Short as Wire>::decode(tail(data, n0)) {
            Some(x) => x,
            None => {
                return None;
            },
        };
        proof {
            Short::lemma_decoded_bounds(data@.skip(n0 as int));
        }
        let n1 = n0 + k1;
        let (f_velocity_y, k2) = match <Short as Wire>::decode(tail(data, n1)) {
            Some(x) => x,
            None => {
                return None;
            },
        };
        proof {
            Short::lemma_decoded_bounds(data@.skip(n1 as int));
        }
        let n2 = n1 + k2;
        let (f_velocity_z, k3) = match <Short as Wire>::decode(tail(data, n2)) {
            Some(x) => x,
            None => {
                return None;
            },
        };
        proof {
            Short::lemma_decoded_bounds(data@.skip(n2 as int));
        }
        let n3 = n2 + k3;
        Some(
            (
                EntityVelocity {
                    entity_id: f_entity_id,
                    velocity_x: f_velocity_x,
                    velocity_y: f_velocity_y,
                    velocity_z: f_velocity_z,
                },
                n3,
            ),
        )
    }

    fn encode(&self, out: &mut Vec<u8>) {
        self.entity_id.encode(out);
        self.velocity_x.encode(out);
        self.velocity_y.encode(out);
        self.velocity_z.encode(out);
        assert(out@ =~= old(out)@ + Self::wire(self@));
    }

    fn check(&self) -> (b: bool) {
        self.entity_id.check()
            && self.velocity_x.check()
            && self.velocity_y.check()
            && self.velocity_z.check()
    }

    proof fn lemma_decoded_bounds(s: Seq<u8>) {
        let r0 = VarInt::decoded(s);
        VarInt::lemma_decoded_bounds(s);
        let n0 = taken(r0);
        let f_entity_id = read(r0);
        let r1 = Short::decoded(s.skip(n0));
        Short::lemma_decoded_bounds(s.skip(n0));
        let n1 = n0 + taken(r1);
        let f_velocity_x = read(r1);
        let r2 = Short::decoded(s.skip(n1));
        Short::lemma_decoded_bounds(s.skip(n1));
        let n2 = n1 + taken(r2);
        let f_velocity_y = read(r2);
        let r3 = Short::decoded(s.skip(n2));
        Short::lemma_decoded_bounds(s.skip(n2));
        let n3 = n2 + taken(r3);
        let f_velocity_z = read(r3);
    }

    proof fn lemma_decoded_wire(m: EntityVelocity, rest: Seq<u8>) {
        let s = Self::wire(m) + rest;
        let w0 = VarInt::wire(m.entity_id);
        let w1 = Short::wire(m.velocity_x);
        let w2 = Short::wire(m.velocity_y);
        let w3 = Short::wire(m.velocity_z);
        let p0 = w0;
        let p1 = p0 + w1;
        let p2 = p1 + w2;
        let p3 = p2 + w3;
        let t3 = rest;
        let t2 = w3 + t3;
        let t1 = w2 + t2;
        let t0 = w1 + t1;
        assert(s == p3 + t3);
        lemma_join(p2, w3, t3);
        lemma_join(p1, w2, t2);
        lemma_join(p0, w1, t1);
        assert(s.skip(0) =~= s);
        let a0 = 0int;
        lemma_field_read::<VarInt>(s, a0, m.entity_id, t0);
        let a1 = a0 + w0.len();
        lemma_field_read::<Short>(s, a1, m.velocity_x, t1);
        let a2 = a1 + w1.len();
        lemma_field_read::<Short>(s, a2, m.velocity_y, t2);
        let a3 = a2 + w2.len();
        lemma_field_read::<Short>(s, a3, m.velocity_z, t3);
    }
}

impl ClientboundPacket for EntityVelocity {
    open spec fn listed() -> IDS {
        IDS::EntityVelocity
    }

    open spec fn parsed(s: Seq<u8>) -> Option<EntityVelocity> {
        match Self::decoded(s) {
            Some((m, _)) => Some(m),
            None => None,
        }
    }

    fn parse(data: &[u8]) -> (r: Result<Self, String>) {
        match Self::decode(data) {
            Some((p, _)) => Ok(p),
            None => Err(malformed("EntityVelocity")),
        }
    }

    fn id() -> (r: IDS) {
        IDS::EntityVelocity
    }
}

/// Entities have gone out of view or have been destroyed.
#[derive(Debug, Clone, PartialEq, Eq)]
pub struct DestroyEntities {
    pub entity_ids: VarIntArray,
}

/// What a `DestroyEntities` holds.
pub struct DestroyEntitiesModel {
    pub entity_ids: Seq<VarInt>,
}

impl View for DestroyEntities {
    type V = DestroyEntitiesModel;

    open spec fn view(&self) -> DestroyEntitiesModel {
        DestroyEntitiesModel {
            entity_ids: self.entity_ids@,
        }
    }
}

impl DestroyEntities {
    /// A packet of the given fields.
    pub fn new(entity_ids: VarIntArray) -> (r: Self)
        ensures
            r == (DestroyEntities { entity_ids }),
    {
        DestroyEntities { entity_ids }
    }
}

impl Wire for DestroyEntities {
    open spec fn valid(m: DestroyEntitiesModel) -> bool {
        &&& VarIntArray::valid(m.entity_ids)
    }

    open spec fn wire(m: DestroyEntitiesModel) -> Seq<u8> {
        VarIntArray::wire(m.entity_ids)
    }

    open spec fn decoded(s: Seq<u8>) -> Option<(DestroyEntitiesModel, int)> {
        let r0 = VarIntArray::decoded(s);
        let n0 = taken(r0);
        let f_entity_ids = read(r0);
        if r0 is Some {
            Some((DestroyEntitiesModel { entity_ids: f_entity_ids }, n0))
        } else {
            None
        }
    }

    fn decode(data: &[u8]) -> (r: Option<(Self, usize)>) {
        let (f_entity_ids, k0) = match <VarIntArray as Wire>::decode(data) {
            Some(x) => x,
            None => {
                return None;
            },
        };
        proof {
            VarIntArray::lemma_decoded_bounds(data@);
        }
        let n0 = k0;
        Some((DestroyEntities { entity_ids: f_entity_ids }, n0))
    }

    fn encode(&self, out: &mut Vec<u8>) {
        self.entity_ids.encode(out);
        assert(out@ =~= old(out)@ + Self::wire(self@));
    }

    fn check(&self) -> (b: bool) {
        self.entity_ids.check()
    }

    proof fn lemma_decoded_bounds(s: Seq<u8>) {
        let r0 = VarIntArray::decoded(s);
        VarIntArray::lemma_decoded_bounds(s);
        let n0 = taken(r0);
        let f_entity_ids = read(r0);
    }

    proof fn lemma_decoded_wire(m: DestroyEntitiesModel, rest: Seq<u8>) {
        let s = Self::wire(m) + rest;
        let w0 = VarIntArray::wire(m.entity_ids);
        let p0 = w0;
        let t0 = rest;
        assert(s == p0 + t0);
        assert(s.skip(0) =~= s);
        let a0 = 0int;
        lemma_field_read::<VarIntArray>(s, a0, m.entity_ids, t0);
    }
}

impl ClientboundPacket for DestroyEntities {
    open spec fn listed() -> IDS {
        IDS::DestroyEntities
    }

    open spec fn parsed(s: Seq<u8>) -> Option<DestroyEntitiesModel> {
        match Self::decoded(s) {
            Some((m, _)) => Some(m),
            None => None,
        }
    }

    fn parse(data: &[u8]) -> (r: Result<Self, String>) {
        match Self::decode(data) {
            Some((p, _)) => Ok(p),
            None => Err(malformed("DestroyEntities")),
        }
    }

    fn id() -> (r: IDS) {
        IDS::DestroyEntities
    }
}

/// An entity is there and has not moved.
#[derive(Debug, Clone, Copy, PartialEq, Eq, Structural)]
pub struct Entity {
    pub entity_id: VarInt,
}

impl View for Entity {
    type V = Entity;

    open spec fn view(&self) -> Entity {
        *self
    }
}

impl Entity {
    /// A packet of the given fields.
    pub fn new(entity_id: VarInt) -> (r: Self)
        ensures
            r == (Entity { entity_id }),
    {
        Entity { entity_id }
    }
}

impl Wire for Entity {
    open spec fn valid(m: Entity) -> bool {
        &&& VarInt::valid(m.entity_id)
    }

    open spec fn wire(m: Entity) -> Seq<u8> {
        VarInt::wire(m.entity_id)
    }

    open spec fn decoded(s: Seq<u8>) -> Option<(Entity, int)> {
        let r0 = VarInt::decoded(s);
        let n0 = taken(r0);
        let f_entity_id = read(r0);
        if r0 is Some {
            Some((Entity { entity_id: f_entity_id }, n0))
        } else {
            None
        }
    }

    fn decode(data: &[u8]) -> (r: Option<(Self, usize)>) {
        let (f_entity_id, k0) = match <VarInt as Wire>::decode(data) {
            Some(x) => x,
            None => {
                return None;
            },
        };
        proof {
            VarInt::lemma_decoded_bounds(data@);
        }
        let n0 = k0;
        Some((Entity { entity_id: f_entity_id }, n0))
    }

    fn encode(&self, out: &mut Vec<u8>) {
        self.entity_id.encode(out);
        assert(out@ =~= old(out)@ + Self::wire(self@));
    }

    fn check(&self) -> (b: bool) {
        self.entity_id.check()
    }

    proof fn lemma_decoded_bounds(s: Seq<u8>) {
        let r0 = VarInt::decoded(s);
        VarInt::lemma_decoded_bounds(s);
        let n0 = taken(r0);
        let f_entity_id = read(r0);
    }

    proof fn lemma_decoded_wire(m: Entity, rest: Seq<u8>) {
        let s = Self::wire(m) + rest;
        let w0 = VarInt::wire(m.entity_id);
        let p0 = w0;
        let t0 = rest;
        assert(s == p0 + t0);
        assert(s.skip(0) =~= s);
        let a0 = 0int;
        lemma_field_read::<VarInt>(s, a0, m.entity_id, t0);
    }
}

impl ClientboundPacket for Entity {
    open spec fn listed() -> IDS {
        IDS::Entity
    }

    open spec fn parsed(s: Seq<u8>) -> Option<Entity> {
        match Self::decoded(s) {
            Some((m, _)) => Some(m),
            None => None,
        }
    }

    fn parse(data: &[u8]) -> (r: Result<Self, String>) {
        match Self::decode(data) {
            Some((p, _)) => Ok(p),
            None => Err(malformed("Entity")),
        }
    }

    fn id() -> (r: IDS) {
        IDS::Entity
    }
}

/// An entity has moved by less than four blocks.
#[derive(Debug, Clone, Copy, PartialEq, Eq, Structural)]
pub struct EntityRelativeMove {
    pub entity_id: VarInt,
    pub delta_x: Byte,
    pub delta_y: Byte,
    pub delta_z: Byte,
    pub on_ground: Boolean,
}

impl View for EntityRelativeMove {
    type V = EntityRelativeMove;

    open spec fn view(&self) -> EntityRelativeMove {
        *self
    }
}

impl EntityRelativeMove {
    /// A packet of the given fields.
    pub fn new(
        entity_id: VarInt,
        delta_x: Byte,
        delta_y: Byte,
        delta_z: Byte,
        on_ground: Boolean,
    ) -> (r: Self)
        ensures
            r == (EntityRelativeMove { entity_id, delta_x, delta_y, delta_z, on_ground }),
    {
        EntityRelativeMove { entity_id, delta_x, delta_y, delta_z, on_ground }
    }
}

impl Wire for EntityRelativeMove {
    open spec fn valid(m: EntityRelativeMove) -> bool {
        &&& VarInt::valid(m.entity_id)
        &&& Byte::valid(m.delta_x)
        &&& Byte::valid(m.delta_y)
        &&& Byte::valid(m.delta_z)
        &&& Boolean::valid(m.on_ground)
    }

    open spec fn wire(m: EntityRelativeMove) -> Seq<u8> {
        VarInt::wire(m.entity_id)
            + Byte::wire(m.delta_x)
            + Byte::wire(m.delta_y)
            + Byte::wire(m.delta_z)
            + Boolean::wire(m.on_ground)
    }

    open spec fn decoded(s: Seq<u8>) -> Option<(EntityRelativeMove, int)> {
        let r0 = VarInt::decoded(s);
        let n0 = taken(r0);
        let f_entity_id = read(r0);
        let r1 = Byte::decoded(s.skip(n0));
        let n1 = n0 + taken(r1);
        let f_delta_x = read(r1);
        let r2 = Byte::decoded(s.skip(n1));
        let n2 = n1 + taken(r2);
        let f_delta_y = read(r2);
        let r3 = Byte::decoded(s.skip(n2));
        let n3 = n2 + taken(r3);
        let f_delta_z = read(r3);
        let r4 = Boolean::decoded(s.skip(n3));
        let n4 = n3 + taken(r4);
        let f_on_ground = read(r4);
        if r0 is Some && r1 is Some && r2 is Some && r3 is Some && r4 is Some {
            Some(
                (
                    EntityRelativeMove {
                        entity_id: f_entity_id,
                        delta_x: f_delta_x,
                        delta_y: f_delta_y,
                        delta_z: f_delta_z,
                        on_ground: f_on_ground,
                    },
                    n4,
                ),
            )
        } else {
            None
        }
    }

    fn decode(data: &[u8]) -> (r: Option<(Self, usize)>) {
        let (f_entity_id, k0) = match <VarInt as Wire>::decode(data) {
            Some(x) => x,
            None => {
                return None;
            },
        };
        proof {
            VarInt::lemma_decoded_bounds(data@);
        }
        let n0 = k0;
        let (f_delta_x, k1) = match <Byte as Wire>::decode(tail(data, n0)) {
            Some(x) => x,
            None => {
                return None;
            },
        };
        proof {
            Byte::lemma_decoded_bounds(data@.skip(n0 as int));
        }
        let n1 = n0 + k1;
        let (f_delta_y, k2) = match <Byte as Wire>::decode(tail(data, n1)) {
            Some(x) => x,
            None => {
                return None;
            },
        };
        proof {
            Byte::lemma_decoded_bounds(data@.skip(n1 as int));
        }
        let n2 = n1 + k2;
        let (f_delta_z, k3) = match <Byte as Wire>::decode(tail(data, n2)) {
            Some(x) => x,
            None => {
                return None;
            },
        };
        proof {
            Byte::lemma_decoded_bounds(data@.skip(n2 as int));
        }
        let n3 = n2 + k3;
        let (f_on_ground, k4) = match <Boolean as Wire>::decode(tail(data, n3)) {
            Some(x) => x,
            None => {
                return None;
            },
        };
        proof {
            Boolean::lemma_decoded_bounds(data@.skip(n3 as int));
        }
        let n4 = n3 + k4;
        Some(
            (
                EntityRelativeMove {
                    entity_id: f_entity_id,
                    delta_x: f_delta_x,
                    delta_y: f_delta_y,
                    delta_z: f_delta_z,
                    on_ground: f_on_ground,
                },
                n4,
            ),
        )
    }

    fn encode(&self, out: &mut Vec<u8>) {
        self.entity_id.encode(out);
        self.delta_x.encode(out);
        self.delta_y.encode(out);
        self.delta_z.encode(out);
        self.on_ground.encode(out);
        assert(out@ =~= old(out)@ + Self::wire(self@));
    }

    fn check(&self) -> (b: bool) {
        self.entity_id.check()
            && self.delta_x.check()
            && self.delta_y.check()
            && self.delta_z.check()
            && self.on_ground.check()
    }

    proof fn lemma_decoded_bounds(s: Seq<u8>) {
        let r0 = VarInt::decoded(s);
        VarInt::lemma_decoded_bounds(s);
        let n0 = taken(r0);
        let f_entity_id = read(r0);
        let r1 = Byte::decoded(s.skip(n0));
        Byte::lemma_decoded_bounds(s.skip(n0));
        let n1 = n0 + taken(r1);
        let f_delta_x = read(r1);
        let r2 = Byte::decoded(s.skip(n1));
        Byte::lemma_decoded_bounds(s.skip(n1));
        let n2 = n1 + taken(r2);
        let f_delta_y = read(r2);
        let r3 = Byte::decoded(s.skip(n2));
        Byte::lemma_decoded_bounds(s.skip(n2));
        let n3 = n2 + taken(r3);
        let f_delta_z = read(r3);
        let r4 = Boolean::decoded(s.skip(n3));
        Boolean::lemma_decoded_bounds(s.skip(n3));
        let n4 = n3 + taken(r4);
        let f_on_ground = read(r4);
    }

    proof fn lemma_decoded_wire(m: EntityRelativeMove, rest: Seq<u8>) {
        let s = Self::wire(m) + rest;
        let w0 = VarInt::wire(m.entity_id);
        let w1 = Byte::wire(m.delta_x);
        let w2 = Byte::wire(m.delta_y);
        let w3 = Byte::wire(m.delta_z);
        let w4 = Boolean::wire(m.on_ground);
        let p0 = w0;
        let p1 = p0 + w1;
        let p2 = p1 + w2;
        let p3 = p2 + w3;
        let p4 = p3 + w4;
        let t4 = rest;
        let t3 = w4 + t4;
        let t2 = w3 + t3;
        let t1 = w2 + t2;
        let t0 = w1 + t1;
        assert(s == p4 + t4);
        lemma_join(p3, w4, t4);
        lemma_join(p2, w3, t3);
        lemma_join(p1, w2, t2);
        lemma_join(p0, w1, t1);
        assert(s.skip(0) =~= s);
        let a0 = 0int;
        lemma_field_read::<VarInt>(s, a0, m.entity_id, t0);
        let a1 = a0 + w0.len();
        lemma_field_read::<Byte>(s, a1, m.delta_x, t1);
        let a2 = a1 + w1.len();
        lemma_field_read::<Byte>(s, a2, m.delta_y, t2);
        let a3 = a2 + w2.len();
        lemma_field_read::<Byte>(s, a3, m.delta_z, t3);
        let a4 = a3 + w3.len();
        lemma_field_read::<Boolean>(s, a4, m.on_ground, t4);
    }
}

impl ClientboundPacket for EntityRelativeMove {
    open spec fn listed() -> IDS {
        IDS::EntityRelativeMove
    }

    open spec fn parsed(s: Seq<u8>) -> Option<EntityRelativeMove> {
        match Self::decoded(s) {
            Some((m, _)) => Some(m),
            None => None,
        }
    }

    fn parse(data: &[u8]) -> (r: Result<Self, String>) {
        match Self::decode(data) {
            Some((p, _)) => Ok(p),
            None => Err(malformed("EntityRelativeMove")),
        }
    }

    fn id() -> (r: IDS) {
        IDS::EntityRelativeMove
    }
}

/// An entity has turned.
#[derive(Debug, Clone, Copy, PartialEq, Eq, Structural)]
pub struct EntityLook {
    pub entity_id: VarInt,
    pub yaw: Angle,
    pub pitch: Angle,
    pub on_ground: Boolean,
}

impl View for EntityLook {
    type V = EntityLook;

    open spec fn view(&self) -> EntityLook {
        *self
    }
}

impl EntityLook {
    /// A packet of the given fields.
    pub fn new(entity_id: VarInt, yaw: Angle, pitch: Angle, on_ground: Boolean) -> (r: Self)
        ensures
            r == (EntityLook { entity_id, yaw, pitch, on_ground }),
    {
        EntityLook { entity_id, yaw, pitch, on_ground }
    }
}

impl Wire for EntityLook {
    open spec fn valid(m: EntityLook) -> bool {
        &&& VarInt::valid(m.entity_id)
        &&& Angle::valid(m.yaw)
        &&& Angle::valid(m.pitch)
        &&& Boolean::valid(m.on_ground)
    }

    open spec fn wire(m: EntityLook) -> Seq<u8> {
        VarInt::wire(m.entity_id)
            + Angle::wire(m.yaw)
            + Angle::wire(m.pitch)
            + Boolean::wire(m.on_ground)
    }

    open spec fn decoded(s: Seq<u8>) -> Option<(EntityLook, int)> {
        let r0 = VarInt::decoded(s);
        let n0 = taken(r0);
        let f_entity_id = read(r0);
        let r1 = Angle::decoded(s.skip(n0));
        let n1 = n0 + taken(r1);
        let f_yaw = read(r1);
        let r2 = Angle::decoded(s.skip(n1));
        let n2 = n1 + taken(r2);
        let f_pitch = read(r2);
        let r3 = Boolean::decoded(s.skip(n2));
        let n3 = n2 + taken(r3);
        let f_on_ground = read(r3);
        if r0 is Some && r1 is Some && r2 is Some && r3 is Some {
            Some(
                (
                    EntityLook {
                        entity_id: f_entity_id,
                        yaw: f_yaw,
                        pitch: f_pitch,
                        on_ground: f_on_ground,
                    },
                    n3,
                ),
            )
        } else {
            None
        }
    }

    fn decode(data: &[u8]) -> (r: Option<(Self, usize)>) {
        let (f_entity_id, k0) = match <VarInt as Wire>::decode(data) {
            Some(x) => x,
            None => {
                return None;
            },
        };
        proof {
            VarInt::lemma_decoded_bounds(data@);
        }
        let n0 = k0;
        let (f_yaw, k1) = match <Angle as Wire>::decode(tail(data, n0)) {
            Some(x) => x,
            None => {
                return None;
            },
        };
        proof {
            Angle::lemma_decoded_bounds(data@.skip(n0 as int));
        }
        let n1 = n0 + k1;
        let (f_pitch, k2) = match <Angle as Wire>::decode(tail(data, n1)) {
            Some(x) => x,
            None => {
                return None;
            },
        };
        proof {
            Angle::lemma_decoded_bounds(data@.skip(n1 as int));
        }
        let n2 = n1 + k2;
        let (f_on_ground, k3) = match <Boolean as Wire>::decode(tail(data, n2)) {
            Some(x) => x,
            None => {
                return None;
            },
        };
        proof {
            Boolean::lemma_decoded_bounds(data@.skip(n2 as int));
        }
        let n3 = n2 + k3;
        Some(
            (
                EntityLook {
                    entity_id: f_entity_id,
                    yaw: f_yaw,
                    pitch: f_pitch,
                    on_ground: f_on_ground,
                },
                n3,
            ),
        )
    }

    fn encode(&self, out: &mut Vec<u8>) {
        self.entity_id.encode(out);
        self.yaw.encode(out);
        self.pitch.encode(out);
        self.on_ground.encode(out);
        assert(out@ =~= old(out)@ + Self::wire(self@));
    }

    fn check(&self) -> (b: bool) {
        self.entity_id.check()
            && self.yaw.check()
            && self.pitch.check()
            && self.on_ground.check()
    }

    proof fn lemma_decoded_bounds(s: Seq<u8>) {
        let r0 = VarInt::decoded(s);
        VarInt::lemma_decoded_bounds(s);
        let n0 = taken(r0);
        let f_entity_id = read(r0);
        let r1 = Angle::decoded(s.skip(n0));
        Angle::lemma_decoded_bounds(s.skip(n0));
        let n1 = n0 + taken(r1);
        let f_yaw = read(r1);
        let r2 = Angle::decoded(s.skip(n1));
        Angle::lemma_decoded_bounds(s.skip(n1));
        let n2 = n1 + taken(r2);
        let f_pitch = read(r2);
        let r3 = Boolean::decoded(s.skip(n2));
        Boolean::lemma_decoded_bounds(s.skip(n2));
        let n3 = n2 + taken(r3);
        let f_on_ground = read(r3);
    }

    proof fn lemma_decoded_wire(m: EntityLook, rest: Seq<u8>) {
        let s = Self::wire(m) + rest;
        let w0 = VarInt::wire(m.entity_id);
        let w1 = Angle::wire(m.yaw);
        let w2 = Angle::wire(m.pitch);
        let w3 = Boolean::wire(m.on_ground);
        let p0 = w0;
        let p1 = p0 + w1;
        let p2 = p1 + w2;
        let p3 = p2 + w3;
        let t3 = rest;
        let t2 = w3 + t3;
        let t1 = w2 + t2;
        let t0 = w1 + t1;
        assert(s == p3 + t3);
        lemma_join(p2, w3, t3);
        lemma_join(p1, w2, t2);
        lemma_join(p0, w1, t1);
        assert(s.skip(0) =~= s);
        let a0 = 0int;
        lemma_field_read::<VarInt>(s, a0, m.entity_id, t0);
        let a1 = a0 + w0.len();
        lemma_field_read::<Angle>(s, a1, m.yaw, t1);
        let a2 = a1 + w1.len();
        lemma_field_read::<Angle>(s, a2, m.pitch, t2);
        let a3 = a2 + w2.len();
        lemma_field_read::<Boolean>(s, a3, m.on_ground, t3);
    }
}

impl ClientboundPacket for EntityLook {
    open spec fn listed() -> IDS {
        IDS::EntityLook
    }

    open spec fn parsed(s: Seq<u8>) -> Option<EntityLook> {
        match Self::decoded(s) {
            Some((m, _)) => Some(m),
            None => None,
        }
    }

    fn parse(data: &[u8]) -> (r: Result<Self, String>) {
        match Self::decode(data) {
            Some((p, _)) => Ok(p),
            None => Err(malformed("EntityLook")),
        }
    }

    fn id() -> (r: IDS) {
        IDS::EntityLook
    }
}

/// An entity has moved by less than four blocks and turned.
#[derive(Debug, Clone, Copy, PartialEq, Eq, Structural)]
pub struct EntityLookAndRelativeMove {
    pub entity_id: VarInt,
    pub delta_x: Byte,
    pub delta_y: Byte,
    pub delta_z: Byte,
    pub yaw: Angle,
    pub pitch: Angle,
    pub on_ground: Boolean,
}

impl View for EntityLookAndRelativeMove {
    type V = EntityLookAndRelativeMove;

    open spec fn view(&self) -> EntityLookAndRelativeMove {
        *self
    }
}

impl EntityLookAndRelativeMove {
    /// A packet of the given fields.
    pub fn new(
        entity_id: VarInt,
        delta_x: Byte,
        delta_y: Byte,
        delta_z: Byte,
        yaw: Angle,
        pitch: Angle,
        on_ground: Boolean,
    ) -> (r: Self)
        ensures
            r == (EntityLookAndRelativeMove {
                entity_id,
                delta_x,
                delta_y,
                delta_z,
                yaw,
                pitch,
                on_ground,
            }),
    {
        EntityLookAndRelativeMove {
            entity_id,
            delta_x,
            delta_y,
            delta_z,
            yaw,
            pitch,
            on_ground,
        }
    }
}

impl Wire for EntityLookAndRelativeMove {
    open spec fn valid(m: EntityLookAndRelativeMove) -> bool {
        &&& VarInt::valid(m.entity_id)
        &&& Byte::valid(m.delta_x)
        &&& Byte::valid(m.delta_y)
        &&& Byte::valid(m.delta_z)
        &&& Angle::valid(m.yaw)
        &&& Angle::valid(m.pitch)
        &&& Boolean::valid(m.on_ground)
    }

    open spec fn wire(m: EntityLookAndRelativeMove) -> Seq<u8> {
        VarInt::wire(m.entity_id)
            + Byte::wire(m.delta_x)
            + Byte::wire(m.delta_y)
            + Byte::wire(m.delta_z)
            + Angle::wire(m.yaw)
            + Angle::wire(m.pitch)
            + Boolean::wire(m.on_ground)
    }

    open spec fn decoded(s: Seq<u8>) -> Option<(EntityLookAndRelativeMove, int)> {
        let r0 = VarInt::decoded(s);
        let n0 = taken(r0);
        let f_entity_id = read(r0);
        let r1 = Byte::decoded(s.skip(n0));
        let n1 = n0 + taken(r1);
        let f_delta_x = read(r1);
        let r2 = Byte::decoded(s.skip(n1));
        let n2 = n1 + taken(r2);
        let f_delta_y = read(r2);
        let r3 = Byte::decoded(s.skip(n2));
        let n3 = n2 + taken(r3);
        let f_delta_z = read(r3);
        let r4 = Angle::decoded(s.skip(n3));
        let n4 = n3 + taken(r4);
        let f_yaw = read(r4);
        let r5 = Angle::decoded(s.skip(n4));
        let n5 = n4 + taken(r5);
        let f_pitch = read(r5);
        let r6 = Boolean::decoded(s.skip(n5));
        let n6 = n5 + taken(r6);
        let f_on_ground = read(r6);
        if r0 is Some && r1 is Some && r2 is Some && r3 is Some && r4 is Some && r5 is Some
            && r6 is Some {
            Some(
                (
                    EntityLookAndRelativeMove {
                        entity_id: f_entity_id,
                        delta_x: f_delta_x,
                        delta_y: f_delta_y,
                        delta_z: f_delta_z,
                        yaw: f_yaw,
                        pitch: f_pitch,
                        on_ground: f_on_ground,
                    },
                    n6,
                ),
            )
        } else {
            None
        }
    }

    fn decode(data: &[u8]) -> (r: Option<(Self, usize)>) {
        let (f_entity_id, k0) = match <VarInt as Wire>::decode(data) {
            Some(x) => x,
            None => {
                return None;
            },
        };
        proof {
            VarInt::lemma_decoded_bounds(data@);
        }
        let n0 = k0;
        let (f_delta_x, k1) = match <Byte as Wire>::decode(tail(data, n0)) {
            Some(x) => x,
            None => {
                return None;
            },
        };
        proof {
            Byte::lemma_decoded_bounds(data@.skip(n0 as int));
        }
        let n1 = n0 + k1;
        let (f_delta_y, k2) = match <Byte as Wire>::decode(tail(data, n1)) {
            Some(x) => x,
            None => {
                return None;
            },
        };
        proof {
            Byte::lemma_decoded_bounds(data@.skip(n1 as int));
        }
        let n2 = n1 + k2;
        let (f_delta_z, k3) = match <Byte as Wire>::decode(tail(data, n2)) {
            Some(x) => x,
            None => {
                return None;
            },
        };
        proof {
            Byte::lemma_decoded_bounds(data@.skip(n2 as int));
        }
        let n3 = n2 + k3;
        let (f_yaw, k4) = match <Angle as Wire>::decode(tail(data, n3)) {
            Some(x) => x,
            None => {
                return None;
            },
        };
        proof {
            Angle::lemma_decoded_bounds(data@.skip(n3 as int));
        }
        let n4 = n3 + k4;
        let (f_pitch, k5) = match <Angle as Wire>::decode(tail(data, n4)) {
            Some(x) => x,
            None => {
                return None;
            },
        };
        proof {
            Angle::lemma_decoded_bounds(data@.skip(n4 as int));
        }
        let n5 = n4 + k5;
        let (f_on_ground, k6) = match <Boolean as Wire>::decode(tail(data, n5)) {
            Some(x) => x,
            None => {
                return None;
            },
        };
        proof {
            Boolean::lemma_decoded_bounds(data@.skip(n5 as int));
        }
        let n6 = n5 + k6;
        Some(
            (
                EntityLookAndRelativeMove {
                    entity_id: f_entity_id,
                    delta_x: f_delta_x,
                    delta_y: f_delta_y,
                    delta_z: f_delta_z,
                    yaw: f_yaw,
                    pitch: f_pitch,
                    on_ground: f_on_ground,
                },
                n6,
            ),
        )
    }

    fn encode(&self, out: &mut Vec<u8>) {
        self.entity_id.encode(out);
        self.delta_x.encode(out);
        self.delta_y.encode(out);
        self.delta_z.encode(out);
        self.yaw.encode(out);
        self.pitch.encode(out);
        self.on_ground.encode(out);
        assert(out@ =~= old(out)@ + Self::wire(self@));
    }

    fn check(&self) -> (b: bool) {
        self.entity_id.check()
            && self.delta_x.check()
            && self.delta_y.check()
            && self.delta_z.check()
            && self.yaw.check()
            && self.pitch.check()
            && self.on_ground.check()
    }

    proof fn lemma_decoded_bounds(s: Seq<u8>) {
        let r0 = VarInt::decoded(s);
        VarInt::lemma_decoded_bounds(s);
        let n0 = taken(r0);
        let f_entity_id = read(r0);
        let r1 = Byte::decoded(s.skip(n0));
        Byte::lemma_decoded_bounds(s.skip(n0));
        let n1 = n0 + taken(r1);
        let f_delta_x = read(r1);
        let r2 = Byte::decoded(s.skip(n1));
        Byte::lemma_decoded_bounds(s.skip(n1));
        let n2 = n1 + taken(r2);
        let f_delta_y = read(r2);
        let r3 = Byte::decoded(s.skip(n2));
        Byte::lemma_decoded_bounds(s.skip(n2));
        let n3 = n2 + taken(r3);
        let f_delta_z = read(r3);
        let r4 = Angle::decoded(s.skip(n3));
        Angle::lemma_decoded_bounds(s.skip(n3));
        let n4 = n3 + taken(r4);
        let f_yaw = read(r4);
        let r5 = Angle::decoded(s.skip(n4));
        Angle::lemma_decoded_bounds(s.skip(n4));
        let n5 = n4 + taken(r5);
        let f_pitch = read(r5);
        let r6 = Boolean::decoded(s.skip(n5));
        Boolean::lemma_decoded_bounds(s.skip(n5));
        let n6 = n5 + taken(r6);
        let f_on_ground = read(r6);
    }

    proof fn lemma_decoded_wire(m: EntityLookAndRelativeMove, rest: Seq<u8>) {
        let s = Self::wire(m) + rest;
        let w0 = VarInt::wire(m.entity_id);
        let w1 = Byte::wire(m.delta_x);
        let w2 = Byte::wire(m.delta_y);
        let w3 = Byte::wire(m.delta_z);
        let w4 = Angle::wire(m.yaw);
        let w5 = Angle::wire(m.pitch);
        let w6 = Boolean::wire(m.on_ground);
        let p0 = w0;
        let p1 = p0 + w1;
        let p2 = p1 + w2;
        let p3 = p2 + w3;
        let p4 = p3 + w4;
        let p5 = p4 + w5;
        let p6 = p5 + w6;
        let t6 = rest;
        let t5 = w6 + t6;
        let t4 = w5 + t5;
        let t3 = w4 + t4;
        let t2 = w3 + t3;
        let t1 = w2 + t2;
        let t0 = w1 + t1;
        assert(s == p6 + t6);
        lemma_join(p5, w6, t6);
        lemma_join(p4, w5, t5);
        lemma_join(p3, w4, t4);
        lemma_join(p2, w3, t3);
        lemma_join(p1, w2, t2);
        lemma_join(p0, w1, t1);
        assert(s.skip(0) =~= s);
        let a0 = 0int;
        lemma_field_read::<VarInt>(s, a0, m.entity_id, t0);
        let a1 = a0 + w0.len();
        lemma_field_read::<Byte>(s, a1, m.delta_x, t1);
        let a2 = a1 + w1.len();
        lemma_field_read::<Byte>(s, a2, m.delta_y, t2);
        let a3 = a2 + w2.len();
        lemma_field_read::<Byte>(s, a3, m.delta_z, t3);
        let a4 = a3 + w3.len();
        lemma_field_read::<Angle>(s, a4, m.yaw, t4);
        let a5 = a4 + w4.len();
        lemma_field_read::<Angle>(s, a5, m.pitch, t5);
        let a6 = a5 + w5.len();
        lemma_field_read::<Boolean>(s, a6, m.on_ground, t6);
    }
}

impl ClientboundPacket for EntityLookAndRelativeMove {
    open spec fn listed() -> IDS {
        IDS::EntityLookAndRelativeMove
    }

    open spec fn parsed(s: Seq<u8>) -> Option<EntityLookAndRelativeMove> {
        match Self::decoded(s) {
            Some((m, _)) => Some(m),
            None => None,
        }
    }

    fn parse(data: &[u8]) -> (r: Result<Self, String>) {
        match Self::decode(data) {
            Some((p, _)) => Ok(p),
            None => Err(malformed("EntityLookAndRelativeMove")),
        }
    }

    fn id() -> (r: IDS) {
        IDS::EntityLookAndRelativeMove
    }
}

/// An entity has moved by four blocks or more.
#[derive(Debug, Clone, Copy, PartialEq, Eq, Structural)]
pub struct EntityTeleport {
    pub entity_id: VarInt,
    pub x: Int,
    pub y: Int,
    pub z: Int,
    pub yaw: Angle,
    pub pitch: Angle,
    pub on_ground: Boolean,
}

impl View for EntityTeleport {
    type V = EntityTeleport;

    open spec fn view(&self) -> EntityTeleport {
        *self
    }
}

impl EntityTeleport {
    /// A packet of the given fields.
    pub fn new(
        entity_id: VarInt,
        x: Int,
        y: Int,
        z: Int,
        yaw: Angle,
        pitch: Angle,
        on_ground: Boolean,
    ) -> (r: Self)
        ensures
            r == (EntityTeleport { entity_id, x, y, z, yaw, pitch, on_ground }),
    {
        EntityTeleport { entity_id, x, y, z, yaw, pitch, on_ground }
    }
}

impl Wire for EntityTeleport {
    open spec fn valid(m: EntityTeleport) -> bool {
        &&& VarInt::valid(m.entity_id)
        &&& Int::valid(m.x)
        &&& Int::valid(m.y)
        &&& Int::valid(m.z)
        &&& Angle::valid(m.yaw)
        &&& Angle::valid(m.pitch)
        &&& Boolean::valid(m.on_ground)
    }

    open spec fn wire(m: EntityTeleport) -> Seq<u8> {
        VarInt::wire(m.entity_id)
            + Int::wire(m.x)
            + Int::wire(m.y)
            + Int::wire(m.z)
            + Angle::wire(m.yaw)
            + Angle::wire(m.pitch)
            + Boolean::wire(m.on_ground)
    }

    open spec fn decoded(s: Seq<u8>) -> Option<(EntityTeleport, int)> {
        let r0 = VarInt::decoded(s);
        let n0 = taken(r0);
        let f_entity_id = read(r0);
        let r1 = Int::decoded(s.skip(n0));
        let n1 = n0 + taken(r1);
        let f_x = read(r1);
        let r2 = Int::decoded(s.skip(n1));
        let n2 = n1 + taken(r2);
        let f_y = read(r2);
        let r3 = Int::decoded(s.skip(n2));
        let n3 = n2 + taken(r3);
        let f_z = read(r3);
        let r4 = Angle::decoded(s.skip(n3));
        let n4 = n3 + taken(r4);
        let f_yaw = read(r4);
        let r5 = Angle::decoded(s.skip(n4));
        let n5 = n4 + taken(r5);
        let f_pitch = read(r5);
        let r6 = Boolean::decoded(s.skip(n5));
        let n6 = n5 + taken(r6);
        let f_on_ground = read(r6);
        if r0 is Some && r1 is Some && r2 is Some && r3 is Some && r4 is Some && r5 is Some
            && r6 is Some {
            Some(
                (
                    EntityTeleport {
                        entity_id: f_entity_id,
                        x: f_x,
                        y: f_y,
                        z: f_z,
                        yaw: f_yaw,
                        pitch: f_pitch,
                        on_ground: f_on_ground,
                    },
                    n6,
                ),
            )
        } else {
            None
        }
    }

    fn decode(data: &[u8]) -> (r: Option<(Self, usize)>) {
        let (f_entity_id, k0) = match <VarInt as Wire>::decode(data) {
            Some(x) => x,
            None => {
                return None;
            },
        };
        proof {
            VarInt::lemma_decoded_bounds(data@);
        }
        let n0 = k0;
        let (f_x, k1) = match <Int as Wire>::decode(tail(data, n0)) {
            Some(x) => x,
            None => {
                return None;
            },
        };
        proof {
            Int::lemma_decoded_bounds(data@.skip(n0 as int));
        }
        let n1 = n0 + k1;
        let (f_y, k2) = match <Int as Wire>::decode(tail(data, n1)) {
            Some(x) => x,
            None => {
                return None;
            },
        };
        proof {
            Int::lemma_decoded_bounds(data@.skip(n1 as int));
        }
        let n2 = n1 + k2;
        let (f_z, k3) = match <Int as Wire>::decode(tail(data, n2)) {
            Some(x) => x,
            None => {
                return None;
            },
        };
        proof {
            Int::lemma_decoded_bounds(data@.skip(n2 as int));
        }
        let n3 = n2 + k3;
        let (f_yaw, k4) = match <Angle as Wire>::decode(tail(data, n3)) {
            Some(x) => x,
            None => {
                return None;
            },
        };
        proof {
            Angle::lemma_decoded_bounds(data@.skip(n3 as int));
        }
        let n4 = n3 + k4;
        let (f_pitch, k5) = match <Angle as Wire>::decode(tail(data, n4)) {
            Some(x) => x,
            None => {
                return None;
            },
        };
        proof {
            Angle::lemma_decoded_bounds(data@.skip(n4 as int));
        }
        let n5 = n4 + k5;
        let (f_on_ground, k6) = match <Boolean as Wire>::decode(tail(data, n5)) {
            Some(x) => x,
            None => {
                return None;
            },
        };
        proof {
            Boolean::lemma_decoded_bounds(data@.skip(n5 as int));
        }
        let n6 = n5 + k6;
        Some(
            (
                EntityTeleport {
                    entity_id: f_entity_id,
                    x: f_x,
                    y: f_y,
                    z: f_z,
                    yaw: f_yaw,
                    pitch: f_pitch,
                    on_ground: f_on_ground,
                },
                n6,
            ),
        )
    }

    fn encode(&self, out: &mut Vec<u8>) {
        self.entity_id.encode(out);
        self.x.encode(out);
        self.y.encode(out);
        self.z.encode(out);
        self.yaw.encode(out);
        self.pitch.encode(out);
        self.on_ground.encode(out);
        assert(out@ =~= old(out)@ + Self::wire(self@));
    }

    fn check(&self) -> (b: bool) {
        self.entity_id.check()
            && self.x.check()
            && self.y.check()
            && self.z.check()
            && self.yaw.check()
            && self.pitch.check()
            && self.on_ground.check()
    }

    proof fn lemma_decoded_bounds(s: Seq<u8>) {
        let r0 = VarInt::decoded(s);
        VarInt::lemma_decoded_bounds(s);
        let n0 = taken(r0);
        let f_entity_id = read(r0);
        let r1 = Int::decoded(s.skip(n0));
        Int::lemma_decoded_bounds(s.skip(n0));
        let n1 = n0 + taken(r1);
        let f_x = read(r1);
        let r2 = Int::decoded(s.skip(n1));
        Int::lemma_decoded_bounds(s.skip(n1));
        let n2 = n1 + taken(r2);
        let f_y = read(r2);
        let r3 = Int::decoded(s.skip(n2));
        Int::lemma_decoded_bounds(s.skip(n2));
        let n3 = n2 + taken(r3);
        let f_z = read(r3);
        let r4 = Angle::decoded(s.skip(n3));
        Angle::lemma_decoded_bounds(s.skip(n3));
        let n4 = n3 + taken(r4);
        let f_yaw = read(r4);
        let r5 = Angle::decoded(s.skip(n4));
        Angle::lemma_decoded_bounds(s.skip(n4));
        let n5 = n4 + taken(r5);
        let f_pitch = read(r5);
        let r6 = Boolean::decoded(s.skip(n5));
        Boolean::lemma_decoded_bounds(s.skip(n5));
        let n6 = n5 + taken(r6);
        let f_on_ground = read(r6);
    }

    proof fn lemma_decoded_wire(m: EntityTeleport, rest: Seq<u8>) {
        let s = Self::wire(m) + rest;
        let w0 = VarInt::wire(m.entity_id);
        let w1 = Int::wire(m.x);
        let w2 = Int::wire(m.y);
        let w3 = Int::wire(m.z);
        let w4 = Angle::wire(m.yaw);
        let w5 = Angle::wire(m.pitch);
        let w6 = Boolean::wire(m.on_ground);
        let p0 = w0;
        let p1 = p0 + w1;
        let p2 = p1 + w2;
        let p3 = p2 + w3;
        let p4 = p3 + w4;
        let p5 = p4 + w5;
        let p6 = p5 + w6;
        let t6 = rest;
        let t5 = w6 + t6;
        let t4 = w5 + t5;
        let t3 = w4 + t4;
        let t2 = w3 + t3;
        let t1 = w2 + t2;
        let t0 = w1 + t1;
        assert(s == p6 + t6);
        lemma_join(p5, w6, t6);
        lemma_join(p4, w5, t5);
        lemma_join(p3, w4, t4);
        lemma_join(p2, w3, t3);
        lemma_join(p1, w2, t2);
        lemma_join(p0, w1, t1);
        assert(s.skip(0) =~= s);
        let a0 = 0int;
        lemma_field_read::<VarInt>(s, a0, m.entity_id, t0);
        let a1 = a0 + w0.len();
        lemma_field_read::<Int>(s, a1, m.x, t1);
        let a2 = a1 + w1.len();
        lemma_field_read::<Int>(s, a2, m.y, t2);
        let a3 = a2 + w2.len();
        lemma_field_read::<Int>(s, a3, m.z, t3);
        let a4 = a3 + w3.len();
        lemma_field_read::<Angle>(s, a4, m.yaw, t4);
        let a5 = a4 + w4.len();
        lemma_field_read::<Angle>(s, a5, m.pitch, t5);
        let a6 = a5 + w5.len();
        lemma_field_read::<Boolean>(s, a6, m.on_ground, t6);
    }
}

impl ClientboundPacket for EntityTeleport {
    open spec fn listed() -> IDS {
        IDS::EntityTeleport
    }

    open spec fn parsed(s: Seq<u8>) -> Option<EntityTeleport> {
        match Self::decoded(s) {
            Some((m, _)) => Some(m),
            None => None,
        }
    }

    fn parse(data: &[u8]) -> (r: Result<Self, String>) {
        match Self::decode(data) {
            Some((p, _)) => Ok(p),
            None => Err(malformed("EntityTeleport")),
        }
    }

    fn id() -> (r: IDS) {
        IDS::EntityTeleport
    }
}

/// An entity has turned its head.
#[derive(Debug, Clone, Copy, PartialEq, Eq, Structural)]
pub struct EntityHeadLook {
    pub entity_id: VarInt,
    pub head_yaw: Angle,
}

impl View for EntityHeadLook {
    type V = EntityHeadLook;

    open spec fn view(&self) -> EntityHeadLook {
        *self
    }
}

impl EntityHeadLook {
    /// A packet of the given fields.
    pub fn new(entity_id: VarInt, head_yaw: Angle) -> (r: Self)
        ensures
            r == (EntityHeadLook { entity_id, head_yaw }),
    {
        EntityHeadLook { entity_id, head_yaw }
    }
}

impl Wire for EntityHeadLook {
    open spec fn valid(m: EntityHeadLook) -> bool {
        &&& VarInt::valid(m.entity_id)
        &&& Angle::valid(m.head_yaw)
    }

    open spec fn wire(m: EntityHeadLook) -> Seq<u8> {
        VarInt::wire(m.entity_id)
            + Angle::wire(m.head_yaw)
    }

    open spec fn decoded(s: Seq<u8>) -> Option<(EntityHeadLook, int)> {
        let r0 = VarInt::decoded(s);
        let n0 = taken(r0);
        let f_entity_id = read(r0);
        let r1 = Angle::decoded(s.skip(n0));
        let n1 = n0 + taken(r1);
        let f_head_yaw = read(r1);
        if r0 is Some && r1 is Some {
            Some((EntityHeadLook { entity_id: f_entity_id, head_yaw: f_head_yaw }, n1))
        } else {
            None
        }
    }

    fn decode(data: &[u8]) -> (r: Option<(Self, usize)>) {
        let (f_entity_id, k0) = match <VarInt as Wire>::decode(data) {
            Some(x) => x,
            None => {
                return None;
            },
        };
        proof {
            VarInt::lemma_decoded_bounds(data@);
        }
        let n0 = k0;
        let (f_head_yaw, k1) = match <Angle as Wire>::decode(tail(data, n0)) {
            Some(x) => x,
            None => {
                return None;
            },
        };
        proof {
            Angle::lemma_decoded_bounds(data@.skip(n0 as int));
        }
        let n1 = n0 + k1;
        Some((EntityHeadLook { entity_id: f_entity_id, head_yaw: f_head_yaw }, n1))
    }

    fn encode(&self, out: &mut Vec<u8>) {
        self.entity_id.encode(out);
        self.head_yaw.encode(out);
        assert(out@ =~= old(out)@ + Self::wire(self@));
    }

    fn check(&self) -> (b: bool) {
        self.entity_id.check()
            && self.head_yaw.check()
    }

    proof fn lemma_decoded_bounds(s: Seq<u8>) {
        let r0 = VarInt::decoded(s);
        VarInt::lemma_decoded_bounds(s);
        let n0 = taken(r0);
        let f_entity_id = read(r0);
        let r1 = Angle::decoded(s.skip(n0));
        Angle::lemma_decoded_bounds(s.skip(n0));
        let n1 = n0 + taken(r1);
        let f_head_yaw = read(r1);
    }

    proof fn lemma_decoded_wire(m: EntityHeadLook, rest: Seq<u8>) {
        let s = Self::wire(m) + rest;
        let w0 = VarInt::wire(m.entity_id);
        let w1 = Angle::wire(m.head_yaw);
        let p0 = w0;
        let p1 = p0 + w1;
        let t1 = rest;
        let t0 = w1 + t1;
        assert(s == p1 + t1);
        lemma_join(p0, w1, t1);
        assert(s.skip(0) =~= s);
        let a0 = 0int;
        lemma_field_read::<VarInt>(s, a0, m.entity_id, t0);
        let a1 = a0 + w0.len();
        lemma_field_read::<Angle>(s, a1, m.head_yaw, t1);
    }
}

impl ClientboundPacket for EntityHeadLook {
    open spec fn listed() -> IDS {
        IDS::EntityHeadLook
    }

    open spec fn parsed(s: Seq<u8>) -> Option<EntityHeadLook> {
        match Self::decoded(s) {
            Some((m, _)) => Some(m),
            None => None,
        }
    }

    fn parse(data: &[u8]) -> (r: Result<Self, String>) {
        match Self::decode(data) {
            Some((p, _)) => Ok(p),
            None => Err(malformed("EntityHeadLook")),
        }
    }

    fn id() -> (r: IDS) {
        IDS::EntityHeadLook
    }
}

/// Something has happened to an entity.
#[derive(Debug, Clone, Copy, PartialEq, Eq, Structural)]
pub struct EntityStatus {
    pub entity_id: Int,
    pub entity_status: Byte,
}

impl View for EntityStatus {
    type V = EntityStatus;

    open spec fn view(&self) -> EntityStatus {
        *self
    }
}

impl EntityStatus {
    /// A packet of the given fields.
    pub fn new(entity_id: Int, entity_status: Byte) -> (r: Self)
        ensures
            r == (EntityStatus { entity_id, entity_status }),
    {
        EntityStatus { entity_id, entity_status }
    }
}

impl Wire for EntityStatus {
    open spec fn valid(m: EntityStatus) -> bool {
        &&& Int::valid(m.entity_id)
        &&& Byte::valid(m.entity_status)
    }

    open spec fn wire(m: EntityStatus) -> Seq<u8> {
        Int::wire(m.entity_id)
            + Byte::wire(m.entity_status)
    }

    open spec fn decoded(s: Seq<u8>) -> Option<(EntityStatus, int)> {
        let r0 = Int::decoded(s);
        let n0 = taken(r0);
        let f_entity_id = read(r0);
        let r1 = Byte::decoded(s.skip(n0));
        let n1 = n0 + taken(r1);
        let f_entity_status = read(r1);
        if r0 is Some && r1 is Some {
            Some((EntityStatus { entity_id: f_entity_id, entity_status: f_entity_status }, n1))
        } else {
            None
        }
    }

    fn decode(data: &[u8]) -> (r: Option<(Self, usize)>) {
        let (f_entity_id, k0) = match <Int as Wire>::decode(data) {
            Some(x) => x,
            None => {
                return None;
            },
        };
        proof {
            Int::lemma_decoded_bounds(data@);
        }
        let n0 = k0;
        let (f_entity_status, k1) = match <Byte as Wire>::decode(tail(data, n0)) {
            Some(x) => x,
            None => {
                return None;
            },
        };
        proof {
            Byte::lemma_decoded_bounds(data@.skip(n0 as int));
        }
        let n1 = n0 + k1;
        Some((EntityStatus { entity_id: f_entity_id, entity_status: f_entity_status }, n1))
    }

    fn encode(&self, out: &mut Vec<u8>) {
        self.entity_id.encode(out);
        self.entity_status.encode(out);
        assert(out@ =~= old(out)@ + Self::wire(self@));
    }

    fn check(&self) -> (b: bool) {
        self.entity_id.check()
            && self.entity_status.check()
    }

    proof fn lemma_decoded_bounds(s: Seq<u8>) {
        let r0 = Int::decoded(s);
        Int::lemma_decoded_bounds(s);
        let n0 = taken(r0);
        let f_entity_id = read(r0);
        let r1 = Byte::decoded(s.skip(n0));
        Byte::lemma_decoded_bounds(s.skip(n0));
        let n1 = n0 + taken(r1);
        let f_entity_status = read(r1);
    }

    proof fn lemma_decoded_wire(m: EntityStatus, rest: Seq<u8>) {
        let s = Self::wire(m) + rest;
        let w0 = Int::wire(m.entity_id);
        let w1 = Byte::wire(m.entity_status);
        let p0 = w0;
        let p1 = p0 + w1;
        let t1 = rest;
        let t0 = w1 + t1;
        assert(s == p1 + t1);
        lemma_join(p0, w1, t1);
        assert(s.skip(0) =~= s);
        let a0 = 0int;
        lemma_field_read::<Int>(s, a0, m.entity_id, t0);
        let a1 = a0 + w0.len();
        lemma_field_read::<Byte>(s, a1, m.entity_status, t1);
    }
}

impl ClientboundPacket for EntityStatus {
    open spec fn listed() -> IDS {
        IDS::EntityStatus
    }

    open spec fn parsed(s: Seq<u8>) -> Option<EntityStatus> {
        match Self::decoded(s) {
            Some((m, _)) => Some(m),
            None => None,
        }
    }

    fn parse(data: &[u8]) -> (r: Result<Self, String>) {
        match Self::decode(data) {
            Some((p, _)) => Ok(p),
            None => Err(malformed("EntityStatus")),
        }
    }

    fn id() -> (r: IDS) {
        IDS::EntityStatus
    }
}

/// An entity has mounted another or has been leashed to it.
#[derive(Debug, Clone, Copy, PartialEq, Eq, Structural)]
pub struct AttachEntity {
    pub entity_id: Int,
    pub vehicle_id: Int,
    pub leash: Boolean,
}

impl View for AttachEntity {
    type V = AttachEntity;

    open spec fn view(&self) -> AttachEntity {
        *self
    }
}

impl AttachEntity {
    /// A packet of the given fields.
    pub fn new(entity_id: Int, vehicle_id: Int, leash: Boolean) -> (r: Self)
        ensures
            r == (AttachEntity { entity_id, vehicle_id, leash }),
    {
        AttachEntity { entity_id, vehicle_id, leash }
    }
}

impl Wire for AttachEntity {
    open spec fn valid(m: AttachEntity) -> bool {
        &&& Int::valid(m.entity_id)
        &&& Int::valid(m.vehicle_id)
        &&& Boolean::valid(m.leash)
    }

    open spec fn wire(m: AttachEntity) -> Seq<u8> {
        Int::wire(m.entity_id)
            + Int::wire(m.vehicle_id)
            + Boolean::wire(m.leash)
    }

    open spec fn decoded(s: Seq<u8>) -> Option<(AttachEntity, int)> {
        let r0 = Int::decoded(s);
        let n0 = taken(r0);
        let f_entity_id = read(r0);
        let r1 = Int::decoded(s.skip(n0));
        let n1 = n0 + taken(r1);
        let f_vehicle_id = read(r1);
        let r2 = Boolean::decoded(s.skip(n1));
        let n2 = n1 + taken(r2);
        let f_leash = read(r2);
        if r0 is Some && r1 is Some && r2 is Some {
            Some(
                (
                    AttachEntity {
                        entity_id: f_entity_id,
                        vehicle_id: f_vehicle_id,
                        leash: f_leash,
                    },
                    n2,
                ),
            )
        } else {
            None
        }
    }

    fn decode(data: &[u8]) -> (r: Option<(Self, usize)>) {
        let (f_entity_id, k0) = match <Int as Wire>::decode(data) {
            Some(x) => x,
            None => {
                return None;
            },
        };
        proof {
            Int::lemma_decoded_bounds(data@);
        }
        let n0 = k0;
        let (f_vehicle_id, k1) = match <Int as Wire>::decode(tail(data, n0)) {
            Some(x) => x,
            None => {
                return None;
            },
        };
        proof {
            Int::lemma_decoded_bounds(data@.skip(n0 as int));
        }
        let n1 = n0 + k1;
        let (f_leash, k2) = match <Boolean as Wire>::decode(tail(data, n1)) {
            Some(x) => x,
            None => {
                return None;
            },
        };
        proof {
            Boolean::lemma_decoded_bounds(data@.skip(n1 as int));
        }
        let n2 = n1 + k2;
        Some(
            (
                AttachEntity {
                    entity_id: f_entity_id,
                    vehicle_id: f_vehicle_id,
                    leash: f_leash,
                },
                n2,
            ),
        )
    }

    fn encode(&self, out: &mut Vec<u8>) {
        self.entity_id.encode(out);
        self.vehicle_id.encode(out);
        self.leash.encode(out);
        assert(out@ =~= old(out)@ + Self::wire(self@));
    }

    fn check(&self) -> (b: bool) {
        self.entity_id.check()
            && self.vehicle_id.check()
            && self.leash.check()
    }

    proof fn lemma_decoded_bounds(s: Seq<u8>) {
        let r0 = Int::decoded(s);
        Int::lemma_decoded_bounds(s);
        let n0 = taken(r0);
        let f_entity_id = read(r0);
        let r1 = Int::decoded(s.skip(n0));
        Int::lemma_decoded_bounds(s.skip(n0));
        let n1 = n0 + taken(r1);
        let f_vehicle_id = read(r1);
        let r2 = Boolean::decoded(s.skip(n1));
        Boolean::lemma_decoded_bounds(s.skip(n1));
        let n2 = n1 + taken(r2);
        let f_leash = read(r2);
    }

    proof fn lemma_decoded_wire(m: AttachEntity, rest: Seq<u8>) {
        let s = Self::wire(m) + rest;
        let w0 = Int::wire(m.entity_id);
        let w1 = Int::wire(m.vehicle_id);
        let w2 = Boolean::wire(m.leash);
        let p0 = w0;
        let p1 = p0 + w1;
        let p2 = p1 + w2;
        let t2 = rest;
        let t1 = w2 + t2;
        let t0 = w1 + t1;
        assert(s == p2 + t2);
        lemma_join(p1, w2, t2);
        lemma_join(p0, w1, t1);
        assert(s.skip(0) =~= s);
        let a0 = 0int;
        lemma_field_read::<Int>(s, a0, m.entity_id, t0);
        let a1 = a0 + w0.len();
        lemma_field_read::<Int>(s, a1, m.vehicle_id, t1);
        let a2 = a1 + w1.len();
        lemma_field_read::<Boolean>(s, a2, m.leash, t2);
    }
}

impl ClientboundPacket for AttachEntity {
    open spec fn listed() -> IDS {
        IDS::AttachEntity
    }

    open spec fn parsed(s: Seq<u8>) -> Option<AttachEntity> {
        match Self::decoded(s) {
            Some((m, _)) => Some(m),
            None => None,
        }
    }

    fn parse(data: &[u8]) -> (r: Result<Self, String>) {
        match Self::decode(data) {
            Some((p, _)) => Ok(p),
            None => Err(malformed("AttachEntity")),
        }
    }

    fn id() -> (r: IDS) {
        IDS::AttachEntity
    }
}

/// The metadata of an entity has changed.
#[derive(Debug, Clone, PartialEq, Eq)]
pub struct EntityMetadataPacket {
    pub entity_id: VarInt,
    pub metadata: EntityMetadata,
}

/// What a `EntityMetadataPacket` holds.
pub struct EntityMetadataPacketModel {
    pub entity_id: VarInt,
    pub metadata: Seq<MetadataEntryModel>,
}

impl View for EntityMetadataPacket {
    type V = EntityMetadataPacketModel;

    open spec fn view(&self) -> EntityMetadataPacketModel {
        EntityMetadataPacketModel {
            entity_id: self.entity_id@,
            metadata: self.metadata@,
        }
    }
}

impl EntityMetadataPacket {
    /// A packet of the given fields.
    pub fn new(entity_id: VarInt, metadata: EntityMetadata) -> (r: Self)
        ensures
            r == (EntityMetadataPacket { entity_id, metadata }),
    {
        EntityMetadataPacket { entity_id, metadata }
    }
}

impl Wire for EntityMetadataPacket {
    open spec fn valid(m: EntityMetadataPacketModel) -> bool {
        &&& VarInt::valid(m.entity_id)
        &&& EntityMetadata::valid(m.metadata)
    }

    open spec fn wire(m: EntityMetadataPacketModel) -> Seq<u8> {
        VarInt::wire(m.entity_id)
            + EntityMetadata::wire(m.metadata)
    }

    open spec fn decoded(s: Seq<u8>) -> Option<(EntityMetadataPacketModel, int)> {
        let r0 = VarInt::decoded(s);
        let n0 = taken(r0);
        let f_entity_id = read(r0);
        let r1 = EntityMetadata::decoded(s.skip(n0));
        let n1 = n0 + taken(r1);
        let f_metadata = read(r1);
        if r0 is Some && r1 is Some {
            Some((EntityMetadataPacketModel { entity_id: f_entity_id, metadata: f_metadata }, n1))
        } else {
            None
        }
    }

    fn decode(data: &[u8]) -> (r: Option<(Self, usize)>) {
        let (f_entity_id, k0) = match <VarInt as Wire>::decode(data) {
            Some(x) => x,
            None => {
                return None;
            },
        };
        proof {
            VarInt::lemma_decoded_bounds(data@);
        }
        let n0 = k0;
        let (f_metadata, k1) = match <EntityMetadata as Wire>::decode(tail(data, n0)) {
            Some(x) => x,
            None => {
                return None;
            },
        };
        proof {
            EntityMetadata::lemma_decoded_bounds(data@.skip(n0 as int));
        }
        let n1 = n0 + k1;
        Some((EntityMetadataPacket { entity_id: f_entity_id, metadata: f_metadata }, n1))
    }

    fn encode(&self, out: &mut Vec<u8>) {
        self.entity_id.encode(out);
        self.metadata.encode(out);
        assert(out@ =~= old(out)@ + Self::wire(self@));
    }

    fn check(&self) -> (b: bool) {
        self.entity_id.check()
            && self.metadata.check()
    }

    proof fn lemma_decoded_bounds(s: Seq<u8>) {
        let r0 = VarInt::decoded(s);
        VarInt::lemma_decoded_bounds(s);
        let n0 = taken(r0);
        let f_entity_id = read(r0);
        let r1 = EntityMetadata::decoded(s.skip(n0));
        EntityMetadata::lemma_decoded_bounds(s.skip(n0));
        let n1 = n0 + taken(r1);
        let f_metadata = read(r1);
    }

    proof fn lemma_decoded_wire(m: EntityMetadataPacketModel, rest: Seq<u8>) {
        let s = Self::wire(m) + rest;
        let w0 = VarInt::wire(m.entity_id);
        let w1 = EntityMetadata::wire(m.metadata);
        let p0 = w0;
        let p1 = p0 + w1;
        let t1 = rest;
        let t0 = w1 + t1;
        assert(s == p1 + t1);
        lemma_join(p0, w1, t1);
        assert(s.skip(0) =~= s);
        let a0 = 0int;
        lemma_field_read::<VarInt>(s, a0, m.entity_id, t0);
        let a1 = a0 + w0.len();
        lemma_field_read::<EntityMetadata>(s, a1, m.metadata, t1);
    }
}

impl ClientboundPacket for EntityMetadataPacket {
    open spec fn listed() -> IDS {
        IDS::EntityMetadata
    }

    open spec fn parsed(s: Seq<u8>) -> Option<EntityMetadataPacketModel> {
        match Self::decoded(s) {
            Some((m, _)) => Some(m),
            None => None,
        }
    }

    fn parse(data: &[u8]) -> (r: Result<Self, String>) {
        match Self::decode(data) {
            Some((p, _)) => Ok(p),
            None => Err(malformed("EntityMetadataPacket")),
        }
    }

    fn id() -> (r: IDS) {
        IDS::EntityMetadata
    }
}

/// An effect has begun to act on an entity.
#[derive(Debug, Clone, Copy, PartialEq, Eq, Structural)]
pub struct EntityEffect {
    pub entity_id: VarInt,
    pub effect_id: Byte,
    pub amplifier: Byte,
    pub duration: VarInt,
    pub hide_particles: Boolean,
}

impl View for EntityEffect {
    type V = EntityEffect;

    open spec fn view(&self) -> EntityEffect {
        *self
    }
}

impl EntityEffect {
    /// A packet of the given fields.
    pub fn new(
        entity_id: VarInt,
        effect_id: Byte,
        amplifier: Byte,
        duration: VarInt,
        hide_particles: Boolean,
    ) -> (r: Self)
        ensures
            r == (EntityEffect { entity_id, effect_id, amplifier, duration, hide_particles }),
    {
        EntityEffect { entity_id, effect_id, amplifier, duration, hide_particles }
    }
}

impl Wire for EntityEffect {
    open spec fn valid(m: EntityEffect) -> bool {
        &&& VarInt::valid(m.entity_id)
        &&& Byte::valid(m.effect_id)
        &&& Byte::valid(m.amplifier)
        &&& VarInt::valid(m.duration)
        &&& Boolean::valid(m.hide_particles)
    }

    open spec fn wire(m: EntityEffect) -> Seq<u8> {
        VarInt::wire(m.entity_id)
            + Byte::wire(m.effect_id)
            + Byte::wire(m.amplifier)
            + VarInt::wire(m.duration)
            + Boolean::wire(m.hide_particles)
    }

    open spec fn decoded(s: Seq<u8>) -> Option<(EntityEffect, int)> {
        let r0 = VarInt::decoded(s);
        let n0 = taken(r0);
        let f_entity_id = read(r0);
        let r1 = Byte::decoded(s.skip(n0));
        let n1 = n0 + taken(r1);
        let f_effect_id = read(r1);
        let r2 = Byte::decoded(s.skip(n1));
        let n2 = n1 + taken(r2);
        let f_amplifier = read(r2);
        let r3 = VarInt::decoded(s.skip(n2));
        let n3 = n2 + taken(r3);
        let f_duration = read(r3);
        let r4 = Boolean::decoded(s.skip(n3));
        let n4 = n3 + taken(r4);
        let f_hide_particles = read(r4);
        if r0 is Some && r1 is Some && r2 is Some && r3 is Some && r4 is Some {
            Some(
                (
                    EntityEffect {
                        entity_id: f_entity_id,
                        effect_id: f_effect_id,
                        amplifier: f_amplifier,
                        duration: f_duration,
                        hide_particles: f_hide_particles,
                    },
                    n4,
                ),
            )
        } else {
            None
        }
    }

    fn decode(data: &[u8]) -> (r: Option<(Self, usize)>) {
        let (f_entity_id, k0) = match <VarInt as Wire>::decode(data) {
            Some(x) => x,
            None => {
                return None;
            },
        };
        proof {
            VarInt::lemma_decoded_bounds(data@);
        }
        let n0 = k0;
        let (f_effect_id, k1) = match <Byte as Wire>::decode(tail(data, n0)) {
            Some(x) => x,
            None => {
                return None;
            },
        };
        proof {
            Byte::lemma_decoded_bounds(data@.skip(n0 as int));
        }
        let n1 = n0 + k1;
        let (f_amplifier, k2) = match <Byte as Wire>::decode(tail(data, n1)) {
            Some(x) => x,
            None => {
                return None;
            },
        };
        proof {
            Byte::lemma_decoded_bounds(data@.skip(n1 as int));
        }
        let n2 = n1 + k2;
        let (f_duration, k3) = match <VarInt as Wire>::decode(tail(data, n2)) {
            Some(x) => x,
            None => {
                return None;
            },
        };
        proof {
            VarInt::lemma_decoded_bounds(data@.skip(n2 as int));
        }
        let n3 = n2 + k3;
        let (f_hide_particles, k4) = match <Boolean as Wire>::decode(tail(data, n3)) {
            Some(x) => x,
            None => {
                return None;
            },
        };
        proof {
            Boolean::lemma_decoded_bounds(data@.skip(n3 as int));
        }
        let n4 = n3 + k4;
        Some(
            (
                EntityEffect {
                    entity_id: f_entity_id,
                    effect_id: f_effect_id,
                    amplifier: f_amplifier,
                    duration: f_duration,
                    hide_particles: f_hide_particles,
                },
                n4,
            ),
        )
    }

    fn encode(&self, out: &mut Vec<u8>) {
        self.entity_id.encode(out);
        self.effect_id.encode(out);
        self.amplifier.encode(out);
        self.duration.encode(out);
        self.hide_particles.encode(out);
        assert(out@ =~= old(out)@ + Self::wire(self@));
    }

    fn check(&self) -> (b: bool) {
        self.entity_id.check()
            && self.effect_id.check()
            && self.amplifier.check()
            && self.duration.check()
            && self.hide_particles.check()
    }

    proof fn lemma_decoded_bounds(s: Seq<u8>) {
        let r0 = VarInt::decoded(s);
        VarInt::lemma_decoded_bounds(s);
        let n0 = taken(r0);
        let f_entity_id = read(r0);
        let r1 = Byte::decoded(s.skip(n0));
        Byte::lemma_decoded_bounds(s.skip(n0));
        let n1 = n0 + taken(r1);
        let f_effect_id = read(r1);
        let r2 = Byte::decoded(s.skip(n1));
        Byte::lemma_decoded_bounds(s.skip(n1));
        let n2 = n1 + taken(r2);
        let f_amplifier = read(r2);
        let r3 = VarInt::decoded(s.skip(n2));
        VarInt::lemma_decoded_bounds(s.skip(n2));
        let n3 = n2 + taken(r3);
        let f_duration = read(r3);
        let r4 = Boolean::decoded(s.skip(n3));
        Boolean::lemma_decoded_bounds(s.skip(n3));
        let n4 = n3 + taken(r4);
        let f_hide_particles = read(r4);
    }

    proof fn lemma_decoded_wire(m: EntityEffect, rest: Seq<u8>) {
        let s = Self::wire(m) + rest;
        let w0 = VarInt::wire(m.entity_id);
        let w1 = Byte::wire(m.effect_id);
        let w2 = Byte::wire(m.amplifier);
        let w3 = VarInt::wire(m.duration);
        let w4 = Boolean::wire(m.hide_particles);
        let p0 = w0;
        let p1 = p0 + w1;
        let p2 = p1 + w2;
        let p3 = p2 + w3;
        let p4 = p3 + w4;
        let t4 = rest;
        let t3 = w4 + t4;
        let t2 = w3 + t3;
        let t1 = w2 + t2;
        let t0 = w1 + t1;
        assert(s == p4 + t4);
        lemma_join(p3, w4, t4);
        lemma_join(p2, w3, t3);
        lemma_join(p1, w2, t2);
        lemma_join(p0, w1, t1);
        assert(s.skip(0) =~= s);
        let a0 = 0int;
        lemma_field_read::<VarInt>(s, a0, m.entity_id, t0);
        let a1 = a0 + w0.len();
        lemma_field_read::<Byte>(s, a1, m.effect_id, t1);
        let a2 = a1 + w1.len();
        lemma_field_read::<Byte>(s, a2, m.amplifier, t2);
        let a3 = a2 + w2.len();
        lemma_field_read::<VarInt>(s, a3, m.duration, t3);
        let a4 = a3 + w3.len();
        lemma_field_read::<Boolean>(s, a4, m.hide_particles, t4);
    }
}

impl ClientboundPacket for EntityEffect {
    open spec fn listed() -> IDS {
        IDS::EntityEffect
    }

    open spec fn parsed(s: Seq<u8>) -> Option<EntityEffect> {
        match Self::decoded(s) {
            Some((m, _)) => Some(m),
            None => None,
        }
    }

    fn parse(data: &[u8]) -> (r: Result<Self, String>) {
        match Self::decode(data) {
            Some((p, _)) => Ok(p),
            None => Err(malformed("EntityEffect")),
        }
    }

    fn id() -> (r: IDS) {
        IDS::EntityEffect
    }
}

/// An effect has ceased to act on an entity.
#[derive(Debug, Clone, Copy, PartialEq, Eq, Structural)]
pub struct RemoveEntityEffect {
    pub entity_id: VarInt,
    pub effect_id: Byte,
}

impl View for RemoveEntityEffect {
    type V = RemoveEntityEffect;

    open spec fn view(&self) -> RemoveEntityEffect {
        *self
    }
}

impl RemoveEntityEffect {
    /// A packet of the given fields.
    pub fn new(entity_id: VarInt, effect_id: Byte) -> (r: Self)
        ensures
            r == (RemoveEntityEffect { entity_id, effect_id }),
    {
        RemoveEntityEffect { entity_id, effect_id }
    }
}

impl Wire for RemoveEntityEffect {
    open spec fn valid(m: RemoveEntityEffect) -> bool {
        &&& VarInt::valid(m.entity_id)
        &&& Byte::valid(m.effect_id)
    }

    open spec fn wire(m: RemoveEntityEffect) -> Seq<u8> {
        VarInt::wire(m.entity_id)
            + Byte::wire(m.effect_id)
    }

    open spec fn decoded(s: Seq<u8>) -> Option<(RemoveEntityEffect, int)> {
        let r0 = VarInt::decoded(s);
        let n0 = taken(r0);
        let f_entity_id = read(r0);
        let r1 = Byte::decoded(s.skip(n0));
        let n1 = n0 + taken(r1);
        let f_effect_id = read(r1);
        if r0 is Some && r1 is Some {
            Some((RemoveEntityEffect { entity_id: f_entity_id, effect_id: f_effect_id }, n1))
        } else {
            None
        }
    }

    fn decode(data: &[u8]) -> (r: Option<(Self, usize)>) {
        let (f_entity_id, k0) = match <VarInt as Wire>::decode(data) {
            Some(x) => x,
            None => {
                return None;
            },
        };
        proof {
            VarInt::lemma_decoded_bounds(data@);
        }
        let n0 = k0;
        let (f_effect_id, k1) = match <Byte as Wire>::decode(tail(data, n0)) {
            Some(x) => x,
            None => {
                return None;
            },
        };
        proof {
            Byte::lemma_decoded_bounds(data@.skip(n0 as int));
        }
        let n1 = n0 + k1;
        Some((RemoveEntityEffect { entity_id: f_entity_id, effect_id: f_effect_id }, n1))
    }

    fn encode(&self, out: &mut Vec<u8>) {
        self.entity_id.encode(out);
        self.effect_id.encode(out);
        assert(out@ =~= old(out)@ + Self::wire(self@));
    }

    fn check(&self) -> (b: bool) {
        self.entity_id.check()
            && self.effect_id.check()
    }

    proof fn lemma_decoded_bounds(s: Seq<u8>) {
        let r0 = VarInt::decoded(s);
        VarInt::lemma_decoded_bounds(s);
        let n0 = taken(r0);
        let f_entity_id = read(r0);
        let r1 = Byte::decoded(s.skip(n0));
        Byte::lemma_decoded_bounds(s.skip(n0));
        let n1 = n0 + taken(r1);
        let f_effect_id = read(r1);
    }

    proof fn lemma_decoded_wire(m: RemoveEntityEffect, rest: Seq<u8>) {
        let s = Self::wire(m) + rest;
        let w0 = VarInt::wire(m.entity_id);
        let w1 = Byte::wire(m.effect_id);
        let p0 = w0;
        let p1 = p0 + w1;
        let t1 = rest;
        let t0 = w1 + t1;
        assert(s == p1 + t1);
        lemma_join(p0, w1, t1);
        assert(s.skip(0) =~= s);
        let a0 = 0int;
        lemma_field_read::<VarInt>(s, a0, m.entity_id, t0);
        let a1 = a0 + w0.len();
        lemma_field_read::<Byte>(s, a1, m.effect_id, t1);
    }
}

impl ClientboundPacket for RemoveEntityEffect {
    open spec fn listed() -> IDS {
        IDS::RemoveEntityEffect
    }

    open spec fn parsed(s: Seq<u8>) -> Option<RemoveEntityEffect> {
        match Self::decoded(s) {
            Some((m, _)) => Some(m),
            None => None,
        }
    }

    fn parse(data: &[u8]) -> (r: Result<Self, String>) {
        match Self::decode(data) {
            Some((p, _)) => Ok(p),
            None => Err(malformed("RemoveEntityEffect")),
        }
    }

    fn id() -> (r: IDS) {
        IDS::RemoveEntityEffect
    }
}

/// A modifier of an entity's property.
#[derive(Debug, Clone, PartialEq, Eq)]
pub struct PropertyModifier {
    pub uuid: UUID,
    pub amount: Double,
    pub operation: Byte,
}

/// What a `PropertyModifier` holds.
pub struct PropertyModifierModel {
    pub uuid: Seq<u8>,
    pub amount: Double,
    pub operation: Byte,
}

impl View for PropertyModifier {
    type V = PropertyModifierModel;

    open spec fn view(&self) -> PropertyModifierModel {
        PropertyModifierModel {
            uuid: self.uuid@,
            amount: self.amount@,
            operation: self.operation@,
        }
    }
}

impl PropertyModifier {
    /// A packet of the given fields.
    pub fn new(uuid: UUID, amount: Double, operation: Byte) -> (r: Self)
        ensures
            r == (PropertyModifier { uuid, amount, operation }),
    {
        PropertyModifier { uuid, amount, operation }
    }
}

impl Wire for PropertyModifier {
    open spec fn valid(m: PropertyModifierModel) -> bool {
        &&& UUID::valid(m.uuid)
        &&& Double::valid(m.amount)
        &&& Byte::valid(m.operation)
    }

    open spec fn wire(m: PropertyModifierModel) -> Seq<u8> {
        UUID::wire(m.uuid)
            + Double::wire(m.amount)
            + Byte::wire(m.operation)
    }

    open spec fn decoded(s: Seq<u8>) -> Option<(PropertyModifierModel, int)> {
        let r0 = UUID::decoded(s);
        let n0 = taken(r0);
        let f_uuid = read(r0);
        let r1 = Double::decoded(s.skip(n0));
        let n1 = n0 + taken(r1);
        let f_amount = read(r1);
        let r2 = Byte::decoded(s.skip(n1));
        let n2 = n1 + taken(r2);
        let f_operation = read(r2);
        if r0 is Some && r1 is Some && r2 is Some {
            Some(
                (
                    PropertyModifierModel {
                        uuid: f_uuid,
                        amount: f_amount,
                        operation: f_operation,
                    },
                    n2,
                ),
            )
        } else {
            None
        }
    }

    fn decode(data: &[u8]) -> (r: Option<(Self, usize)>) {
        let (f_uuid, k0) = match <UUID as Wire>::decode(data) {
            Some(x) => x,
            None => {
                return None;
            },
        };
        proof {
            UUID::lemma_decoded_bounds(data@);
        }
        let n0 = k0;
        let (f_amount, k1) = match <Double as Wire>::decode(tail(data, n0)) {
            Some(x) => x,
            None => {
                return None;
            },
        };
        proof {
            Double::lemma_decoded_bounds(data@.skip(n0 as int));
        }
        let n1 = n0 + k1;
        let (f_operation, k2) = match <Byte as Wire>::decode(tail(data, n1)) {
            Some(x) => x,
            None => {
                return None;
            },
        };
        proof {
            Byte::lemma_decoded_bounds(data@.skip(n1 as int));
        }
        let n2 = n1 + k2;
        Some((PropertyModifier { uuid: f_uuid, amount: f_amount, operation: f_operation }, n2))
    }

    fn encode(&self, out: &mut Vec<u8>) {
        self.uuid.encode(out);
        self.amount.encode(out);
        self.operation.encode(out);
        assert(out@ =~= old(out)@ + Self::wire(self@));
    }

    fn check(&self) -> (b: bool) {
        self.uuid.check()
            && self.amount.check()
            && self.operation.check()
    }

    proof fn lemma_decoded_bounds(s: Seq<u8>) {
        let r0 = UUID::decoded(s);
        UUID::lemma_decoded_bounds(s);
        let n0 = taken(r0);
        let f_uuid = read(r0);
        let r1 = Double::decoded(s.skip(n0));
        Double::lemma_decoded_bounds(s.skip(n0));
        let n1 = n0 + taken(r1);
        let f_amount = read(r1);
        let r2 = Byte::decoded(s.skip(n1));
        Byte::lemma_decoded_bounds(s.skip(n1));
        let n2 = n1 + taken(r2);
        let f_operation = read(r2);
    }

    proof fn lemma_decoded_wire(m: PropertyModifierModel, rest: Seq<u8>) {
        let s = Self::wire(m) + rest;
        let w0 = UUID::wire(m.uuid);
        let w1 = Double::wire(m.amount);
        let w2 = Byte::wire(m.operation);
        let p0 = w0;
        let p1 = p0 + w1;
        let p2 = p1 + w2;
        let t2 = rest;
        let t1 = w2 + t2;
        let t0 = w1 + t1;
        assert(s == p2 + t2);
        lemma_join(p1, w2, t2);
        lemma_join(p0, w1, t1);
        assert(s.skip(0) =~= s);
        let a0 = 0int;
        lemma_field_read::<UUID>(s, a0, m.uuid, t0);
        let a1 = a0 + w0.len();
        lemma_field_read::<Double>(s, a1, m.amount, t1);
        let a2 = a1 + w1.len();
        lemma_field_read::<Byte>(s, a2, m.operation, t2);
    }
}

/// A property of an entity with its modifiers.
#[derive(Debug, Clone, PartialEq, Eq)]
pub struct Property {
    pub key: VarString,
    pub value: Double,
    pub modifiers: CountedArray<PropertyModifier>,
}

/// What a `Property` holds.
pub struct PropertyModel {
    pub key: Seq<char>,
    pub value: Double,
    pub modifiers: Seq<PropertyModifierModel>,
}

impl View for Property {
    type V = PropertyModel;

    open spec fn view(&self) -> PropertyModel {
        PropertyModel {
            key: self.key@,
            value: self.value@,
            modifiers: self.modifiers@,
        }
    }
}

impl Property {
    /// A packet of the given fields.
    pub fn new(
        key: VarString,
        value: Double,
        modifiers: CountedArray<PropertyModifier>,
    ) -> (r: Self)
        ensures
            r == (Property { key, value, modifiers }),
    {
        Property { key, value, modifiers }
    }
}

impl Wire for Property {
    open spec fn valid(m: PropertyModel) -> bool {
        &&& VarString::valid(m.key)
        &&& Double::valid(m.value)
        &&& CountedArray::<PropertyModifier>::valid(m.modifiers)
    }

    open spec fn wire(m: PropertyModel) -> Seq<u8> {
        VarString::wire(m.key)
            + Double::wire(m.value)
            + CountedArray::<PropertyModifier>::wire(m.modifiers)
    }

    open spec fn decoded(s: Seq<u8>) -> Option<(PropertyModel, int)> {
        let r0 = VarString::decoded(s);
        let n0 = taken(r0);
        let f_key = read(r0);
        let r1 = Double::decoded(s.skip(n0));
        let n1 = n0 + taken(r1);
        let f_value = read(r1);
        let r2 = CountedArray::<PropertyModifier>::decoded(s.skip(n1));
        let n2 = n1 + taken(r2);
        let f_modifiers = read(r2);
        if r0 is Some && r1 is Some && r2 is Some {
            Some((PropertyModel { key: f_key, value: f_value, modifiers: f_modifiers }, n2))
        } else {
            None
        }
    }

    fn decode(data: &[u8]) -> (r: Option<(Self, usize)>) {
        let (f_key, k0) = match <VarString as Wire>::decode(data) {
            Some(x) => x,
            None => {
                return None;
            },
        };
        proof {
            VarString::lemma_decoded_bounds(data@);
        }
        let n0 = k0;
        let (f_value, k1) = match <Double as Wire>::decode(tail(data, n0)) {
            Some(x) => x,
            None => {
                return None;
            },
        };
        proof {
            Double::lemma_decoded_bounds(data@.skip(n0 as int));
        }
        let n1 = n0 + k1;
        let (f_modifiers, k2) = match <CountedArray<PropertyModifier> as Wire>::decode(
            tail(data, n1),
        ) {
            Some(x) => x,
            None => {
                return None;
            },
        };
        proof {
            CountedArray::<PropertyModifier>::lemma_decoded_bounds(data@.skip(n1 as int));
        }
        let n2 = n1 + k2;
        Some((Property { key: f_key, value: f_value, modifiers: f_modifiers }, n2))
    }

    fn encode(&self, out: &mut Vec<u8>) {
        self.key.encode(out);
        self.value.encode(out);
        self.modifiers.encode(out);
        assert(out@ =~= old(out)@ + Self::wire(self@));
    }

    fn check(&self) -> (b: bool) {
        self.key.check()
            && self.value.check()
            && self.modifiers.check()
    }

    proof fn lemma_decoded_bounds(s: Seq<u8>) {
        let r0 = VarString::decoded(s);
        VarString::lemma_decoded_bounds(s);
        let n0 = taken(r0);
        let f_key = read(r0);
        let r1 = Double::decoded(s.skip(n0));
        Double::lemma_decoded_bounds(s.skip(n0));
        let n1 = n0 + taken(r1);
        let f_value = read(r1);
        let r2 = CountedArray::<PropertyModifier>::decoded(s.skip(n1));
        CountedArray::<PropertyModifier>::lemma_decoded_bounds(s.skip(n1));
        let n2 = n1 + taken(r2);
        let f_modifiers = read(r2);
    }

    proof fn lemma_decoded_wire(m: PropertyModel, rest: Seq<u8>) {
        let s = Self::wire(m) + rest;
        let w0 = VarString::wire(m.key);
        let w1 = Double::wire(m.value);
        let w2 = CountedArray::<PropertyModifier>::wire(m.modifiers);
        let p0 = w0;
        let p1 = p0 + w1;
        let p2 = p1 + w2;
        let t2 = rest;
        let t1 = w2 + t2;
        let t0 = w1 + t1;
        assert(s == p2 + t2);
        lemma_join(p1, w2, t2);
        lemma_join(p0, w1, t1);
        assert(s.skip(0) =~= s);
        let a0 = 0int;
        lemma_field_read::<VarString>(s, a0, m.key, t0);
        let a1 = a0 + w0.len();
        lemma_field_read::<Double>(s, a1, m.value, t1);
        let a2 = a1 + w1.len();
        lemma_field_read::<CountedArray<PropertyModifier>>(s, a2, m.modifiers, t2);
    }
}

/// The properties of an entity.
#[derive(Debug, Clone, PartialEq, Eq)]
pub struct EntityProperties {
    pub entity_id: VarInt,
    pub properties: CountedArray<Property>,
}

/// What a `EntityProperties` holds.
pub struct EntityPropertiesModel {
    pub entity_id: VarInt,
    pub properties: Seq<PropertyModel>,
}

impl View for EntityProperties {
    type V = EntityPropertiesModel;

    open spec fn view(&self) -> EntityPropertiesModel {
        EntityPropertiesModel {
            entity_id: self.entity_id@,
            properties: self.properties@,
        }
    }
}

impl EntityProperties {
    /// A packet of the given fields.
    pub fn new(entity_id: VarInt, properties: CountedArray<Property>) -> (r: Self)
        ensures
            r == (EntityProperties { entity_id, properties }),
    {
        EntityProperties { entity_id, properties }
    }
}

impl Wire for EntityProperties {
    open spec fn valid(m: EntityPropertiesModel) -> bool {
        &&& VarInt::valid(m.entity_id)
        &&& CountedArray::<Property>::valid(m.properties)
    }

    open spec fn wire(m: EntityPropertiesModel) -> Seq<u8> {
        VarInt::wire(m.entity_id)
            + CountedArray::<Property>::wire(m.properties)
    }

    open spec fn decoded(s: Seq<u8>) -> Option<(EntityPropertiesModel, int)> {
        let r0 = VarInt::decoded(s);
        let n0 = taken(r0);
        let f_entity_id = read(r0);
        let r1 = CountedArray::<Property>::decoded(s.skip(n0));
        let n1 = n0 + taken(r1);
        let f_properties = read(r1);
        if r0 is Some && r1 is Some {
            Some((EntityPropertiesModel { entity_id: f_entity_id, properties: f_properties }, n1))
        } else {
            None
        }
    }

    fn decode(data: &[u8]) -> (r: Option<(Self, usize)>) {
        let (f_entity_id, k0) = match <VarInt as Wire>::decode(data) {
            Some(x) => x,
            None => {
                return None;
            },
        };
        proof {
            VarInt::lemma_decoded_bounds(data@);
        }
        let n0 = k0;
        let (f_properties, k1) = match <CountedArray<Property> as Wire>::decode(tail(data, n0)) {
            Some(x) => x,
            None => {
                return None;
            },
        };
        proof {
            CountedArray::<Property>::lemma_decoded_bounds(data@.skip(n0 as int));
        }
        let n1 = n0 + k1;
        Some((EntityProperties { entity_id: f_entity_id, properties: f_properties }, n1))
    }

    fn encode(&self, out: &mut Vec<u8>) {
        self.entity_id.encode(out);
        self.properties.encode(out);
        assert(out@ =~= old(out)@ + Self::wire(self@));
    }

    fn check(&self) -> (b: bool) {
        self.entity_id.check()
            && self.properties.check()
    }

    proof fn lemma_decoded_bounds(s: Seq<u8>) {
        let r0 = VarInt::decoded(s);
        VarInt::lemma_decoded_bounds(s);
        let n0 = taken(r0);
        let f_entity_id = read(r0);
        let r1 = CountedArray::<Property>::decoded(s.skip(n0));
        CountedArray::<Property>::lemma_decoded_bounds(s.skip(n0));
        let n1 = n0 + taken(r1);
        let f_properties = read(r1);
    }

    proof fn lemma_decoded_wire(m: EntityPropertiesModel, rest: Seq<u8>) {
        let s = Self::wire(m) + rest;
        let w0 = VarInt::wire(m.entity_id);
        let w1 = CountedArray::<Property>::wire(m.properties);
        let p0 = w0;
        let p1 = p0 + w1;
        let t1 = rest;
        let t0 = w1 + t1;
        assert(s == p1 + t1);
        lemma_join(p0, w1, t1);
        assert(s.skip(0) =~= s);
        let a0 = 0int;
        lemma_field_read::<VarInt>(s, a0, m.entity_id, t0);
        let a1 = a0 + w0.len();
        lemma_field_read::<CountedArray<Property>>(s, a1, m.properties, t1);
    }
}

impl ClientboundPacket for EntityProperties {
    open spec fn listed() -> IDS {
        IDS::EntityProperties
    }

    open spec fn parsed(s: Seq<u8>) -> Option<EntityPropertiesModel> {
        match Self::decoded(s) {
            Some((m, _)) => Some(m),
            None => None,
        }
    }

    fn parse(data: &[u8]) -> (r: Result<Self, String>) {
        match Self::decode(data) {
            Some((p, _)) => Ok(p),
            None => Err(malformed("EntityProperties")),
        }
    }

    fn id() -> (r: IDS) {
        IDS::EntityProperties
    }
}

/// What an entity holds or wears in one of its slots.
#[derive(Debug, Clone, PartialEq, Eq)]
pub struct EntityEquipment {
    pub entity_id: VarInt,
    pub slot: Short,
    pub item: Slot,
}

/// What a `EntityEquipment` holds.
pub struct EntityEquipmentModel {
    pub entity_id: VarInt,
    pub slot: Short,
    pub item: SlotModel,
}

impl View for EntityEquipment {
    type V = EntityEquipmentModel;

    open spec fn view(&self) -> EntityEquipmentModel {
        EntityEquipmentModel {
            entity_id: self.entity_id@,
            slot: self.slot@,
            item: self.item@,
        }
    }
}

impl EntityEquipment {
    /// A packet of the given fields.
    pub fn new(entity_id: VarInt, slot: Short, item: Slot) -> (r: Self)
        ensures
            r == (EntityEquipment { entity_id, slot, item }),
    {
        EntityEquipment { entity_id, slot, item }
    }
}

impl Wire for EntityEquipment {
    open spec fn valid(m: EntityEquipmentModel) -> bool {
        &&& VarInt::valid(m.entity_id)
        &&& Short::valid(m.slot)
        &&& Slot::valid(m.item)
    }

    open spec fn wire(m: EntityEquipmentModel) -> Seq<u8> {
        VarInt::wire(m.entity_id)
            + Short::wire(m.slot)
            + Slot::wire(m.item)
    }

    open spec fn decoded(s: Seq<u8>) -> Option<(EntityEquipmentModel, int)> {
        let r0 = VarInt::decoded(s);
        let n0 = taken(r0);
        let f_entity_id = read(r0);
        let r1 = Short::decoded(s.skip(n0));
        let n1 = n0 + taken(r1);
        let f_slot = read(r1);
        let r2 = Slot::decoded(s.skip(n1));
        let n2 = n1 + taken(r2);
        let f_item = read(r2);
        if r0 is Some && r1 is Some && r2 is Some {
            Some((EntityEquipmentModel { entity_id: f_entity_id, slot: f_slot, item: f_item }, n2))
        } else {
            None
        }
    }

    fn decode(data: &[u8]) -> (r: Option<(Self, usize)>) {
        let (f_entity_id, k0) = match <VarInt as Wire>::decode(data) {
            Some(x) => x,
            None => {
                return None;
            },
        };
        proof {
            VarInt::lemma_decoded_bounds(data@);
        }
        let n0 = k0;
        let (f_slot, k1) = match <Short as Wire>::decode(tail(data, n0)) {
            Some(x) => x,
            None => {
                return None;
            },
        };
        proof {
            Short::lemma_decoded_bounds(data@.skip(n0 as int));
        }
        let n1 = n0 + k1;
        let (f_item, k2) = match <Slot as Wire>::decode(tail(data, n1)) {
            Some(x) => x,
            None => {
                return None;
            },
        };
        proof {
            Slot::lemma_decoded_bounds(data@.skip(n1 as int));
        }
        let n2 = n1 + k2;
        Some((EntityEquipment { entity_id: f_entity_id, slot: f_slot, item: f_item }, n2))
    }

    fn encode(&self, out: &mut Vec<u8>) {
        self.entity_id.encode(out);
        self.slot.encode(out);
        self.item.encode(out);
        assert(out@ =~= old(out)@ + Self::wire(self@));
    }

    fn check(&self) -> (b: bool) {
        self.entity_id.check()
            && self.slot.check()
            && self.item.check()
    }

    proof fn lemma_decoded_bounds(s: Seq<u8>) {
        let r0 = VarInt::decoded(s);
        VarInt::lemma_decoded_bounds(s);
        let n0 = taken(r0);
        let f_entity_id = read(r0);
        let r1 = Short::decoded(s.skip(n0));
        Short::lemma_decoded_bounds(s.skip(n0));
        let n1 = n0 + taken(r1);
        let f_slot = read(r1);
        let r2 = Slot::decoded(s.skip(n1));
        Slot::lemma_decoded_bounds(s.skip(n1));
        let n2 = n1 + taken(r2);
        let f_item = read(r2);
    }

    proof fn lemma_decoded_wire(m: EntityEquipmentModel, rest: Seq<u8>) {
        let s = Self::wire(m) + rest;
        let w0 = VarInt::wire(m.entity_id);
        let w1 = Short::wire(m.slot);
        let w2 = Slot::wire(m.item);
        let p0 = w0;
        let p1 = p0 + w1;
        let p2 = p1 + w2;
        let t2 = rest;
        let t1 = w2 + t2;
        let t0 = w1 + t1;
        assert(s == p2 + t2);
        lemma_join(p1, w2, t2);
        lemma_join(p0, w1, t1);
        assert(s.skip(0) =~= s);
        let a0 = 0int;
        lemma_field_read::<VarInt>(s, a0, m.entity_id, t0);
        let a1 = a0 + w0.len();
        lemma_field_read::<Short>(s, a1, m.slot, t1);
        let a2 = a1 + w1.len();
        lemma_field_read::<Slot>(s, a2, m.item, t2);
    }
}

impl ClientboundPacket for EntityEquipment {
    open spec fn listed() -> IDS {
        IDS::EntityEquipment
    }

    open spec fn parsed(s: Seq<u8>) -> Option<EntityEquipmentModel> {
        match Self::decoded(s) {
            Some((m, _)) => Some(m),
            None => None,
        }
    }

    fn parse(data: &[u8]) -> (r: Result<Self, String>) {
        match Self::decode(data) {
            Some((p, _)) => Ok(p),
            None => Err(malformed("EntityEquipment")),
        }
    }

    fn id() -> (r: IDS) {
        IDS::EntityEquipment
    }
}

/// A player has gone to bed.
#[derive(Debug, Clone, Copy, PartialEq, Eq, Structural)]
pub struct UseBed {
    pub entity_id: VarInt,
    pub location: Position,
}

impl View for UseBed {
    type V = UseBed;

    open spec fn view(&self) -> UseBed {
        *self
    }
}

impl UseBed {
    /// A packet of the given fields.
    pub fn new(entity_id: VarInt, location: Position) -> (r: Self)
        ensures
            r == (UseBed { entity_id, location }),
    {
        UseBed { entity_id, location }
    }
}

impl Wire for UseBed {
    open spec fn valid(m: UseBed) -> bool {
        &&& VarInt::valid(m.entity_id)
        &&& Position::valid(m.location)
    }

    open spec fn wire(m: UseBed) -> Seq<u8> {
        VarInt::wire(m.entity_id)
            + Position::wire(m.location)
    }

    open spec fn decoded(s: Seq<u8>) -> Option<(UseBed, int)> {
        let r0 = VarInt::decoded(s);
        let n0 = taken(r0);
        let f_entity_id = read(r0);
        let r1 = Position::decoded(s.skip(n0));
        let n1 = n0 + taken(r1);
        let f_location = read(r1);
        if r0 is Some && r1 is Some {
            Some((UseBed { entity_id: f_entity_id, location: f_location }, n1))
        } else {
            None
        }
    }

    fn decode(data: &[u8]) -> (r: Option<(Self, usize)>) {
        let (f_entity_id, k0) = match <VarInt as Wire>::decode(data) {
            Some(x) => x,
            None => {
                return None;
            },
        };
        proof {
            VarInt::lemma_decoded_bounds(data@);
        }
        let n0 = k0;
        let (f_location, k1) = match <Position as Wire>::decode(tail(data, n0)) {
            Some(x) => x,
            None => {
                return None;
            },
        };
        proof {
            Position::lemma_decoded_bounds(data@.skip(n0 as int));
        }
        let n1 = n0 + k1;
        Some((UseBed { entity_id: f_entity_id, location: f_location }, n1))
    }

    fn encode(&self, out: &mut Vec<u8>) {
        self.entity_id.encode(out);
        self.location.encode(out);
        assert(out@ =~= old(out)@ + Self::wire(self@));
    }

    fn check(&self) -> (b: bool) {
        self.entity_id.check()
            && self.location.check()
    }

    proof fn lemma_decoded_bounds(s: Seq<u8>) {
        let r0 = VarInt::decoded(s);
        VarInt::lemma_decoded_bounds(s);
        let n0 = taken(r0);
        let f_entity_id = read(r0);
        let r1 = Position::decoded(s.skip(n0));
        Position::lemma_decoded_bounds(s.skip(n0));
        let n1 = n0 + taken(r1);
        let f_location = read(r1);
    }

    proof fn lemma_decoded_wire(m: UseBed, rest: Seq<u8>) {
        let s = Self::wire(m) + rest;
        let w0 = VarInt::wire(m.entity_id);
        let w1 = Position::wire(m.location);
        let p0 = w0;
        let p1 = p0 + w1;
        let t1 = rest;
        let t0 = w1 + t1;
        assert(s == p1 + t1);
        lemma_join(p0, w1, t1);
        assert(s.skip(0) =~= s);
        let a0 = 0int;
        lemma_field_read::<VarInt>(s, a0, m.entity_id, t0);
        let a1 = a0 + w0.len();
        lemma_field_read::<Position>(s, a1, m.location, t1);
    }
}

impl ClientboundPacket for UseBed {
    open spec fn listed() -> IDS {
        IDS::UseBed
    }

    open spec fn parsed(s: Seq<u8>) -> Option<UseBed> {
        match Self::decoded(s) {
            Some((m, _)) => Some(m),
            None => None,
        }
    }

    fn parse(data: &[u8]) -> (r: Result<Self, String>) {
        match Self::decode(data) {
            Some((p, _)) => Ok(p),
            None => Err(malformed("UseBed")),
        }
    }

    fn id() -> (r: IDS) {
        IDS::UseBed
    }
}

/// An entity has made a movement.
#[derive(Debug, Clone, Copy, PartialEq, Eq, Structural)]
pub struct AnimationClientbound {
    pub entity_id: VarInt,
    pub animation: UnsignedByte,
}

impl View for AnimationClientbound {
    type V = AnimationClientbound;

    open spec fn view(&self) -> AnimationClientbound {
        *self
    }
}

impl AnimationClientbound {
    /// A packet of the given fields.
    pub fn new(entity_id: VarInt, animation: UnsignedByte) -> (r: Self)
        ensures
            r == (AnimationClientbound { entity_id, animation }),
    {
        AnimationClientbound { entity_id, animation }
    }
}

impl Wire for AnimationClientbound {
    open spec fn valid(m: AnimationClientbound) -> bool {
        &&& VarInt::valid(m.entity_id)
        &&& UnsignedByte::valid(m.animation)
    }

    open spec fn wire(m: AnimationClientbound) -> Seq<u8> {
        VarInt::wire(m.entity_id)
            + UnsignedByte::wire(m.animation)
    }

    open spec fn decoded(s: Seq<u8>) -> Option<(AnimationClientbound, int)> {
        let r0 = VarInt::decoded(s);
        let n0 = taken(r0);
        let f_entity_id = read(r0);
        let r1 = UnsignedByte::decoded(s.skip(n0));
        let n1 = n0 + taken(r1);
        let f_animation = read(r1);
        if r0 is Some && r1 is Some {
            Some((AnimationClientbound { entity_id: f_entity_id, animation: f_animation }, n1))
        } else {
            None
        }
    }

    fn decode(data: &[u8]) -> (r: Option<(Self, usize)>) {
        let (f_entity_id, k0) = match <VarInt as Wire>::decode(data) {
            Some(x) => x,
            None => {
                return None;
            },
        };
        proof {
            VarInt::lemma_decoded_bounds(data@);
        }
        let n0 = k0;
        let (f_animation, k1) = match <UnsignedByte as Wire>::decode(tail(data, n0)) {
            Some(x) => x,
            None => {
                return None;
            },
        };
        proof {
            UnsignedByte::lemma_decoded_bounds(data@.skip(n0 as int));
        }
        let n1 = n0 + k1;
        Some((AnimationClientbound { entity_id: f_entity_id, animation: f_animation }, n1))
    }

    fn encode(&self, out: &mut Vec<u8>) {
        self.entity_id.encode(out);
        self.animation.encode(out);
        assert(out@ =~= old(out)@ + Self::wire(self@));
    }

    fn check(&self) -> (b: bool) {
        self.entity_id.check()
            && self.animation.check()
    }

    proof fn lemma_decoded_bounds(s: Seq<u8>) {
        let r0 = VarInt::decoded(s);
        VarInt::lemma_decoded_bounds(s);
        let n0 = taken(r0);
        let f_entity_id = read(r0);
        let r1 = UnsignedByte::decoded(s.skip(n0));
        UnsignedByte::lemma_decoded_bounds(s.skip(n0));
        let n1 = n0 + taken(r1);
        let f_animation = read(r1);
    }

    proof fn lemma_decoded_wire(m: AnimationClientbound, rest: Seq<u8>) {
        let s = Self::wire(m) + rest;
        let w0 = VarInt::wire(m.entity_id);
        let w1 = UnsignedByte::wire(m.animation);
        let p0 = w0;
        let p1 = p0 + w1;
        let t1 = rest;
        let t0 = w1 + t1;
        assert(s == p1 + t1);
        lemma_join(p0, w1, t1);
        assert(s.skip(0) =~= s);
        let a0 = 0int;
        lemma_field_read::<VarInt>(s, a0, m.entity_id, t0);
        let a1 = a0 + w0.len();
        lemma_field_read::<UnsignedByte>(s, a1, m.animation, t1);
    }
}

impl ClientboundPacket for AnimationClientbound {
    open spec fn listed() -> IDS {
        IDS::AnimationClientbound
    }

    open spec fn parsed(s: Seq<u8>) -> Option<AnimationClientbound> {
        match Self::decoded(s) {
            Some((m, _)) => Some(m),
            None => None,
        }
    }

    fn parse(data: &[u8]) -> (r: Result<Self, String>) {
        match Self::decode(data) {
            Some((p, _)) => Ok(p),
            None => Err(malformed("AnimationClientbound")),
        }
    }

    fn id() -> (r: IDS) {
        IDS::AnimationClientbound
    }
}

/// The NBT tag of an entity.
#[derive(Debug, Clone, PartialEq, Eq)]
pub struct UpdateEntityNBT {
    pub entity_id: VarInt,
    pub tag: OptionalNbt,
}

/// What a `UpdateEntityNBT` holds.
pub struct UpdateEntityNBTModel {
    pub entity_id: VarInt,
    pub tag: Option<Seq<u8>>,
}

impl View for UpdateEntityNBT {
    type V = UpdateEntityNBTModel;

    open spec fn view(&self) -> UpdateEntityNBTModel {
        UpdateEntityNBTModel {
            entity_id: self.entity_id@,
            tag: self.tag@,
        }
    }
}

impl UpdateEntityNBT {
    /// A packet of the given fields.
    pub fn new(entity_id: VarInt, tag: OptionalNbt) -> (r: Self)
        ensures
            r == (UpdateEntityNBT { entity_id, tag }),
    {
        UpdateEntityNBT { entity_id, tag }
    }
}

impl Wire for UpdateEntityNBT {
    open spec fn valid(m: UpdateEntityNBTModel) -> bool {
        &&& VarInt::valid(m.entity_id)
        &&& OptionalNbt::valid(m.tag)
    }

    open spec fn wire(m: UpdateEntityNBTModel) -> Seq<u8> {
        VarInt::wire(m.entity_id)
            + OptionalNbt::wire(m.tag)
    }

    open spec fn decoded(s: Seq<u8>) -> Option<(UpdateEntityNBTModel, int)> {
        let r0 = VarInt::decoded(s);
        let n0 = taken(r0);
        let f_entity_id = read(r0);
        let r1 = OptionalNbt::decoded(s.skip(n0));
        let n1 = n0 + taken(r1);
        let f_tag = read(r1);
        if r0 is Some && r1 is Some {
            Some((UpdateEntityNBTModel { entity_id: f_entity_id, tag: f_tag }, n1))
        } else {
            None
        }
    }

    fn decode(data: &[u8]) -> (r: Option<(Self, usize)>) {
        let (f_entity_id, k0) = match <VarInt as Wire>::decode(data) {
            Some(x) => x,
            None => {
                return None;
            },
        };
        proof {
            VarInt::lemma_decoded_bounds(data@);
        }
        let n0 = k0;
        let (f_tag, k1) = match <OptionalNbt as Wire>::decode(tail(data, n0)) {
            Some(x) => x,
            None => {
                return None;
            },
        };
        proof {
            OptionalNbt::lemma_decoded_bounds(data@.skip(n0 as int));
        }
        let n1 = n0 + k1;
        Some((UpdateEntityNBT { entity_id: f_entity_id, tag: f_tag }, n1))
    }

    fn encode(&self, out: &mut Vec<u8>) {
        self.entity_id.encode(out);
        self.tag.encode(out);
        assert(out@ =~= old(out)@ + Self::wire(self@));
    }

    fn check(&self) -> (b: bool) {
        self.entity_id.check()
            && self.tag.check()
    }

    proof fn lemma_decoded_bounds(s: Seq<u8>) {
        let r0 = VarInt::decoded(s);
        VarInt::lemma_decoded_bounds(s);
        let n0 = taken(r0);
        let f_entity_id = read(r0);
        let r1 = OptionalNbt::decoded(s.skip(n0));
        OptionalNbt::lemma_decoded_bounds(s.skip(n0));
        let n1 = n0 + taken(r1);
        let f_tag = read(r1);
    }

    proof fn lemma_decoded_wire(m: UpdateEntityNBTModel, rest: Seq<u8>) {
        let s = Self::wire(m) + rest;
        let w0 = VarInt::wire(m.entity_id);
        let w1 = OptionalNbt::wire(m.tag);
        let p0 = w0;
        let p1 = p0 + w1;
        let t1 = rest;
        let t0 = w1 + t1;
        assert(s == p1 + t1);
        lemma_join(p0, w1, t1);
        assert(s.skip(0) =~= s);
        let a0 = 0int;
        lemma_field_read::<VarInt>(s, a0, m.entity_id, t0);
        let a1 = a0 + w0.len();
        lemma_field_read::<OptionalNbt>(s, a1, m.tag, t1);
    }
}

impl ClientboundPacket for UpdateEntityNBT {
    open spec fn listed() -> IDS {
        IDS::UpdateEntityNBT
    }

    open spec fn parsed(s: Seq<u8>) -> Option<UpdateEntityNBTModel> {
        match Self::decoded(s) {
            Some((m, _)) => Some(m),
            None => None,
        }
    }

    fn parse(data: &[u8]) -> (r: Result<Self, String>) {
        match Self::decode(data) {
            Some((p, _)) => Ok(p),
            None => Err(malformed("UpdateEntityNBT")),
        }
    }

    fn id() -> (r: IDS) {
        IDS::UpdateEntityNBT
    }
}

/// The camera has been set to an entity.
#[derive(Debug, Clone, Copy, PartialEq, Eq, Structural)]
pub struct Camera {
    pub camera_id: VarInt,
}

impl View for Camera {
    type V = Camera;

    open spec fn view(&self) -> Camera {
        *self
    }
}

impl Camera {
    /// A packet of the given fields.
    pub fn new(camera_id: VarInt) -> (r: Self)
        ensures
            r == (Camera { camera_id }),
    {
        Camera { camera_id }
    }
}

impl Wire for Camera {
    open spec fn valid(m: Camera) -> bool {
        &&& VarInt::valid(m.camera_id)
    }

    open spec fn wire(m: Camera) -> Seq<u8> {
        VarInt::wire(m.camera_id)
    }

    open spec fn decoded(s: Seq<u8>) -> Option<(Camera, int)> {
        let r0 = VarInt::decoded(s);
        let n0 = taken(r0);
        let f_camera_id = read(r0);
        if r0 is Some {
            Some((Camera { camera_id: f_camera_id }, n0))
        } else {
            None
        }
    }

    fn decode(data: &[u8]) -> (r: Option<(Self, usize)>) {
        let (f_camera_id, k0) = match <VarInt as Wire>::decode(data) {
            Some(x) => x,
            None => {
                return None;
            },
        };
        proof {
            VarInt::lemma_decoded_bounds(data@);
        }
        let n0 = k0;
        Some((Camera { camera_id: f_camera_id }, n0))
    }

    fn encode(&self, out: &mut Vec<u8>) {
        self.camera_id.encode(out);
        assert(out@ =~= old(out)@ + Self::wire(self@));
    }

    fn check(&self) -> (b: bool) {
        self.camera_id.check()
    }

    proof fn lemma_decoded_bounds(s: Seq<u8>) {
        let r0 = VarInt::decoded(s);
        VarInt::lemma_decoded_bounds(s);
        let n0 = taken(r0);
        let f_camera_id = read(r0);
    }

    proof fn lemma_decoded_wire(m: Camera, rest: Seq<u8>) {
        let s = Self::wire(m) + rest;
        let w0 = VarInt::wire(m.camera_id);
        let p0 = w0;
        let t0 = rest;
        assert(s == p0 + t0);
        assert(s.skip(0) =~= s);
        let a0 = 0int;
        lemma_field_read::<VarInt>(s, a0, m.camera_id, t0);
    }
}

impl ClientboundPacket for Camera {
    open spec fn listed() -> IDS {
        IDS::Camera
    }

    open spec fn parsed(s: Seq<u8>) -> Option<Camera> {
        match Self::decoded(s) {
            Some((m, _)) => Some(m),
            None => None,
        }
    }

    fn parse(data: &[u8]) -> (r: Result<Self, String>) {
        match Self::decode(data) {
            Some((p, _)) => Ok(p),
            None => Err(malformed("Camera")),
        }
    }

    fn id() -> (r: IDS) {
        IDS::Camera
    }
}

} // verus!
