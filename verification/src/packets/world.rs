//! The packets by which the server tells of the world.

use vstd::prelude::*;
use crate::arrays::{ByteArray, CountedArray, VarIntArray};
use crate::basic::{Boolean, Position};
use crate::fixed::{Byte, Double, Float, Int, Long, UnsignedByte, UnsignedShort};
use crate::ids::IDS;
use crate::optional::{IntCountedArray, OptionalNbt};
use crate::packets::{malformed, ClientboundPacket};
use crate::text::VarString;
use crate::varint::{VarInt, VarLong};
use crate::wire::{lemma_field_read, lemma_join, present, read, tail, only_if, taken, Wire};

verus! {

/// The age of the world and the time of day, in ticks.
#[derive(Debug, Clone, Copy, PartialEq, Eq, Structural)]
pub struct TimeUpdate {
    pub world_age: Long,
    pub time_of_day: Long,
}

impl View for TimeUpdate {
    type V = TimeUpdate;

    open spec fn view(&self) -> TimeUpdate {
        *self
    }
}

impl TimeUpdate {
    /// A packet of the given fields.
    pub fn new(world_age: Long, time_of_day: Long) -> (r: Self)
        ensures
            r == (TimeUpdate { world_age, time_of_day }),
    {
        TimeUpdate { world_age, time_of_day }
    }
}

impl Wire for TimeUpdate {
    open spec fn valid(m: TimeUpdate) -> bool {
        &&& Long::valid(m.world_age)
        &&& Long::valid(m.time_of_day)
    }

    open spec fn wire(m: TimeUpdate) -> Seq<u8> {
        Long::wire(m.world_age)
            + Long::wire(m.time_of_day)
    }

    open spec fn decoded(s: Seq<u8>) -> Option<(TimeUpdate, int)> {
        let r0 = Long::decoded(s);
        let n0 = taken(r0);
        let f_world_age = read(r0);
        let r1 = Long::decoded(s.skip(n0));
        let n1 = n0 + taken(r1);
        let f_time_of_day = read(r1);
        if r0 is Some && r1 is Some {
            Some((TimeUpdate { world_age: f_world_age, time_of_day: f_time_of_day }, n1))
        } else {
            None
        }
    }

    fn decode(data: &[u8]) -> (r: Option<(Self, usize)>) {
        let (f_world_age, k0) = match <Long as Wire>::decode(data) {
            Some(x) => x,
            None => {
                return None;
            },
        };
        proof {
            Long::lemma_decoded_bounds(data@);
        }
        let n0 = k0;
        let (f_time_of_day, k1) = match <Long as Wire>::decode(tail(data, n0)) {
            Some(x) => x,
            None => {
                return None;
            },
        };
        proof {
            Long::lemma_decoded_bounds(data@.skip(n0 as int));
        }
        let n1 = n0 + k1;
        Some((TimeUpdate { world_age: f_world_age, time_of_day: f_time_of_day }, n1))
    }

    fn encode(&self, out: &mut Vec<u8>) {
        self.world_age.encode(out);
        self.time_of_day.encode(out);
        assert(out@ =~= old(out)@ + Self::wire(self@));
    }

    fn check(&self) -> (b: bool) {
        self.world_age.check()
            && self.time_of_day.check()
    }

    proof fn lemma_decoded_bounds(s: Seq<u8>) {
        let r0 = Long::decoded(s);
        Long::lemma_decoded_bounds(s);
        let n0 = taken(r0);
        let f_world_age = read(r0);
        let r1 = Long::decoded(s.skip(n0));
        Long::lemma_decoded_bounds(s.skip(n0));
        let n1 = n0 + taken(r1);
        let f_time_of_day = read(r1);
    }

    proof fn lemma_decoded_wire(m: TimeUpdate, rest: Seq<u8>) {
        let s = Self::wire(m) + rest;
        let w0 = Long::wire(m.world_age);
        let w1 = Long::wire(m.time_of_day);
        let p0 = w0;
        let p1 = p0 + w1;
        let t1 = rest;
        let t0 = w1 + t1;
        assert(s == p1 + t1);
        lemma_join(p0, w1, t1);
        assert(s.skip(0) =~= s);
        let a0 = 0int;
        lemma_field_read::<Long>(s, a0, m.world_age, t0);
        let a1 = a0 + w0.len();
        lemma_field_read::<Long>(s, a1, m.time_of_day, t1);
    }
}

impl ClientboundPacket for TimeUpdate {
    open spec fn listed() -> IDS {
        IDS::TimeUpdate
    }

    open spec fn parsed(s: Seq<u8>) -> Option<TimeUpdate> {
        match Self::decoded(s) {
            Some((m, _)) => Some(m),
            None => None,
        }
    }

    fn parse(data: &[u8]) -> (r: Result<Self, String>) {
        match Self::decode(data) {
            Some((p, _)) => Ok(p),
            None => Err(malformed("TimeUpdate")),
        }
    }

    fn id() -> (r: IDS) {
        IDS::TimeUpdate
    }
}

/// Where players spawn, and where the compass points.
#[derive(Debug, Clone, Copy, PartialEq, Eq, Structural)]
pub struct SpawnPosition {
    pub location: Position,
}

impl View for SpawnPosition {
    type V = SpawnPosition;

    open spec fn view(&self) -> SpawnPosition {
        *self
    }
}

impl SpawnPosition {
    /// A packet of the given fields.
    pub fn new(location: Position) -> (r: Self)
        ensures
            r == (SpawnPosition { location }),
    {
        SpawnPosition { location }
    }
}

impl Wire for SpawnPosition {
    open spec fn valid(m: SpawnPosition) -> bool {
        &&& Position::valid(m.location)
    }

    open spec fn wire(m: SpawnPosition) -> Seq<u8> {
        Position::wire(m.location)
    }

    open spec fn decoded(s: Seq<u8>) -> Option<(SpawnPosition, int)> {
        let r0 = Position::decoded(s);
        let n0 = taken(r0);
        let f_location = read(r0);
        if r0 is Some {
            Some((SpawnPosition { location: f_location }, n0))
        } else {
            None
        }
    }

    fn decode(data: &[u8]) -> (r: Option<(Self, usize)>) {
        let (f_location, k0) = match <Position as Wire>::decode(data) {
            Some(x) => x,
            None => {
                return None;
            },
        };
        proof {
            Position::lemma_decoded_bounds(data@);
        }
        let n0 = k0;
        Some((SpawnPosition { location: f_location }, n0))
    }

    fn encode(&self, out: &mut Vec<u8>) {
        self.location.encode(out);
        assert(out@ =~= old(out)@ + Self::wire(self@));
    }

    fn check(&self) -> (b: bool) {
        self.location.check()
    }

    proof fn lemma_decoded_bounds(s: Seq<u8>) {
        let r0 = Position::decoded(s);
        Position::lemma_decoded_bounds(s);
        let n0 = taken(r0);
        let f_location = read(r0);
    }

    proof fn lemma_decoded_wire(m: SpawnPosition, rest: Seq<u8>) {
        let s = Self::wire(m) + rest;
        let w0 = Position::wire(m.location);
        let p0 = w0;
        let t0 = rest;
        assert(s == p0 + t0);
        assert(s.skip(0) =~= s);
        let a0 = 0int;
        lemma_field_read::<Position>(s, a0, m.location, t0);
    }
}

impl ClientboundPacket for SpawnPosition {
    open spec fn listed() -> IDS {
        IDS::SpawnPosition
    }

    open spec fn parsed(s: Seq<u8>) -> Option<SpawnPosition> {
        match Self::decoded(s) {
            Some((m, _)) => Some(m),
            None => None,
        }
    }

    fn parse(data: &[u8]) -> (r: Result<Self, String>) {
        match Self::decode(data) {
            Some((p, _)) => Ok(p),
            None => Err(malformed("SpawnPosition")),
        }
    }

    fn id() -> (r: IDS) {
        IDS::SpawnPosition
    }
}

/// One changed block within a chunk: its place in the column as two nibbles, its
/// height, and what it is now.
#[derive(Debug, Clone, Copy, PartialEq, Eq, Structural)]
pub struct BlockChangeRecord {
    pub horizontal_position: UnsignedByte,
    pub y_coordinate: UnsignedByte,
    pub block_id: VarInt,
}

impl View for BlockChangeRecord {
    type V = BlockChangeRecord;

    open spec fn view(&self) -> BlockChangeRecord {
        *self
    }
}

impl BlockChangeRecord {
    /// A packet of the given fields.
    pub fn new(
        horizontal_position: UnsignedByte,
        y_coordinate: UnsignedByte,
        block_id: VarInt,
    ) -> (r: Self)
        ensures
            r == (BlockChangeRecord { horizontal_position, y_coordinate, block_id }),
    {
        BlockChangeRecord { horizontal_position, y_coordinate, block_id }
    }
}

impl Wire for BlockChangeRecord {
    open spec fn valid(m: BlockChangeRecord) -> bool {
        &&& UnsignedByte::valid(m.horizontal_position)
        &&& UnsignedByte::valid(m.y_coordinate)
        &&& VarInt::valid(m.block_id)
    }

    open spec fn wire(m: BlockChangeRecord) -> Seq<u8> {
        UnsignedByte::wire(m.horizontal_position)
            + UnsignedByte::wire(m.y_coordinate)
            + VarInt::wire(m.block_id)
    }

    open spec fn decoded(s: Seq<u8>) -> Option<(BlockChangeRecord, int)> {
        let r0 = UnsignedByte::decoded(s);
        let n0 = taken(r0);
        let f_horizontal_position = read(r0);
        let r1 = UnsignedByte::decoded(s.skip(n0));
        let n1 = n0 + taken(r1);
        let f_y_coordinate = read(r1);
        let r2 = VarInt::decoded(s.skip(n1));
        let n2 = n1 + taken(r2);
        let f_block_id = read(r2);
        if r0 is Some && r1 is Some && r2 is Some {
            Some(
                (
                    BlockChangeRecord {
                        horizontal_position: f_horizontal_position,
                        y_coordinate: f_y_coordinate,
                        block_id: f_block_id,
                    },
                    n2,
                ),
            )
        } else {
            None
        }
    }

    fn decode(data: &[u8]) -> (r: Option<(Self, usize)>) {
        let (f_horizontal_position, k0) = match <UnsignedByte as Wire>::decode(data) {
            Some(x) => x,
            None => {
                return None;
            },
        };
        proof {
            UnsignedByte::lemma_decoded_bounds(data@);
        }
        let n0 = k0;
        let (f_y_coordinate, k1) = match <UnsignedByte as Wire>::decode(tail(data, n0)) {
            Some(x) => x,
            None => {
                return None;
            },
        };
        proof {
            UnsignedByte::lemma_decoded_bounds(data@.skip(n0 as int));
        }
        let n1 = n0 + k1;
        let (f_block_id, k2) = match <VarInt as Wire>::decode(tail(data, n1)) {
            Some(x) => x,
            None => {
                return None;
            },
        };
        proof {
            VarInt::lemma_decoded_bounds(data@.skip(n1 as int));
        }
        let n2 = n1 + k2;
        Some(
            (
                BlockChangeRecord {
                    horizontal_position: f_horizontal_position,
                    y_coordinate: f_y_coordinate,
                    block_id: f_block_id,
                },
                n2,
            ),
        )
    }

    fn encode(&self, out: &mut Vec<u8>) {
        self.horizontal_position.encode(out);
        self.y_coordinate.encode(out);
        self.block_id.encode(out);
        assert(out@ =~= old(out)@ + Self::wire(self@));
    }

    fn check(&self) -> (b: bool) {
        self.horizontal_position.check()
            && self.y_coordinate.check()
            && self.block_id.check()
    }

    proof fn lemma_decoded_bounds(s: Seq<u8>) {
        let r0 = UnsignedByte::decoded(s);
        UnsignedByte::lemma_decoded_bounds(s);
        let n0 = taken(r0);
        let f_horizontal_position = read(r0);
        let r1 = UnsignedByte::decoded(s.skip(n0));
        UnsignedByte::lemma_decoded_bounds(s.skip(n0));
        let n1 = n0 + taken(r1);
        let f_y_coordinate = read(r1);
        let r2 = VarInt::decoded(s.skip(n1));
        VarInt::lemma_decoded_bounds(s.skip(n1));
        let n2 = n1 + taken(r2);
        let f_block_id = read(r2);
    }

    proof fn lemma_decoded_wire(m: BlockChangeRecord, rest: Seq<u8>) {
        let s = Self::wire(m) + rest;
        let w0 = UnsignedByte::wire(m.horizontal_position);
        let w1 = UnsignedByte::wire(m.y_coordinate);
        let w2 = VarInt::wire(m.block_id);
        let p0 = w0;
        let p1 = p0 + w1;
        let p2 = p1 + w2;
        let t2 = rest;
        let t1 = w2 + t2;
        let t0 = w1 + t1;
        assert(s == p2 + t2);
        lemma_join(p1, w2, t2);
        lemma_join(p0, w1, t1);
        assert(s.skip(0) =~= s);
        let a0 = 0int;
        lemma_field_read::<UnsignedByte>(s, a0, m.horizontal_position, t0);
        let a1 = a0 + w0.len();
        lemma_field_read::<UnsignedByte>(s, a1, m.y_coordinate, t1);
        let a2 = a1 + w1.len();
        lemma_field_read::<VarInt>(s, a2, m.block_id, t2);
    }
}

/// Several blocks of one chunk have changed.
#[derive(Debug, Clone, PartialEq, Eq)]
pub struct MultiBlockChange {
    pub chunk_x: Int,
    pub chunk_z: Int,
    pub records: CountedArray<BlockChangeRecord>,
}

/// What a `MultiBlockChange` holds.
pub struct MultiBlockChangeModel {
    pub chunk_x: Int,
    pub chunk_z: Int,
    pub records: Seq<BlockChangeRecord>,
}

impl View for MultiBlockChange {
    type V = MultiBlockChangeModel;

    open spec fn view(&self) -> MultiBlockChangeModel {
        MultiBlockChangeModel {
            chunk_x: self.chunk_x@,
            chunk_z: self.chunk_z@,
            records: self.records@,
        }
    }
}

impl MultiBlockChange {
    /// A packet of the given fields.
    pub fn new(chunk_x: Int, chunk_z: Int, records: CountedArray<BlockChangeRecord>) -> (r: Self)
        ensures
            r == (MultiBlockChange { chunk_x, chunk_z, records }),
    {
        MultiBlockChange { chunk_x, chunk_z, records }
    }
}

impl Wire for MultiBlockChange {
    open spec fn valid(m: MultiBlockChangeModel) -> bool {
        &&& Int::valid(m.chunk_x)
        &&& Int::valid(m.chunk_z)
        &&& CountedArray::<BlockChangeRecord>::valid(m.records)
    }

    open spec fn wire(m: MultiBlockChangeModel) -> Seq<u8> {
        Int::wire(m.chunk_x)
            + Int::wire(m.chunk_z)
            + CountedArray::<BlockChangeRecord>::wire(m.records)
    }

    open spec fn decoded(s: Seq<u8>) -> Option<(MultiBlockChangeModel, int)> {
        let r0 = Int::decoded(s);
        let n0 = taken(r0);
        let f_chunk_x = read(r0);
        let r1 = Int::decoded(s.skip(n0));
        let n1 = n0 + taken(r1);
        let f_chunk_z = read(r1);
        let r2 = CountedArray::<BlockChangeRecord>::decoded(s.skip(n1));
        let n2 = n1 + taken(r2);
        let f_records = read(r2);
        if r0 is Some && r1 is Some && r2 is Some {
            Some(
                (
                    MultiBlockChangeModel {
                        chunk_x: f_chunk_x,
                        chunk_z: f_chunk_z,
                        records: f_records,
                    },
                    n2,
                ),
            )
        } else {
            None
        }
    }

    fn decode(data: &[u8]) -> (r: Option<(Self, usize)>) {
        let (f_chunk_x, k0) = match <Int as Wire>::decode(data) {
            Some(x) => x,
            None => {
                return None;
            },
        };
        proof {
            Int::lemma_decoded_bounds(data@);
        }
        let n0 = k0;
        let (f_chunk_z, k1) = match <Int as Wire>::decode(tail(data, n0)) {
            Some(x) => x,
            None => {
                return None;
            },
        };
        proof {
            Int::lemma_decoded_bounds(data@.skip(n0 as int));
        }
        let n1 = n0 + k1;
        let (f_records, k2) = match <CountedArray<BlockChangeRecord> as Wire>::decode(
            tail(data, n1),
        ) {
            Some(x) => x,
            None => {
                return None;
            },
        };
        proof {
            CountedArray::<BlockChangeRecord>::lemma_decoded_bounds(data@.skip(n1 as int));
        }
        let n2 = n1 + k2;
        Some((MultiBlockChange { chunk_x: f_chunk_x, chunk_z: f_chunk_z, records: f_records }, n2))
    }

    fn encode(&self, out: &mut Vec<u8>) {
        self.chunk_x.encode(out);
        self.chunk_z.encode(out);
        self.records.encode(out);
        assert(out@ =~= old(out)@ + Self::wire(self@));
    }

    fn check(&self) -> (b: bool) {
        self.chunk_x.check()
            && self.chunk_z.check()
            && self.records.check()
    }

    proof fn lemma_decoded_bounds(s: Seq<u8>) {
        let r0 = Int::decoded(s);
        Int::lemma_decoded_bounds(s);
        let n0 = taken(r0);
        let f_chunk_x = read(r0);
        let r1 = Int::decoded(s.skip(n0));
        Int::lemma_decoded_bounds(s.skip(n0));
        let n1 = n0 + taken(r1);
        let f_chunk_z = read(r1);
        let r2 = CountedArray::<BlockChangeRecord>::decoded(s.skip(n1));
        CountedArray::<BlockChangeRecord>::lemma_decoded_bounds(s.skip(n1));
        let n2 = n1 + taken(r2);
        let f_records = read(r2);
    }

    proof fn lemma_decoded_wire(m: MultiBlockChangeModel, rest: Seq<u8>) {
        let s = Self::wire(m) + rest;
        let w0 = Int::wire(m.chunk_x);
        let w1 = Int::wire(m.chunk_z);
        let w2 = CountedArray::<BlockChangeRecord>::wire(m.records);
        let p0 = w0;
        let p1 = p0 + w1;
        let p2 = p1 + w2;
        let t2 = rest;
        let t1 = w2 + t2;
        let t0 = w1 + t1;
        assert(s == p2 + t2);
        lemma_join(p1, w2, t2);
        lemma_join(p0, w1, t1);
        assert(s.skip(0) =~= s);
        let a0 = 0int;
        lemma_field_read::<Int>(s, a0, m.chunk_x, t0);
        let a1 = a0 + w0.len();
        lemma_field_read::<Int>(s, a1, m.chunk_z, t1);
        let a2 = a1 + w1.len();
        lemma_field_read::<CountedArray<BlockChangeRecord>>(s, a2, m.records, t2);
    }
}

impl ClientboundPacket for MultiBlockChange {
    open spec fn listed() -> IDS {
        IDS::MultiBlockChange
    }

    open spec fn parsed(s: Seq<u8>) -> Option<MultiBlockChangeModel> {
        match Self::decoded(s) {
            Some((m, _)) => Some(m),
            None => None,
        }
    }

    fn parse(data: &[u8]) -> (r: Result<Self, String>) {
        match Self::decode(data) {
            Some((p, _)) => Ok(p),
            None => Err(malformed("MultiBlockChange")),
        }
    }

    fn id() -> (r: IDS) {
        IDS::MultiBlockChange
    }
}

/// Where a chunk column of a bulk packet lies, and which of its sixteen sections
/// are sent: one bit for each, the lowest section first.
#[derive(Debug, Clone, Copy, PartialEq, Eq, Structural)]
pub struct ChunkMeta {
    pub chunk_x: Int,
    pub chunk_z: Int,
    pub primary_bit_mask: UnsignedShort,
}

impl View for ChunkMeta {
    type V = ChunkMeta;

    open spec fn view(&self) -> ChunkMeta {
        *self
    }
}

impl ChunkMeta {
    /// A packet of the given fields.
    pub fn new(chunk_x: Int, chunk_z: Int, primary_bit_mask: UnsignedShort) -> (r: Self)
        ensures
            r == (ChunkMeta { chunk_x, chunk_z, primary_bit_mask }),
    {
        ChunkMeta { chunk_x, chunk_z, primary_bit_mask }
    }
}

impl Wire for ChunkMeta {
    open spec fn valid(m: ChunkMeta) -> bool {
        &&& Int::valid(m.chunk_x)
        &&& Int::valid(m.chunk_z)
        &&& UnsignedShort::valid(m.primary_bit_mask)
    }

    open spec fn wire(m: ChunkMeta) -> Seq<u8> {
        Int::wire(m.chunk_x)
            + Int::wire(m.chunk_z)
            + UnsignedShort::wire(m.primary_bit_mask)
    }

    open spec fn decoded(s: Seq<u8>) -> Option<(ChunkMeta, int)> {
        let r0 = Int::decoded(s);
        let n0 = taken(r0);
        let f_chunk_x = read(r0);
        let r1 = Int::decoded(s.skip(n0));
        let n1 = n0 + taken(r1);
        let f_chunk_z = read(r1);
        let r2 = UnsignedShort::decoded(s.skip(n1));
        let n2 = n1 + taken(r2);
        let f_primary_bit_mask = read(r2);
        if r0 is Some && r1 is Some && r2 is Some {
            Some(
                (
                    ChunkMeta {
                        chunk_x: f_chunk_x,
                        chunk_z: f_chunk_z,
                        primary_bit_mask: f_primary_bit_mask,
                    },
                    n2,
                ),
            )
        } else {
            None
        }
    }

    fn decode(data: &[u8]) -> (r: Option<(Self, usize)>) {
        let (f_chunk_x, k0) = match <Int as Wire>::decode(data) {
            Some(x) => x,
            None => {
                return None;
            },
        };
        proof {
            Int::lemma_decoded_bounds(data@);
        }
        let n0 = k0;
        let (f_chunk_z, k1) = match <Int as Wire>::decode(tail(data, n0)) {
            Some(x) => x,
            None => {
                return None;
            },
        };
        proof {
            Int::lemma_decoded_bounds(data@.skip(n0 as int));
        }
        let n1 = n0 + k1;
        let (f_primary_bit_mask, k2) = match <UnsignedShort as Wire>::decode(tail(data, n1)) {
            Some(x) => x,
            None => {
                return None;
            },
        };
        proof {
            UnsignedShort::lemma_decoded_bounds(data@.skip(n1 as int));
        }
        let n2 = n1 + k2;
        Some(
            (
                ChunkMeta {
                    chunk_x: f_chunk_x,
                    chunk_z: f_chunk_z,
                    primary_bit_mask: f_primary_bit_mask,
                },
                n2,
            ),
        )
    }

    fn encode(&self, out: &mut Vec<u8>) {
        self.chunk_x.encode(out);
        self.chunk_z.encode(out);
        self.primary_bit_mask.encode(out);
        assert(out@ =~= old(out)@ + Self::wire(self@));
    }

    fn check(&self) -> (b: bool) {
        self.chunk_x.check()
            && self.chunk_z.check()
            && self.primary_bit_mask.check()
    }

    proof fn lemma_decoded_bounds(s: Seq<u8>) {
        let r0 = Int::decoded(s);
        Int::lemma_decoded_bounds(s);
        let n0 = taken(r0);
        let f_chunk_x = read(r0);
        let r1 = Int::decoded(s.skip(n0));
        Int::lemma_decoded_bounds(s.skip(n0));
        let n1 = n0 + taken(r1);
        let f_chunk_z = read(r1);
        let r2 = UnsignedShort::decoded(s.skip(n1));
        UnsignedShort::lemma_decoded_bounds(s.skip(n1));
        let n2 = n1 + taken(r2);
        let f_primary_bit_mask = read(r2);
    }

    proof fn lemma_decoded_wire(m: ChunkMeta, rest: Seq<u8>) {
        let s = Self::wire(m) + rest;
        let w0 = Int::wire(m.chunk_x);
        let w1 = Int::wire(m.chunk_z);
        let w2 = UnsignedShort::wire(m.primary_bit_mask);
        let p0 = w0;
        let p1 = p0 + w1;
        let p2 = p1 + w2;
        let t2 = rest;
        let t1 = w2 + t2;
        let t0 = w1 + t1;
        assert(s == p2 + t2);
        lemma_join(p1, w2, t2);
        lemma_join(p0, w1, t1);
        assert(s.skip(0) =~= s);
        let a0 = 0int;
        lemma_field_read::<Int>(s, a0, m.chunk_x, t0);
        let a1 = a0 + w0.len();
        lemma_field_read::<Int>(s, a1, m.chunk_z, t1);
        let a2 = a1 + w1.len();
        lemma_field_read::<UnsignedShort>(s, a2, m.primary_bit_mask, t2);
    }
}

/// A block has changed.
#[derive(Debug, Clone, Copy, PartialEq, Eq, Structural)]
pub struct BlockChange {
    pub location: Position,
    pub block_id: VarInt,
}

impl View for BlockChange {
    type V = BlockChange;

    open spec fn view(&self) -> BlockChange {
        *self
    }
}

impl BlockChange {
    /// A packet of the given fields.
    pub fn new(location: Position, block_id: VarInt) -> (r: Self)
        ensures
            r == (BlockChange { location, block_id }),
    {
        BlockChange { location, block_id }
    }
}

impl Wire for BlockChange {
    open spec fn valid(m: BlockChange) -> bool {
        &&& Position::valid(m.location)
        &&& VarInt::valid(m.block_id)
    }

    open spec fn wire(m: BlockChange) -> Seq<u8> {
        Position::wire(m.location)
            + VarInt::wire(m.block_id)
    }

    open spec fn decoded(s: Seq<u8>) -> Option<(BlockChange, int)> {
        let r0 = Position::decoded(s);
        let n0 = taken(r0);
        let f_location = read(r0);
        let r1 = VarInt::decoded(s.skip(n0));
        let n1 = n0 + taken(r1);
        let f_block_id = read(r1);
        if r0 is Some && r1 is Some {
            Some((BlockChange { location: f_location, block_id: f_block_id }, n1))
        } else {
            None
        }
    }

    fn decode(data: &[u8]) -> (r: Option<(Self, usize)>) {
        let (f_location, k0) = match <Position as Wire>::decode(data) {
            Some(x) => x,
            None => {
                return None;
            },
        };
        proof {
            Position::lemma_decoded_bounds(data@);
        }
        let n0 = k0;
        let (f_block_id, k1) = match <VarInt as Wire>::decode(tail(data, n0)) {
            Some(x) => x,
            None => {
                return None;
            },
        };
        proof {
            VarInt::lemma_decoded_bounds(data@.skip(n0 as int));
        }
        let n1 = n0 + k1;
        Some((BlockChange { location: f_location, block_id: f_block_id }, n1))
    }

    fn encode(&self, out: &mut Vec<u8>) {
        self.location.encode(out);
        self.block_id.encode(out);
        assert(out@ =~= old(out)@ + Self::wire(self@));
    }

    fn check(&self) -> (b: bool) {
        self.location.check()
            && self.block_id.check()
    }

    proof fn lemma_decoded_bounds(s: Seq<u8>) {
        let r0 = Position::decoded(s);
        Position::lemma_decoded_bounds(s);
        let n0 = taken(r0);
        let f_location = read(r0);
        let r1 = VarInt::decoded(s.skip(n0));
        VarInt::lemma_decoded_bounds(s.skip(n0));
        let n1 = n0 + taken(r1);
        let f_block_id = read(r1);
    }

    proof fn lemma_decoded_wire(m: BlockChange, rest: Seq<u8>) {
        let s = Self::wire(m) + rest;
        let w0 = Position::wire(m.location);
        let w1 = VarInt::wire(m.block_id);
        let p0 = w0;
        let p1 = p0 + w1;
        let t1 = rest;
        let t0 = w1 + t1;
        assert(s == p1 + t1);
        lemma_join(p0, w1, t1);
        assert(s.skip(0) =~= s);
        let a0 = 0int;
        lemma_field_read::<Position>(s, a0, m.location, t0);
        let a1 = a0 + w0.len();
        lemma_field_read::<VarInt>(s, a1, m.block_id, t1);
    }
}

impl ClientboundPacket for BlockChange {
    open spec fn listed() -> IDS {
        IDS::BlockChange
    }

    open spec fn parsed(s: Seq<u8>) -> Option<BlockChange> {
        match Self::decoded(s) {
            Some((m, _)) => Some(m),
            None => None,
        }
    }

    fn parse(data: &[u8]) -> (r: Result<Self, String>) {
        match Self::decode(data) {
            Some((p, _)) => Ok(p),
            None => Err(malformed("BlockChange")),
        }
    }

    fn id() -> (r: IDS) {
        IDS::BlockChange
    }
}

/// A block has done something: a chest has opened, a piston has moved.
#[derive(Debug, Clone, Copy, PartialEq, Eq, Structural)]
pub struct BlockAction {
    pub location: Position,
    pub byte_1: UnsignedByte,
    pub byte_2: UnsignedByte,
    pub block_type: VarInt,
}

impl View for BlockAction {
    type V = BlockAction;

    open spec fn view(&self) -> BlockAction {
        *self
    }
}

impl BlockAction {
    /// A packet of the given fields.
    pub fn new(
        location: Position,
        byte_1: UnsignedByte,
        byte_2: UnsignedByte,
        block_type: VarInt,
    ) -> (r: Self)
        ensures
            r == (BlockAction { location, byte_1, byte_2, block_type }),
    {
        BlockAction { location, byte_1, byte_2, block_type }
    }
}

impl Wire for BlockAction {
    open spec fn valid(m: BlockAction) -> bool {
        &&& Position::valid(m.location)
        &&& UnsignedByte::valid(m.byte_1)
        &&& UnsignedByte::valid(m.byte_2)
        &&& VarInt::valid(m.block_type)
    }

    open spec fn wire(m: BlockAction) -> Seq<u8> {
        Position::wire(m.location)
            + UnsignedByte::wire(m.byte_1)
            + UnsignedByte::wire(m.byte_2)
            + VarInt::wire(m.block_type)
    }

    open spec fn decoded(s: Seq<u8>) -> Option<(BlockAction, int)> {
        let r0 = Position::decoded(s);
        let n0 = taken(r0);
        let f_location = read(r0);
        let r1 = UnsignedByte::decoded(s.skip(n0));
        let n1 = n0 + taken(r1);
        let f_byte_1 = read(r1);
        let r2 = UnsignedByte::decoded(s.skip(n1));
        let n2 = n1 + taken(r2);
        let f_byte_2 = read(r2);
        let r3 = VarInt::decoded(s.skip(n2));
        let n3 = n2 + taken(r3);
        let f_block_type = read(r3);
        if r0 is Some && r1 is Some && r2 is Some && r3 is Some {
            Some(
                (
                    BlockAction {
                        location: f_location,
                        byte_1: f_byte_1,
                        byte_2: f_byte_2,
                        block_type: f_block_type,
                    },
                    n3,
                ),
            )
        } else {
            None
        }
    }

    fn decode(data: &[u8]) -> (r: Option<(Self, usize)>) {
        let (f_location, k0) = match <Position as Wire>::decode(data) {
            Some(x) => x,
            None => {
                return None;
            },
        };
        proof {
            Position::lemma_decoded_bounds(data@);
        }
        let n0 = k0;
        let (f_byte_1, k1) = match <UnsignedByte as Wire>::decode(tail(data, n0)) {
            Some(x) => x,
            None => {
                return None;
            },
        };
        proof {
            UnsignedByte::lemma_decoded_bounds(data@.skip(n0 as int));
        }
        let n1 = n0 + k1;
        let (f_byte_2, k2) = match <UnsignedByte as Wire>::decode(tail(data, n1)) {
            Some(x) => x,
            None => {
                return None;
            },
        };
        proof {
            UnsignedByte::lemma_decoded_bounds(data@.skip(n1 as int));
        }
        let n2 = n1 + k2;
        let (f_block_type, k3) = match <VarInt as Wire>::decode(tail(data, n2)) {
            Some(x) => x,
            None => {
                return None;
            },
        };
        proof {
            VarInt::lemma_decoded_bounds(data@.skip(n2 as int));
        }
        let n3 = n2 + k3;
        Some(
            (
                BlockAction {
                    location: f_location,
                    byte_1: f_byte_1,
                    byte_2: f_byte_2,
                    block_type: f_block_type,
                },
                n3,
            ),
        )
    }

    fn encode(&self, out: &mut Vec<u8>) {
        self.location.encode(out);
        self.byte_1.encode(out);
        self.byte_2.encode(out);
        self.block_type.encode(out);
        assert(out@ =~= old(out)@ + Self::wire(self@));
    }

    fn check(&self) -> (b: bool) {
        self.location.check()
            && self.byte_1.check()
            && self.byte_2.check()
            && self.block_type.check()
    }

    proof fn lemma_decoded_bounds(s: Seq<u8>) {
        let r0 = Position::decoded(s);
        Position::lemma_decoded_bounds(s);
        let n0 = taken(r0);
        let f_location = read(r0);
        let r1 = UnsignedByte::decoded(s.skip(n0));
        UnsignedByte::lemma_decoded_bounds(s.skip(n0));
        let n1 = n0 + taken(r1);
        let f_byte_1 = read(r1);
        let r2 = UnsignedByte::decoded(s.skip(n1));
        UnsignedByte::lemma_decoded_bounds(s.skip(n1));
        let n2 = n1 + taken(r2);
        let f_byte_2 = read(r2);
        let r3 = VarInt::decoded(s.skip(n2));
        VarInt::lemma_decoded_bounds(s.skip(n2));
        let n3 = n2 + taken(r3);
        let f_block_type = read(r3);
    }

    proof fn lemma_decoded_wire(m: BlockAction, rest: Seq<u8>) {
        let s = Self::wire(m) + rest;
        let w0 = Position::wire(m.location);
        let w1 = UnsignedByte::wire(m.byte_1);
        let w2 = UnsignedByte::wire(m.byte_2);
        let w3 = VarInt::wire(m.block_type);
        let p0 = w0;
        let p1 = p0 + w1;
        let p2 = p1 + w2;
        let p3 = p2 + w3;
        let t3 = rest;
        let t2 = w3 + t3;
        let t1 = w2 + t2;
        let t0 = w1 + t1;
        assert(s == p3 + t3);
        lemma_join(p2, w3, t3);
        lemma_join(p1, w2, t2);
        lemma_join(p0, w1, t1);
        assert(s.skip(0) =~= s);
        let a0 = 0int;
        lemma_field_read::<Position>(s, a0, m.location, t0);
        let a1 = a0 + w0.len();
        lemma_field_read::<UnsignedByte>(s, a1, m.byte_1, t1);
        let a2 = a1 + w1.len();
        lemma_field_read::<UnsignedByte>(s, a2, m.byte_2, t2);
        let a3 = a2 + w2.len();
        lemma_field_read::<VarInt>(s, a3, m.block_type, t3);
    }
}

impl ClientboundPacket for BlockAction {
    open spec fn listed() -> IDS {
        IDS::BlockAction
    }

    open spec fn parsed(s: Seq<u8>) -> Option<BlockAction> {
        match Self::decoded(s) {
            Some((m, _)) => Some(m),
            None => None,
        }
    }

    fn parse(data: &[u8]) -> (r: Result<Self, String>) {
        match Self::decode(data) {
            Some((p, _)) => Ok(p),
            None => Err(malformed("BlockAction")),
        }
    }

    fn id() -> (r: IDS) {
        IDS::BlockAction
    }
}

/// How far the breaking of a block has got.
#[derive(Debug, Clone, Copy, PartialEq, Eq, Structural)]
pub struct BlockBreakAnimation {
    pub entity_id: VarInt,
    pub location: Position,
    pub destroy_stage: Byte,
}

impl View for BlockBreakAnimation {
    type V = BlockBreakAnimation;

    open spec fn view(&self) -> BlockBreakAnimation {
        *self
    }
}

impl BlockBreakAnimation {
    /// A packet of the given fields.
    pub fn new(entity_id: VarInt, location: Position, destroy_stage: Byte) -> (r: Self)
        ensures
            r == (BlockBreakAnimation { entity_id, location, destroy_stage }),
    {
        BlockBreakAnimation { entity_id, location, destroy_stage }
    }
}

impl Wire for BlockBreakAnimation {
    open spec fn valid(m: BlockBreakAnimation) -> bool {
        &&& VarInt::valid(m.entity_id)
        &&& Position::valid(m.location)
        &&& Byte::valid(m.destroy_stage)
    }

    open spec fn wire(m: BlockBreakAnimation) -> Seq<u8> {
        VarInt::wire(m.entity_id)
            + Position::wire(m.location)
            + Byte::wire(m.destroy_stage)
    }

    open spec fn decoded(s: Seq<u8>) -> Option<(BlockBreakAnimation, int)> {
        let r0 = VarInt::decoded(s);
        let n0 = taken(r0);
        let f_entity_id = read(r0);
        let r1 = Position::decoded(s.skip(n0));
        let n1 = n0 + taken(r1);
        let f_location = read(r1);
        let r2 = Byte::decoded(s.skip(n1));
        let n2 = n1 + taken(r2);
        let f_destroy_stage = read(r2);
        if r0 is Some && r1 is Some && r2 is Some {
            Some(
                (
                    BlockBreakAnimation {
                        entity_id: f_entity_id,
                        location: f_location,
                        destroy_stage: f_destroy_stage,
                    },
                    n2,
                ),
            )
        } else {
            None
        }
    }

    fn decode(data: &[u8]) -> (r: Option<(Self, usize)>) {
        let (f_entity_id, k0) = match <VarInt as Wire>::decode(data) {
            Some(x) => x,
            None => {
                return None;
            },
        };
        proof {
            VarInt::lemma_decoded_bounds(data@);
        }
        let n0 = k0;
        let (f_location, k1) = match <Position as Wire>::decode(tail(data, n0)) {
            Some(x) => x,
            None => {
                return None;
            },
        };
        proof {
            Position::lemma_decoded_bounds(data@.skip(n0 as int));
        }
        let n1 = n0 + k1;
        let (f_destroy_stage, k2) = match <Byte as Wire>::decode(tail(data, n1)) {
            Some(x) => x,
            None => {
                return None;
            },
        };
        proof {
            Byte::lemma_decoded_bounds(data@.skip(n1 as int));
        }
        let n2 = n1 + k2;
        Some(
            (
                BlockBreakAnimation {
                    entity_id: f_entity_id,
                    location: f_location,
                    destroy_stage: f_destroy_stage,
                },
                n2,
            ),
        )
    }

    fn encode(&self, out: &mut Vec<u8>) {
        self.entity_id.encode(out);
        self.location.encode(out);
        self.destroy_stage.encode(out);
        assert(out@ =~= old(out)@ + Self::wire(self@));
    }

    fn check(&self) -> (b: bool) {
        self.entity_id.check()
            && self.location.check()
            && self.destroy_stage.check()
    }

    proof fn lemma_decoded_bounds(s: Seq<u8>) {
        let r0 = VarInt::decoded(s);
        VarInt::lemma_decoded_bounds(s);
        let n0 = taken(r0);
        let f_entity_id = read(r0);
        let r1 = Position::decoded(s.skip(n0));
        Position::lemma_decoded_bounds(s.skip(n0));
        let n1 = n0 + taken(r1);
        let f_location = read(r1);
        let r2 = Byte::decoded(s.skip(n1));
        Byte::lemma_decoded_bounds(s.skip(n1));
        let n2 = n1 + taken(r2);
        let f_destroy_stage = read(r2);
    }

    proof fn lemma_decoded_wire(m: BlockBreakAnimation, rest: Seq<u8>) {
        let s = Self::wire(m) + rest;
        let w0 = VarInt::wire(m.entity_id);
        let w1 = Position::wire(m.location);
        let w2 = Byte::wire(m.destroy_stage);
        let p0 = w0;
        let p1 = p0 + w1;
        let p2 = p1 + w2;
        let t2 = rest;
        let t1 = w2 + t2;
        let t0 = w1 + t1;
        assert(s == p2 + t2);
        lemma_join(p1, w2, t2);
        lemma_join(p0, w1, t1);
        assert(s.skip(0) =~= s);
        let a0 = 0int;
        lemma_field_read::<VarInt>(s, a0, m.entity_id, t0);
        let a1 = a0 + w0.len();
        lemma_field_read::<Position>(s, a1, m.location, t1);
        let a2 = a1 + w1.len();
        lemma_field_read::<Byte>(s, a2, m.destroy_stage, t2);
    }
}

impl ClientboundPacket for BlockBreakAnimation {
    open spec fn listed() -> IDS {
        IDS::BlockBreakAnimation
    }

    open spec fn parsed(s: Seq<u8>) -> Option<BlockBreakAnimation> {
        match Self::decoded(s) {
            Some((m, _)) => Some(m),
            None => None,
        }
    }

    fn parse(data: &[u8]) -> (r: Result<Self, String>) {
        match Self::decode(data) {
            Some((p, _)) => Ok(p),
            None => Err(malformed("BlockBreakAnimation")),
        }
    }

    fn id() -> (r: IDS) {
        IDS::BlockBreakAnimation
    }
}

/// A block that an explosion has destroyed, as offsets from its centre.
#[derive(Debug, Clone, Copy, PartialEq, Eq, Structural)]
pub struct ExplosionRecord {
    pub x: Byte,
    pub y: Byte,
    pub z: Byte,
}

impl View for ExplosionRecord {
    type V = ExplosionRecord;

    open spec fn view(&self) -> ExplosionRecord {
        *self
    }
}

impl ExplosionRecord {
    /// A packet of the given fields.
    pub fn new(x: Byte, y: Byte, z: Byte) -> (r: Self)
        ensures
            r == (ExplosionRecord { x, y, z }),
    {
        ExplosionRecord { x, y, z }
    }
}

impl Wire for ExplosionRecord {
    open spec fn valid(m: ExplosionRecord) -> bool {
        &&& Byte::valid(m.x)
        &&& Byte::valid(m.y)
        &&& Byte::valid(m.z)
    }

    open spec fn wire(m: ExplosionRecord) -> Seq<u8> {
        Byte::wire(m.x)
            + Byte::wire(m.y)
            + Byte::wire(m.z)
    }

    open spec fn decoded(s: Seq<u8>) -> Option<(ExplosionRecord, int)> {
        let r0 = Byte::decoded(s);
        let n0 = taken(r0);
        let f_x = read(r0);
        let r1 = Byte::decoded(s.skip(n0));
        let n1 = n0 + taken(r1);
        let f_y = read(r1);
        let r2 = Byte::decoded(s.skip(n1));
        let n2 = n1 + taken(r2);
        let f_z = read(r2);
        if r0 is Some && r1 is Some && r2 is Some {
            Some((ExplosionRecord { x: f_x, y: f_y, z: f_z }, n2))
        } else {
            None
        }
    }

    fn decode(data: &[u8]) -> (r: Option<(Self, usize)>) {
        let (f_x, k0) = match <Byte as Wire>::decode(data) {
            Some(x) => x,
            None => {
                return None;
            },
        };
        proof {
            Byte::lemma_decoded_bounds(data@);
        }
        let n0 = k0;
        let (f_y, k1) = match <Byte as Wire>::decode(tail(data, n0)) {
            Some(x) => x,
            None => {
                return None;
            },
        };
        proof {
            Byte::lemma_decoded_bounds(data@.skip(n0 as int));
        }
        let n1 = n0 + k1;
        let (f_z, k2) = match <Byte as Wire>::decode(tail(data, n1)) {
            Some(x) => x,
            None => {
                return None;
            },
        };
        proof {
            Byte::lemma_decoded_bounds(data@.skip(n1 as int));
        }
        let n2 = n1 + k2;
        Some((ExplosionRecord { x: f_x, y: f_y, z: f_z }, n2))
    }

    fn encode(&self, out: &mut Vec<u8>) {
        self.x.encode(out);
        self.y.encode(out);
        self.z.encode(out);
        assert(out@ =~= old(out)@ + Self::wire(self@));
    }

    fn check(&self) -> (b: bool) {
        self.x.check()
            && self.y.check()
            && self.z.check()
    }

    proof fn lemma_decoded_bounds(s: Seq<u8>) {
        let r0 = Byte::decoded(s);
        Byte::lemma_decoded_bounds(s);
        let n0 = taken(r0);
        let f_x = read(r0);
        let r1 = Byte::decoded(s.skip(n0));
        Byte::lemma_decoded_bounds(s.skip(n0));
        let n1 = n0 + taken(r1);
        let f_y = read(r1);
        let r2 = Byte::decoded(s.skip(n1));
        Byte::lemma_decoded_bounds(s.skip(n1));
        let n2 = n1 + taken(r2);
        let f_z = read(r2);
    }

    proof fn lemma_decoded_wire(m: ExplosionRecord, rest: Seq<u8>) {
        let s = Self::wire(m) + rest;
        let w0 = Byte::wire(m.x);
        let w1 = Byte::wire(m.y);
        let w2 = Byte::wire(m.z);
        let p0 = w0;
        let p1 = p0 + w1;
        let p2 = p1 + w2;
        let t2 = rest;
        let t1 = w2 + t2;
        let t0 = w1 + t1;
        assert(s == p2 + t2);
        lemma_join(p1, w2, t2);
        lemma_join(p0, w1, t1);
        assert(s.skip(0) =~= s);
        let a0 = 0int;
        lemma_field_read::<Byte>(s, a0, m.x, t0);
        let a1 = a0 + w0.len();
        lemma_field_read::<Byte>(s, a1, m.y, t1);
        let a2 = a1 + w1.len();
        lemma_field_read::<Byte>(s, a2, m.z, t2);
    }
}

/// An explosion. The destroyed blocks are counted by an `Int`.
#[derive(Debug, Clone, PartialEq, Eq)]
pub struct Explosion {
    pub x: Float,
    pub y: Float,
    pub z: Float,
    pub radius: Float,
    pub records: IntCountedArray<ExplosionRecord>,
    pub player_motion_x: Float,
    pub player_motion_y: Float,
    pub player_motion_z: Float,
}

/// What a `Explosion` holds.
pub struct ExplosionModel {
    pub x: Float,
    pub y: Float,
    pub z: Float,
    pub radius: Float,
    pub records: Seq<ExplosionRecord>,
    pub player_motion_x: Float,
    pub player_motion_y: Float,
    pub player_motion_z: Float,
}

impl View for Explosion {
    type V = ExplosionModel;

    open spec fn view(&self) -> ExplosionModel {
        ExplosionModel {
            x: self.x@,
            y: self.y@,
            z: self.z@,
            radius: self.radius@,
            records: self.records@,
            player_motion_x: self.player_motion_x@,
            player_motion_y: self.player_motion_y@,
            player_motion_z: self.player_motion_z@,
        }
    }
}

impl Explosion {
    /// A packet of the given fields.
    pub fn new(
        x: Float,
        y: Float,
        z: Float,
        radius: Float,
        records: IntCountedArray<ExplosionRecord>,
        player_motion_x: Float,
        player_motion_y: Float,
        player_motion_z: Float,
    ) -> (r: Self)
        ensures
            r == (Explosion {
                x,
                y,
                z,
                radius,
                records,
                player_motion_x,
                player_motion_y,
                player_motion_z,
            }),
    {
        Explosion {
            x,
            y,
            z,
            radius,
            records,
            player_motion_x,
            player_motion_y,
            player_motion_z,
        }
    }
}

impl Wire for Explosion {
    open spec fn valid(m: ExplosionModel) -> bool {
        &&& Float::valid(m.x)
        &&& Float::valid(m.y)
        &&& Float::valid(m.z)
        &&& Float::valid(m.radius)
        &&& IntCountedArray::<ExplosionRecord>::valid(m.records)
        &&& Float::valid(m.player_motion_x)
        &&& Float::valid(m.player_motion_y)
        &&& Float::valid(m.player_motion_z)
    }

    open spec fn wire(m: ExplosionModel) -> Seq<u8> {
        Float::wire(m.x)
            + Float::wire(m.y)
            + Float::wire(m.z)
            + Float::wire(m.radius)
            + IntCountedArray::<ExplosionRecord>::wire(m.records)
            + Float::wire(m.player_motion_x)
            + Float::wire(m.player_motion_y)
            + Float::wire(m.player_motion_z)
    }

    open spec fn decoded(s: Seq<u8>) -> Option<(ExplosionModel, int)> {
        let r0 = Float::decoded(s);
        let n0 = taken(r0);
        let f_x = read(r0);
        let r1 = Float::decoded(s.skip(n0));
        let n1 = n0 + taken(r1);
        let f_y = read(r1);
        let r2 = Float::decoded(s.skip(n1));
        let n2 = n1 + taken(r2);
        let f_z = read(r2);
        let r3 = Float::decoded(s.skip(n2));
        let n3 = n2 + taken(r3);
        let f_radius = read(r3);
        let r4 = IntCountedArray::<ExplosionRecord>::decoded(s.skip(n3));
        let n4 = n3 + taken(r4);
        let f_records = read(r4);
        let r5 = Float::decoded(s.skip(n4));
        let n5 = n4 + taken(r5);
        let f_player_motion_x = read(r5);
        let r6 = Float::decoded(s.skip(n5));
        let n6 = n5 + taken(r6);
        let f_player_motion_y = read(r6);
        let r7 = Float::decoded(s.skip(n6));
        let n7 = n6 + taken(r7);
        let f_player_motion_z = read(r7);
        if r0 is Some && r1 is Some && r2 is Some && r3 is Some && r4 is Some && r5 is Some
            && r6 is Some && r7 is Some {
            Some(
                (
                    ExplosionModel {
                        x: f_x,
                        y: f_y,
                        z: f_z,
                        radius: f_radius,
                        records: f_records,
                        player_motion_x: f_player_motion_x,
                        player_motion_y: f_player_motion_y,
                        player_motion_z: f_player_motion_z,
                    },
                    n7,
                ),
            )
        } else {
            None
        }
    }

    fn decode(data: &[u8]) -> (r: Option<(Self, usize)>) {
        let (f_x, k0) = match <Float as Wire>::decode(data) {
            Some(x) => x,
            None => {
                return None;
            },
        };
        proof {
            Float::lemma_decoded_bounds(data@);
        }
        let n0 = k0;
        let (f_y, k1) = match <Float as Wire>::decode(tail(data, n0)) {
            Some(x) => x,
            None => {
                return None;
            },
        };
        proof {
            Float::lemma_decoded_bounds(data@.skip(n0 as int));
        }
        let n1 = n0 + k1;
        let (f_z, k2) = match <Float as Wire>::decode(tail(data, n1)) {
            Some(x) => x,
            None => {
                return None;
            },
        };
        proof {
            Float::lemma_decoded_bounds(data@.skip(n1 as int));
        }
        let n2 = n1 + k2;
        let (f_radius, k3) = match <Float as Wire>::decode(tail(data, n2)) {
            Some(x) => x,
            None => {
                return None;
            },
        };
        proof {
            Float::lemma_decoded_bounds(data@.skip(n2 as int));
        }
        let n3 = n2 + k3;
        let (f_records, k4) = match <IntCountedArray<ExplosionRecord> as Wire>::decode(
            tail(data, n3),
        ) {
            Some(x) => x,
            None => {
                return None;
            },
        };
        proof {
            IntCountedArray::<ExplosionRecord>::lemma_decoded_bounds(data@.skip(n3 as int));
        }
        let n4 = n3 + k4;
        let (f_player_motion_x, k5) = match <Float as Wire>::decode(tail(data, n4)) {
            Some(x) => x,
            None => {
                return None;
            },
        };
        proof {
            Float::lemma_decoded_bounds(data@.skip(n4 as int));
        }
        let n5 = n4 + k5;
        let (f_player_motion_y, k6) = match <Float as Wire>::decode(tail(data, n5)) {
            Some(x) => x,
            None => {
                return None;
            },
        };
        proof {
            Float::lemma_decoded_bounds(data@.skip(n5 as int));
        }
        let n6 = n5 + k6;
        let (f_player_motion_z, k7) = match <Float as Wire>::decode(tail(data, n6)) {
            Some(x) => x,
            None => {
                return None;
            },
        };
        proof {
            Float::lemma_decoded_bounds(data@.skip(n6 as int));
        }
        let n7 = n6 + k7;
        Some(
            (
                Explosion {
                    x: f_x,
                    y: f_y,
                    z: f_z,
                    radius: f_radius,
                    records: f_records,
                    player_motion_x: f_player_motion_x,
                    player_motion_y: f_player_motion_y,
                    player_motion_z: f_player_motion_z,
                },
                n7,
            ),
        )
    }

    fn encode(&self, out: &mut Vec<u8>) {
        self.x.encode(out);
        self.y.encode(out);
        self.z.encode(out);
        self.radius.encode(out);
        self.records.encode(out);
        self.player_motion_x.encode(out);
        self.player_motion_y.encode(out);
        self.player_motion_z.encode(out);
        assert(out@ =~= old(out)@ + Self::wire(self@));
    }

    fn check(&self) -> (b: bool) {
        self.x.check()
            && self.y.check()
            && self.z.check()
            && self.radius.check()
            && self.records.check()
            && self.player_motion_x.check()
            && self.player_motion_y.check()
            && self.player_motion_z.check()
    }

    proof fn lemma_decoded_bounds(s: Seq<u8>) {
        let r0 = Float::decoded(s);
        Float::lemma_decoded_bounds(s);
        let n0 = taken(r0);
        let f_x = read(r0);
        let r1 = Float::decoded(s.skip(n0));
        Float::lemma_decoded_bounds(s.skip(n0));
        let n1 = n0 + taken(r1);
        let f_y = read(r1);
        let r2 = Float::decoded(s.skip(n1));
        Float::lemma_decoded_bounds(s.skip(n1));
        let n2 = n1 + taken(r2);
        let f_z = read(r2);
        let r3 = Float::decoded(s.skip(n2));
        Float::lemma_decoded_bounds(s.skip(n2));
        let n3 = n2 + taken(r3);
        let f_radius = read(r3);
        let r4 = IntCountedArray::<ExplosionRecord>::decoded(s.skip(n3));
        IntCountedArray::<ExplosionRecord>::lemma_decoded_bounds(s.skip(n3));
        let n4 = n3 + taken(r4);
        let f_records = read(r4);
        let r5 = Float::decoded(s.skip(n4));
        Float::lemma_decoded_bounds(s.skip(n4));
        let n5 = n4 + taken(r5);
        let f_player_motion_x = read(r5);
        let r6 = Float::decoded(s.skip(n5));
        Float::lemma_decoded_bounds(s.skip(n5));
        let n6 = n5 + taken(r6);
        let f_player_motion_y = read(r6);
        let r7 = Float::decoded(s.skip(n6));
        Float::lemma_decoded_bounds(s.skip(n6));
        let n7 = n6 + taken(r7);
        let f_player_motion_z = read(r7);
    }

    proof fn lemma_decoded_wire(m: ExplosionModel, rest: Seq<u8>) {
        let s = Self::wire(m) + rest;
        let w0 = Float::wire(m.x);
        let w1 = Float::wire(m.y);
        let w2 = Float::wire(m.z);
        let w3 = Float::wire(m.radius);
        let w4 = IntCountedArray::<ExplosionRecord>::wire(m.records);
        let w5 = Float::wire(m.player_motion_x);
        let w6 = Float::wire(m.player_motion_y);
        let w7 = Float::wire(m.player_motion_z);
        let p0 = w0;
        let p1 = p0 + w1;
        let p2 = p1 + w2;
        let p3 = p2 + w3;
        let p4 = p3 + w4;
        let p5 = p4 + w5;
        let p6 = p5 + w6;
        let p7 = p6 + w7;
        let t7 = rest;
        let t6 = w7 + t7;
        let t5 = w6 + t6;
        let t4 = w5 + t5;
        let t3 = w4 + t4;
        let t2 = w3 + t3;
        let t1 = w2 + t2;
        let t0 = w1 + t1;
        assert(s == p7 + t7);
        lemma_join(p6, w7, t7);
        lemma_join(p5, w6, t6);
        lemma_join(p4, w5, t5);
        lemma_join(p3, w4, t4);
        lemma_join(p2, w3, t3);
        lemma_join(p1, w2, t2);
        lemma_join(p0, w1, t1);
        assert(s.skip(0) =~= s);
        let a0 = 0int;
        lemma_field_read::<Float>(s, a0, m.x, t0);
        let a1 = a0 + w0.len();
        lemma_field_read::<Float>(s, a1, m.y, t1);
        let a2 = a1 + w1.len();
        lemma_field_read::<Float>(s, a2, m.z, t2);
        let a3 = a2 + w2.len();
        lemma_field_read::<Float>(s, a3, m.radius, t3);
        let a4 = a3 + w3.len();
        lemma_field_read::<IntCountedArray<ExplosionRecord>>(s, a4, m.records, t4);
        let a5 = a4 + w4.len();
        lemma_field_read::<Float>(s, a5, m.player_motion_x, t5);
        let a6 = a5 + w5.len();
        lemma_field_read::<Float>(s, a6, m.player_motion_y, t6);
        let a7 = a6 + w6.len();
        lemma_field_read::<Float>(s, a7, m.player_motion_z, t7);
    }
}

impl ClientboundPacket for Explosion {
    open spec fn listed() -> IDS {
        IDS::Explosion
    }

    open spec fn parsed(s: Seq<u8>) -> Option<ExplosionModel> {
        match Self::decoded(s) {
            Some((m, _)) => Some(m),
            None => None,
        }
    }

    fn parse(data: &[u8]) -> (r: Result<Self, String>) {
        match Self::decode(data) {
            Some((p, _)) => Ok(p),
            None => Err(malformed("Explosion")),
        }
    }

    fn id() -> (r: IDS) {
        IDS::Explosion
    }
}

/// A sound or particle effect at a block.
#[derive(Debug, Clone, Copy, PartialEq, Eq, Structural)]
pub struct Effect {
    pub effect_id: Int,
    pub location: Position,
    pub data: Int,
    pub disable_relative_volume: Boolean,
}

impl View for Effect {
    type V = Effect;

    open spec fn view(&self) -> Effect {
        *self
    }
}

impl Effect {
    /// A packet of the given fields.
    pub fn new(
        effect_id: Int,
        location: Position,
        data: Int,
        disable_relative_volume: Boolean,
    ) -> (r: Self)
        ensures
            r == (Effect { effect_id, location, data, disable_relative_volume }),
    {
        Effect { effect_id, location, data, disable_relative_volume }
    }
}

impl Wire for Effect {
    open spec fn valid(m: Effect) -> bool {
        &&& Int::valid(m.effect_id)
        &&& Position::valid(m.location)
        &&& Int::valid(m.data)
        &&& Boolean::valid(m.disable_relative_volume)
    }

    open spec fn wire(m: Effect) -> Seq<u8> {
        Int::wire(m.effect_id)
            + Position::wire(m.location)
            + Int::wire(m.data)
            + Boolean::wire(m.disable_relative_volume)
    }

    open spec fn decoded(s: Seq<u8>) -> Option<(Effect, int)> {
        let r0 = Int::decoded(s);
        let n0 = taken(r0);
        let f_effect_id = read(r0);
        let r1 = Position::decoded(s.skip(n0));
        let n1 = n0 + taken(r1);
        let f_location = read(r1);
        let r2 = Int::decoded(s.skip(n1));
        let n2 = n1 + taken(r2);
        let f_data = read(r2);
        let r3 = Boolean::decoded(s.skip(n2));
        let n3 = n2 + taken(r3);
        let f_disable_relative_volume = read(r3);
        if r0 is Some && r1 is Some && r2 is Some && r3 is Some {
            Some(
                (
                    Effect {
                        effect_id: f_effect_id,
                        location: f_location,
                        data: f_data,
                        disable_relative_volume: f_disable_relative_volume,
                    },
                    n3,
                ),
            )
        } else {
            None
        }
    }

    fn decode(data: &[u8]) -> (r: Option<(Self, usize)>) {
        let (f_effect_id, k0) = match <Int as Wire>::decode(data) {
            Some(x) => x,
            None => {
                return None;
            },
        };
        proof {
            Int::lemma_decoded_bounds(data@);
        }
        let n0 = k0;
        let (f_location, k1) = match <Position as Wire>::decode(tail(data, n0)) {
            Some(x) => x,
            None => {
                return None;
            },
        };
        proof {
            Position::lemma_decoded_bounds(data@.skip(n0 as int));
        }
        let n1 = n0 + k1;
        let (f_data, k2) = match <Int as Wire>::decode(tail(data, n1)) {
            Some(x) => x,
            None => {
                return None;
            },
        };
        proof {
            Int::lemma_decoded_bounds(data@.skip(n1 as int));
        }
        let n2 = n1 + k2;
        let (f_disable_relative_volume, k3) = match <Boolean as Wire>::decode(tail(data, n2)) {
            Some(x) => x,
            None => {
                return None;
            },
        };
        proof {
            Boolean::lemma_decoded_bounds(data@.skip(n2 as int));
        }
        let n3 = n2 + k3;
        Some(
            (
                Effect {
                    effect_id: f_effect_id,
                    location: f_location,
                    data: f_data,
                    disable_relative_volume: f_disable_relative_volume,
                },
                n3,
            ),
        )
    }

    fn encode(&self, out: &mut Vec<u8>) {
        self.effect_id.encode(out);
        self.location.encode(out);
        self.data.encode(out);
        self.disable_relative_volume.encode(out);
        assert(out@ =~= old(out)@ + Self::wire(self@));
    }

    fn check(&self) -> (b: bool) {
        self.effect_id.check()
            && self.location.check()
            && self.data.check()
            && self.disable_relative_volume.check()
    }

    proof fn lemma_decoded_bounds(s: Seq<u8>) {
        let r0 = Int::decoded(s);
        Int::lemma_decoded_bounds(s);
        let n0 = taken(r0);
        let f_effect_id = read(r0);
        let r1 = Position::decoded(s.skip(n0));
        Position::lemma_decoded_bounds(s.skip(n0));
        let n1 = n0 + taken(r1);
        let f_location = read(r1);
        let r2 = Int::decoded(s.skip(n1));
        Int::lemma_decoded_bounds(s.skip(n1));
        let n2 = n1 + taken(r2);
        let f_data = read(r2);
        let r3 = Boolean::decoded(s.skip(n2));
        Boolean::lemma_decoded_bounds(s.skip(n2));
        let n3 = n2 + taken(r3);
        let f_disable_relative_volume = read(r3);
    }

    proof fn lemma_decoded_wire(m: Effect, rest: Seq<u8>) {
        let s = Self::wire(m) + rest;
        let w0 = Int::wire(m.effect_id);
        let w1 = Position::wire(m.location);
        let w2 = Int::wire(m.data);
        let w3 = Boolean::wire(m.disable_relative_volume);
        let p0 = w0;
        let p1 = p0 + w1;
        let p2 = p1 + w2;
        let p3 = p2 + w3;
        let t3 = rest;
        let t2 = w3 + t3;
        let t1 = w2 + t2;
        let t0 = w1 + t1;
        assert(s == p3 + t3);
        lemma_join(p2, w3, t3);
        lemma_join(p1, w2, t2);
        lemma_join(p0, w1, t1);
        assert(s.skip(0) =~= s);
        let a0 = 0int;
        lemma_field_read::<Int>(s, a0, m.effect_id, t0);
        let a1 = a0 + w0.len();
        lemma_field_read::<Position>(s, a1, m.location, t1);
        let a2 = a1 + w1.len();
        lemma_field_read::<Int>(s, a2, m.data, t2);
        let a3 = a2 + w2.len();
        lemma_field_read::<Boolean>(s, a3, m.disable_relative_volume, t3);
    }
}

impl ClientboundPacket for Effect {
    open spec fn listed() -> IDS {
        IDS::Effect
    }

    open spec fn parsed(s: Seq<u8>) -> Option<Effect> {
        match Self::decoded(s) {
            Some((m, _)) => Some(m),
            None => None,
        }
    }

    fn parse(data: &[u8]) -> (r: Result<Self, String>) {
        match Self::decode(data) {
            Some((p, _)) => Ok(p),
            None => Err(malformed("Effect")),
        }
    }

    fn id() -> (r: IDS) {
        IDS::Effect
    }
}

/// A named sound at a place.
#[derive(Debug, Clone, PartialEq, Eq)]
pub struct SoundEffect {
    pub sound_name: VarString,
    pub effect_position_x: Int,
    pub effect_position_y: Int,
    pub effect_position_z: Int,
    pub volume: Float,
    pub pitch: UnsignedByte,
}

/// What a `SoundEffect` holds.
pub struct SoundEffectModel {
    pub sound_name: Seq<char>,
    pub effect_position_x: Int,
    pub effect_position_y: Int,
    pub effect_position_z: Int,
    pub volume: Float,
    pub pitch: UnsignedByte,
}

impl View for SoundEffect {
    type V = SoundEffectModel;

    open spec fn view(&self) -> SoundEffectModel {
        SoundEffectModel {
            sound_name: self.sound_name@,
            effect_position_x: self.effect_position_x@,
            effect_position_y: self.effect_position_y@,
            effect_position_z: self.effect_position_z@,
            volume: self.volume@,
            pitch: self.pitch@,
        }
    }
}

impl SoundEffect {
    /// A packet of the given fields.
    pub fn new(
        sound_name: VarString,
        effect_position_x: Int,
        effect_position_y: Int,
        effect_position_z: Int,
        volume: Float,
        pitch: UnsignedByte,
    ) -> (r: Self)
        ensures
            r == (SoundEffect {
                sound_name,
                effect_position_x,
                effect_position_y,
                effect_position_z,
                volume,
                pitch,
            }),
    {
        SoundEffect {
            sound_name,
            effect_position_x,
            effect_position_y,
            effect_position_z,
            volume,
            pitch,
        }
    }
}

impl Wire for SoundEffect {
    open spec fn valid(m: SoundEffectModel) -> bool {
        &&& VarString::valid(m.sound_name)
        &&& Int::valid(m.effect_position_x)
        &&& Int::valid(m.effect_position_y)
        &&& Int::valid(m.effect_position_z)
        &&& Float::valid(m.volume)
        &&& UnsignedByte::valid(m.pitch)
    }

    open spec fn wire(m: SoundEffectModel) -> Seq<u8> {
        VarString::wire(m.sound_name)
            + Int::wire(m.effect_position_x)
            + Int::wire(m.effect_position_y)
            + Int::wire(m.effect_position_z)
            + Float::wire(m.volume)
            + UnsignedByte::wire(m.pitch)
    }

    open spec fn decoded(s: Seq<u8>) -> Option<(SoundEffectModel, int)> {
        let r0 = VarString::decoded(s);
        let n0 = taken(r0);
        let f_sound_name = read(r0);
        let r1 = Int::decoded(s.skip(n0));
        let n1 = n0 + taken(r1);
        let f_effect_position_x = read(r1);
        let r2 = Int::decoded(s.skip(n1));
        let n2 = n1 + taken(r2);
        let f_effect_position_y = read(r2);
        let r3 = Int::decoded(s.skip(n2));
        let n3 = n2 + taken(r3);
        let f_effect_position_z = read(r3);
        let r4 = Float::decoded(s.skip(n3));
        let n4 = n3 + taken(r4);
        let f_volume = read(r4);
        let r5 = UnsignedByte::decoded(s.skip(n4));
        let n5 = n4 + taken(r5);
        let f_pitch = read(r5);
        if r0 is Some && r1 is Some && r2 is Some && r3 is Some && r4 is Some && r5 is Some {
            Some(
                (
                    SoundEffectModel {
                        sound_name: f_sound_name,
                        effect_position_x: f_effect_position_x,
                        effect_position_y: f_effect_position_y,
                        effect_position_z: f_effect_position_z,
                        volume: f_volume,
                        pitch: f_pitch,
                    },
                    n5,
                ),
            )
        } else {
            None
        }
    }

    fn decode(data: &[u8]) -> (r: Option<(Self, usize)>) {
        let (f_sound_name, k0) = match <VarString as Wire>::decode(data) {
            Some(x) => x,
            None => {
                return None;
            },
        };
        proof {
            VarString::lemma_decoded_bounds(data@);
        }
        let n0 = k0;
        let (f_effect_position_x, k1) = match <Int as Wire>::decode(tail(data, n0)) {
            Some(x) => x,
            None => {
                return None;
            },
        };
        proof {
            Int::lemma_decoded_bounds(data@.skip(n0 as int));
        }
        let n1 = n0 + k1;
        let (f_effect_position_y, k2) = match <Int as Wire>::decode(tail(data, n1)) {
            Some(x) => x,
            None => {
                return None;
            },
        };
        proof {
            Int::lemma_decoded_bounds(data@.skip(n1 as int));
        }
        let n2 = n1 + k2;
        let (f_effect_position_z, k3) = match <Int as Wire>::decode(tail(data, n2)) {
            Some(x) => x,
            None => {
                return None;
            },
        };
        proof {
            Int::lemma_decoded_bounds(data@.skip(n2 as int));
        }
        let n3 = n2 + k3;
        let (f_volume, k4) = match <Float as Wire>::decode(tail(data, n3)) {
            Some(x) => x,
            None => {
                return None;
            },
        };
        proof {
            Float::lemma_decoded_bounds(data@.skip(n3 as int));
        }
        let n4 = n3 + k4;
        let (f_pitch, k5) = match <UnsignedByte as Wire>::decode(tail(data, n4)) {
            Some(x) => x,
            None => {
                return None;
            },
        };
        proof {
            UnsignedByte::lemma_decoded_bounds(data@.skip(n4 as int));
        }
        let n5 = n4 + k5;
        Some(
            (
                SoundEffect {
                    sound_name: f_sound_name,
                    effect_position_x: f_effect_position_x,
                    effect_position_y: f_effect_position_y,
                    effect_position_z: f_effect_position_z,
                    volume: f_volume,
                    pitch: f_pitch,
                },
                n5,
            ),
        )
    }

    fn encode(&self, out: &mut Vec<u8>) {
        self.sound_name.encode(out);
        self.effect_position_x.encode(out);
        self.effect_position_y.encode(out);
        self.effect_position_z.encode(out);
        self.volume.encode(out);
        self.pitch.encode(out);
        assert(out@ =~= old(out)@ + Self::wire(self@));
    }

    fn check(&self) -> (b: bool) {
        self.sound_name.check()
            && self.effect_position_x.check()
            && self.effect_position_y.check()
            && self.effect_position_z.check()
            && self.volume.check()
            && self.pitch.check()
    }

    proof fn lemma_decoded_bounds(s: Seq<u8>) {
        let r0 = VarString::decoded(s);
        VarString::lemma_decoded_bounds(s);
        let n0 = taken(r0);
        let f_sound_name = read(r0);
        let r1 = Int::decoded(s.skip(n0));
        Int::lemma_decoded_bounds(s.skip(n0));
        let n1 = n0 + taken(r1);
        let f_effect_position_x = read(r1);
        let r2 = Int::decoded(s.skip(n1));
        Int::lemma_decoded_bounds(s.skip(n1));
        let n2 = n1 + taken(r2);
        let f_effect_position_y = read(r2);
        let r3 = Int::decoded(s.skip(n2));
        Int::lemma_decoded_bounds(s.skip(n2));
        let n3 = n2 + taken(r3);
        let f_effect_position_z = read(r3);
        let r4 = Float::decoded(s.skip(n3));
        Float::lemma_decoded_bounds(s.skip(n3));
        let n4 = n3 + taken(r4);
        let f_volume = read(r4);
        let r5 = UnsignedByte::decoded(s.skip(n4));
        UnsignedByte::lemma_decoded_bounds(s.skip(n4));
        let n5 = n4 + taken(r5);
        let f_pitch = read(r5);
    }

    proof fn lemma_decoded_wire(m: SoundEffectModel, rest: Seq<u8>) {
        let s = Self::wire(m) + rest;
        let w0 = VarString::wire(m.sound_name);
        let w1 = Int::wire(m.effect_position_x);
        let w2 = Int::wire(m.effect_position_y);
        let w3 = Int::wire(m.effect_position_z);
        let w4 = Float::wire(m.volume);
        let w5 = UnsignedByte::wire(m.pitch);
        let p0 = w0;
        let p1 = p0 + w1;
        let p2 = p1 + w2;
        let p3 = p2 + w3;
        let p4 = p3 + w4;
        let p5 = p4 + w5;
        let t5 = rest;
        let t4 = w5 + t5;
        let t3 = w4 + t4;
        let t2 = w3 + t3;
        let t1 = w2 + t2;
        let t0 = w1 + t1;
        assert(s == p5 + t5);
        lemma_join(p4, w5, t5);
        lemma_join(p3, w4, t4);
        lemma_join(p2, w3, t3);
        lemma_join(p1, w2, t2);
        lemma_join(p0, w1, t1);
        assert(s.skip(0) =~= s);
        let a0 = 0int;
        lemma_field_read::<VarString>(s, a0, m.sound_name, t0);
        let a1 = a0 + w0.len();
        lemma_field_read::<Int>(s, a1, m.effect_position_x, t1);
        let a2 = a1 + w1.len();
        lemma_field_read::<Int>(s, a2, m.effect_position_y, t2);
        let a3 = a2 + w2.len();
        lemma_field_read::<Int>(s, a3, m.effect_position_z, t3);
        let a4 = a3 + w3.len();
        lemma_field_read::<Float>(s, a4, m.volume, t4);
        let a5 = a4 + w4.len();
        lemma_field_read::<UnsignedByte>(s, a5, m.pitch, t5);
    }
}

impl ClientboundPacket for SoundEffect {
    open spec fn listed() -> IDS {
        IDS::SoundEffect
    }

    open spec fn parsed(s: Seq<u8>) -> Option<SoundEffectModel> {
        match Self::decoded(s) {
            Some((m, _)) => Some(m),
            None => None,
        }
    }

    fn parse(data: &[u8]) -> (r: Result<Self, String>) {
        match Self::decode(data) {
            Some((p, _)) => Ok(p),
            None => Err(malformed("SoundEffect")),
        }
    }

    fn id() -> (r: IDS) {
        IDS::SoundEffect
    }
}

/// Particles at a place.
#[derive(Debug, Clone, PartialEq, Eq)]
pub struct Particle {
    pub particle_id: Int,
    pub long_distance: Boolean,
    pub x: Float,
    pub y: Float,
    pub z: Float,
    pub offset_x: Float,
    pub offset_y: Float,
    pub offset_z: Float,
    pub particle_data: Float,
    pub particle_count: Int,
    pub data: VarIntArray,
}

/// What a `Particle` holds.
pub struct ParticleModel {
    pub particle_id: Int,
    pub long_distance: Boolean,
    pub x: Float,
    pub y: Float,
    pub z: Float,
    pub offset_x: Float,
    pub offset_y: Float,
    pub offset_z: Float,
    pub particle_data: Float,
    pub particle_count: Int,
    pub data: Seq<VarInt>,
}

impl View for Particle {
    type V = ParticleModel;

    open spec fn view(&self) -> ParticleModel {
        ParticleModel {
            particle_id: self.particle_id@,
            long_distance: self.long_distance@,
            x: self.x@,
            y: self.y@,
            z: self.z@,
            offset_x: self.offset_x@,
            offset_y: self.offset_y@,
            offset_z: self.offset_z@,
            particle_data: self.particle_data@,
            particle_count: self.particle_count@,
            data: self.data@,
        }
    }
}

impl Particle {
    /// A packet of the given fields.
    pub fn new(
        particle_id: Int,
        long_distance: Boolean,
        x: Float,
        y: Float,
        z: Float,
        offset_x: Float,
        offset_y: Float,
        offset_z: Float,
        particle_data: Float,
        particle_count: Int,
        data: VarIntArray,
    ) -> (r: Self)
        ensures
            r == (Particle {
                particle_id,
                long_distance,
                x,
                y,
                z,
                offset_x,
                offset_y,
                offset_z,
                particle_data,
                particle_count,
                data,
            }),
    {
        Particle {
            particle_id,
            long_distance,
            x,
            y,
            z,
            offset_x,
            offset_y,
            offset_z,
            particle_data,
            particle_count,
            data,
        }
    }
}

impl Wire for Particle {
    open spec fn valid(m: ParticleModel) -> bool {
        &&& Int::valid(m.particle_id)
        &&& Boolean::valid(m.long_distance)
        &&& Float::valid(m.x)
        &&& Float::valid(m.y)
        &&& Float::valid(m.z)
        &&& Float::valid(m.offset_x)
        &&& Float::valid(m.offset_y)
        &&& Float::valid(m.offset_z)
        &&& Float::valid(m.particle_data)
        &&& Int::valid(m.particle_count)
        &&& VarIntArray::valid(m.data)
    }

    open spec fn wire(m: ParticleModel) -> Seq<u8> {
        Int::wire(m.particle_id)
            + Boolean::wire(m.long_distance)
            + Float::wire(m.x)
            + Float::wire(m.y)
            + Float::wire(m.z)
            + Float::wire(m.offset_x)
            + Float::wire(m.offset_y)
            + Float::wire(m.offset_z)
            + Float::wire(m.particle_data)
            + Int::wire(m.particle_count)
            + VarIntArray::wire(m.data)
    }

    open spec fn decoded(s: Seq<u8>) -> Option<(ParticleModel, int)> {
        let r0 = Int::decoded(s);
        let n0 = taken(r0);
        let f_particle_id = read(r0);
        let r1 = Boolean::decoded(s.skip(n0));
        let n1 = n0 + taken(r1);
        let f_long_distance = read(r1);
        let r2 = Float::decoded(s.skip(n1));
        let n2 = n1 + taken(r2);
        let f_x = read(r2);
        let r3 = Float::decoded(s.skip(n2));
        let n3 = n2 + taken(r3);
        let f_y = read(r3);
        let r4 = Float::decoded(s.skip(n3));
        let n4 = n3 + taken(r4);
        let f_z = read(r4);
        let r5 = Float::decoded(s.skip(n4));
        let n5 = n4 + taken(r5);
        let f_offset_x = read(r5);
        let r6 = Float::decoded(s.skip(n5));
        let n6 = n5 + taken(r6);
        let f_offset_y = read(r6);
        let r7 = Float::decoded(s.skip(n6));
        let n7 = n6 + taken(r7);
        let f_offset_z = read(r7);
        let r8 = Float::decoded(s.skip(n7));
        let n8 = n7 + taken(r8);
        let f_particle_data = read(r8);
        let r9 = Int::decoded(s.skip(n8));
        let n9 = n8 + taken(r9);
        let f_particle_count = read(r9);
        let r10 = VarIntArray::decoded(s.skip(n9));
        let n10 = n9 + taken(r10);
        let f_data = read(r10);
        if r0 is Some && r1 is Some && r2 is Some && r3 is Some && r4 is Some && r5 is Some
            && r6 is Some && r7 is Some && r8 is Some && r9 is Some && r10 is Some {
            Some(
                (
                    ParticleModel {
                        particle_id: f_particle_id,
                        long_distance: f_long_distance,
                        x: f_x,
                        y: f_y,
                        z: f_z,
                        offset_x: f_offset_x,
                        offset_y: f_offset_y,
                        offset_z: f_offset_z,
                        particle_data: f_particle_data,
                        particle_count: f_particle_count,
                        data: f_data,
                    },
                    n10,
                ),
            )
        } else {
            None
        }
    }

    fn decode(data: &[u8]) -> (r: Option<(Self, usize)>) {
        let (f_particle_id, k0) = match <Int as Wire>::decode(data) {
            Some(x) => x,
            None => {
                return None;
            },
        };
        proof {
            Int::lemma_decoded_bounds(data@);
        }
        let n0 = k0;
        let (f_long_distance, k1) = match <Boolean as Wire>::decode(tail(data, n0)) {
            Some(x) => x,
            None => {
                return None;
            },
        };
        proof {
            Boolean::lemma_decoded_bounds(data@.skip(n0 as int));
        }
        let n1 = n0 + k1;
        let (f_x, k2) = match <Float as Wire>::decode(tail(data, n1)) {
            Some(x) => x,
            None => {
                return None;
            },
        };
        proof {
            Float::lemma_decoded_bounds(data@.skip(n1 as int));
        }
        let n2 = n1 + k2;
        let (f_y, k3) = match <Float as Wire>::decode(tail(data, n2)) {
            Some(x) => x,
            None => {
                return None;
            },
        };
        proof {
            Float::lemma_decoded_bounds(data@.skip(n2 as int));
        }
        let n3 = n2 + k3;
        let (f_z, k4) = match <Float as Wire>::decode(tail(data, n3)) {
            Some(x) => x,
            None => {
                return None;
            },
        };
        proof {
            Float::lemma_decoded_bounds(data@.skip(n3 as int));
        }
        let n4 = n3 + k4;
        let (f_offset_x, k5) = match <Float as Wire>::decode(tail(data, n4)) {
            Some(x) => x,
            None => {
                return None;
            },
        };
        proof {
            Float::lemma_decoded_bounds(data@.skip(n4 as int));
        }
        let n5 = n4 + k5;
        let (f_offset_y, k6) = match <Float as Wire>::decode(tail(data, n5)) {
            Some(x) => x,
            None => {
                return None;
            },
        };
        proof {
            Float::lemma_decoded_bounds(data@.skip(n5 as int));
        }
        let n6 = n5 + k6;
        let (f_offset_z, k7) = match <Float as Wire>::decode(tail(data, n6)) {
            Some(x) => x,
            None => {
                return None;
            },
        };
        proof {
            Float::lemma_decoded_bounds(data@.skip(n6 as int));
        }
        let n7 = n6 + k7;
        let (f_particle_data, k8) = match <Float as Wire>::decode(tail(data, n7)) {
            Some(x) => x,
            None => {
                return None;
            },
        };
        proof {
            Float::lemma_decoded_bounds(data@.skip(n7 as int));
        }
        let n8 = n7 + k8;
        let (f_particle_count, k9) = match <Int as Wire>::decode(tail(data, n8)) {
            Some(x) => x,
            None => {
                return None;
            },
        };
        proof {
            Int::lemma_decoded_bounds(data@.skip(n8 as int));
        }
        let n9 = n8 + k9;
        let (f_data, k10) = match <VarIntArray as Wire>::decode(tail(data, n9)) {
            Some(x) => x,
            None => {
                return None;
            },
        };
        proof {
            VarIntArray::lemma_decoded_bounds(data@.skip(n9 as int));
        }
        let n10 = n9 + k10;
        Some(
            (
                Particle {
                    particle_id: f_particle_id,
                    long_distance: f_long_distance,
                    x: f_x,
                    y: f_y,
                    z: f_z,
                    offset_x: f_offset_x,
                    offset_y: f_offset_y,
                    offset_z: f_offset_z,
                    particle_data: f_particle_data,
                    particle_count: f_particle_count,
                    data: f_data,
                },
                n10,
            ),
        )
    }

    fn encode(&self, out: &mut Vec<u8>) {
        self.particle_id.encode(out);
        self.long_distance.encode(out);
        self.x.encode(out);
        self.y.encode(out);
        self.z.encode(out);
        self.offset_x.encode(out);
        self.offset_y.encode(out);
        self.offset_z.encode(out);
        self.particle_data.encode(out);
        self.particle_count.encode(out);
        self.data.encode(out);
        assert(out@ =~= old(out)@ + Self::wire(self@));
    }

    fn check(&self) -> (b: bool) {
        self.particle_id.check()
            && self.long_distance.check()
            && self.x.check()
            && self.y.check()
            && self.z.check()
            && self.offset_x.check()
            && self.offset_y.check()
            && self.offset_z.check()
            && self.particle_data.check()
            && self.particle_count.check()
            && self.data.check()
    }

    proof fn lemma_decoded_bounds(s: Seq<u8>) {
        let r0 = Int::decoded(s);
        Int::lemma_decoded_bounds(s);
        let n0 = taken(r0);
        let f_particle_id = read(r0);
        let r1 = Boolean::decoded(s.skip(n0));
        Boolean::lemma_decoded_bounds(s.skip(n0));
        let n1 = n0 + taken(r1);
        let f_long_distance = read(r1);
        let r2 = Float::decoded(s.skip(n1));
        Float::lemma_decoded_bounds(s.skip(n1));
        let n2 = n1 + taken(r2);
        let f_x = read(r2);
        let r3 = Float::decoded(s.skip(n2));
        Float::lemma_decoded_bounds(s.skip(n2));
        let n3 = n2 + taken(r3);
        let f_y = read(r3);
        let r4 = Float::decoded(s.skip(n3));
        Float::lemma_decoded_bounds(s.skip(n3));
        let n4 = n3 + taken(r4);
        let f_z = read(r4);
        let r5 = Float::decoded(s.skip(n4));
        Float::lemma_decoded_bounds(s.skip(n4));
        let n5 = n4 + taken(r5);
        let f_offset_x = read(r5);
        let r6 = Float::decoded(s.skip(n5));
        Float::lemma_decoded_bounds(s.skip(n5));
        let n6 = n5 + taken(r6);
        let f_offset_y = read(r6);
        let r7 = Float::decoded(s.skip(n6));
        Float::lemma_decoded_bounds(s.skip(n6));
        let n7 = n6 + taken(r7);
        let f_offset_z = read(r7);
        let r8 = Float::decoded(s.skip(n7));
        Float::lemma_decoded_bounds(s.skip(n7));
        let n8 = n7 + taken(r8);
        let f_particle_data = read(r8);
        let r9 = Int::decoded(s.skip(n8));
        Int::lemma_decoded_bounds(s.skip(n8));
        let n9 = n8 + taken(r9);
        let f_particle_count = read(r9);
        let r10 = VarIntArray::decoded(s.skip(n9));
        VarIntArray::lemma_decoded_bounds(s.skip(n9));
        let n10 = n9 + taken(r10);
        let f_data = read(r10);
    }

    proof fn lemma_decoded_wire(m: ParticleModel, rest: Seq<u8>) {
        let s = Self::wire(m) + rest;
        let w0 = Int::wire(m.particle_id);
        let w1 = Boolean::wire(m.long_distance);
        let w2 = Float::wire(m.x);
        let w3 = Float::wire(m.y);
        let w4 = Float::wire(m.z);
        let w5 = Float::wire(m.offset_x);
        let w6 = Float::wire(m.offset_y);
        let w7 = Float::wire(m.offset_z);
        let w8 = Float::wire(m.particle_data);
        let w9 = Int::wire(m.particle_count);
        let w10 = VarIntArray::wire(m.data);
        let p0 = w0;
        let p1 = p0 + w1;
        let p2 = p1 + w2;
        let p3 = p2 + w3;
        let p4 = p3 + w4;
        let p5 = p4 + w5;
        let p6 = p5 + w6;
        let p7 = p6 + w7;
        let p8 = p7 + w8;
        let p9 = p8 + w9;
        let p10 = p9 + w10;
        let t10 = rest;
        let t9 = w10 + t10;
        let t8 = w9 + t9;
        let t7 = w8 + t8;
        let t6 = w7 + t7;
        let t5 = w6 + t6;
        let t4 = w5 + t5;
        let t3 = w4 + t4;
        let t2 = w3 + t3;
        let t1 = w2 + t2;
        let t0 = w1 + t1;
        assert(s == p10 + t10);
        lemma_join(p9, w10, t10);
        lemma_join(p8, w9, t9);
        lemma_join(p7, w8, t8);
        lemma_join(p6, w7, t7);
        lemma_join(p5, w6, t6);
        lemma_join(p4, w5, t5);
        lemma_join(p3, w4, t4);
        lemma_join(p2, w3, t3);
        lemma_join(p1, w2, t2);
        lemma_join(p0, w1, t1);
        assert(s.skip(0) =~= s);
        let a0 = 0int;
        lemma_field_read::<Int>(s, a0, m.particle_id, t0);
        let a1 = a0 + w0.len();
        lemma_field_read::<Boolean>(s, a1, m.long_distance, t1);
        let a2 = a1 + w1.len();
        lemma_field_read::<Float>(s, a2, m.x, t2);
        let a3 = a2 + w2.len();
        lemma_field_read::<Float>(s, a3, m.y, t3);
        let a4 = a3 + w3.len();
        lemma_field_read::<Float>(s, a4, m.z, t4);
        let a5 = a4 + w4.len();
        lemma_field_read::<Float>(s, a5, m.offset_x, t5);
        let a6 = a5 + w5.len();
        lemma_field_read::<Float>(s, a6, m.offset_y, t6);
        let a7 = a6 + w6.len();
        lemma_field_read::<Float>(s, a7, m.offset_z, t7);
        let a8 = a7 + w7.len();
        lemma_field_read::<Float>(s, a8, m.particle_data, t8);
        let a9 = a8 + w8.len();
        lemma_field_read::<Int>(s, a9, m.particle_count, t9);
        let a10 = a9 + w9.len();
        lemma_field_read::<VarIntArray>(s, a10, m.data, t10);
    }
}

impl ClientboundPacket for Particle {
    open spec fn listed() -> IDS {
        IDS::Particle
    }

    open spec fn parsed(s: Seq<u8>) -> Option<ParticleModel> {
        match Self::decoded(s) {
            Some((m, _)) => Some(m),
            None => None,
        }
    }

    fn parse(data: &[u8]) -> (r: Result<Self, String>) {
        match Self::decode(data) {
            Some((p, _)) => Ok(p),
            None => Err(malformed("Particle")),
        }
    }

    fn id() -> (r: IDS) {
        IDS::Particle
    }
}

/// The state of the game has changed: rain has begun, the game mode is another.
#[derive(Debug, Clone, Copy, PartialEq, Eq, Structural)]
pub struct ChangeGameState {
    pub reason: UnsignedByte,
    pub value: Float,
}

impl View for ChangeGameState {
    type V = ChangeGameState;

    open spec fn view(&self) -> ChangeGameState {
        *self
    }
}

impl ChangeGameState {
    /// A packet of the given fields.
    pub fn new(reason: UnsignedByte, value: Float) -> (r: Self)
        ensures
            r == (ChangeGameState { reason, value }),
    {
        ChangeGameState { reason, value }
    }
}

impl Wire for ChangeGameState {
    open spec fn valid(m: ChangeGameState) -> bool {
        &&& UnsignedByte::valid(m.reason)
        &&& Float::valid(m.value)
    }

    open spec fn wire(m: ChangeGameState) -> Seq<u8> {
        UnsignedByte::wire(m.reason)
            + Float::wire(m.value)
    }

    open spec fn decoded(s: Seq<u8>) -> Option<(ChangeGameState, int)> {
        let r0 = UnsignedByte::decoded(s);
        let n0 = taken(r0);
        let f_reason = read(r0);
        let r1 = Float::decoded(s.skip(n0));
        let n1 = n0 + taken(r1);
        let f_value = read(r1);
        if r0 is Some && r1 is Some {
            Some((ChangeGameState { reason: f_reason, value: f_value }, n1))
        } else {
            None
        }
    }

    fn decode(data: &[u8]) -> (r: Option<(Self, usize)>) {
        let (f_reason, k0) = match <UnsignedByte as Wire>::decode(data) {
            Some(x) => x,
            None => {
                return None;
            },
        };
        proof {
            UnsignedByte::lemma_decoded_bounds(data@);
        }
        let n0 = k0;
        let (f_value, k1) = match <Float as Wire>::decode(tail(data, n0)) {
            Some(x) => x,
            None => {
                return None;
            },
        };
        proof {
            Float::lemma_decoded_bounds(data@.skip(n0 as int));
        }
        let n1 = n0 + k1;
        Some((ChangeGameState { reason: f_reason, value: f_value }, n1))
    }

    fn encode(&self, out: &mut Vec<u8>) {
        self.reason.encode(out);
        self.value.encode(out);
        assert(out@ =~= old(out)@ + Self::wire(self@));
    }

    fn check(&self) -> (b: bool) {
        self.reason.check()
            && self.value.check()
    }

    proof fn lemma_decoded_bounds(s: Seq<u8>) {
        let r0 = UnsignedByte::decoded(s);
        UnsignedByte::lemma_decoded_bounds(s);
        let n0 = taken(r0);
        let f_reason = read(r0);
        let r1 = Float::decoded(s.skip(n0));
        Float::lemma_decoded_bounds(s.skip(n0));
        let n1 = n0 + taken(r1);
        let f_value = read(r1);
    }

    proof fn lemma_decoded_wire(m: ChangeGameState, rest: Seq<u8>) {
        let s = Self::wire(m) + rest;
        let w0 = UnsignedByte::wire(m.reason);
        let w1 = Float::wire(m.value);
        let p0 = w0;
        let p1 = p0 + w1;
        let t1 = rest;
        let t0 = w1 + t1;
        assert(s == p1 + t1);
        lemma_join(p0, w1, t1);
        assert(s.skip(0) =~= s);
        let a0 = 0int;
        lemma_field_read::<UnsignedByte>(s, a0, m.reason, t0);
        let a1 = a0 + w0.len();
        lemma_field_read::<Float>(s, a1, m.value, t1);
    }
}

impl ClientboundPacket for ChangeGameState {
    open spec fn listed() -> IDS {
        IDS::ChangeGameState
    }

    open spec fn parsed(s: Seq<u8>) -> Option<ChangeGameState> {
        match Self::decoded(s) {
            Some((m, _)) => Some(m),
            None => None,
        }
    }

    fn parse(data: &[u8]) -> (r: Result<Self, String>) {
        match Self::decode(data) {
            Some((p, _)) => Ok(p),
            None => Err(malformed("ChangeGameState")),
        }
    }

    fn id() -> (r: IDS) {
        IDS::ChangeGameState
    }
}

/// The text of a sign.
#[derive(Debug, Clone, PartialEq, Eq)]
pub struct UpdateSignClientbound {
    pub location: Position,
    pub line_1: VarString,
    pub line_2: VarString,
    pub line_3: VarString,
    pub line_4: VarString,
}

/// What a `UpdateSignClientbound` holds.
pub struct UpdateSignClientboundModel {
    pub location: Position,
    pub line_1: Seq<char>,
    pub line_2: Seq<char>,
    pub line_3: Seq<char>,
    pub line_4: Seq<char>,
}

impl View for UpdateSignClientbound {
    type V = UpdateSignClientboundModel;

    open spec fn view(&self) -> UpdateSignClientboundModel {
        UpdateSignClientboundModel {
            location: self.location@,
            line_1: self.line_1@,
            line_2: self.line_2@,
            line_3: self.line_3@,
            line_4: self.line_4@,
        }
    }
}

impl UpdateSignClientbound {
    /// A packet of the given fields.
    pub fn new(
        location: Position,
        line_1: VarString,
        line_2: VarString,
        line_3: VarString,
        line_4: VarString,
    ) -> (r: Self)
        ensures
            r == (UpdateSignClientbound { location, line_1, line_2, line_3, line_4 }),
    {
        UpdateSignClientbound { location, line_1, line_2, line_3, line_4 }
    }
}

impl Wire for UpdateSignClientbound {
    open spec fn valid(m: UpdateSignClientboundModel) -> bool {
        &&& Position::valid(m.location)
        &&& VarString::valid(m.line_1)
        &&& VarString::valid(m.line_2)
        &&& VarString::valid(m.line_3)
        &&& VarString::valid(m.line_4)
    }

    open spec fn wire(m: UpdateSignClientboundModel) -> Seq<u8> {
        Position::wire(m.location)
            + VarString::wire(m.line_1)
            + VarString::wire(m.line_2)
            + VarString::wire(m.line_3)
            + VarString::wire(m.line_4)
    }

    open spec fn decoded(s: Seq<u8>) -> Option<(UpdateSignClientboundModel, int)> {
        let r0 = Position::decoded(s);
        let n0 = taken(r0);
        let f_location = read(r0);
        let r1 = VarString::decoded(s.skip(n0));
        let n1 = n0 + taken(r1);
        let f_line_1 = read(r1);
        let r2 = VarString::decoded(s.skip(n1));
        let n2 = n1 + taken(r2);
        let f_line_2 = read(r2);
        let r3 = VarString::decoded(s.skip(n2));
        let n3 = n2 + taken(r3);
        let f_line_3 = read(r3);
        let r4 = VarString::decoded(s.skip(n3));
        let n4 = n3 + taken(r4);
        let f_line_4 = read(r4);
        if r0 is Some && r1 is Some && r2 is Some && r3 is Some && r4 is Some {
            Some(
                (
                    UpdateSignClientboundModel {
                        location: f_location,
                        line_1: f_line_1,
                        line_2: f_line_2,
                        line_3: f_line_3,
                        line_4: f_line_4,
                    },
                    n4,
                ),
            )
        } else {
            None
        }
    }

    fn decode(data: &[u8]) -> (r: Option<(Self, usize)>) {
        let (f_location, k0) = match <Position as Wire>::decode(data) {
            Some(x) => x,
            None => {
                return None;
            },
        };
        proof {
            Position::lemma_decoded_bounds(data@);
        }
        let n0 = k0;
        let (f_line_1, k1) = match <VarString as Wire>::decode(tail(data, n0)) {
            Some(x) => x,
            None => {
                return None;
            },
        };
        proof {
            VarString::lemma_decoded_bounds(data@.skip(n0 as int));
        }
        let n1 = n0 + k1;
        let (f_line_2, k2) = match <VarString as Wire>::decode(tail(data, n1)) {
            Some(x) => x,
            None => {
                return None;
            },
        };
        proof {
            VarString::lemma_decoded_bounds(data@.skip(n1 as int));
        }
        let n2 = n1 + k2;
        let (f_line_3, k3) = match <VarString as Wire>::decode(tail(data, n2)) {
            Some(x) => x,
            None => {
                return None;
            },
        };
        proof {
            VarString::lemma_decoded_bounds(data@.skip(n2 as int));
        }
        let n3 = n2 + k3;
        let (f_line_4, k4) = match <VarString as Wire>::decode(tail(data, n3)) {
            Some(x) => x,
            None => {
                return None;
            },
        };
        proof {
            VarString::lemma_decoded_bounds(data@.skip(n3 as int));
        }
        let n4 = n3 + k4;
        Some(
            (
                UpdateSignClientbound {
                    location: f_location,
                    line_1: f_line_1,
                    line_2: f_line_2,
                    line_3: f_line_3,
                    line_4: f_line_4,
                },
                n4,
            ),
        )
    }

    fn encode(&self, out: &mut Vec<u8>) {
        self.location.encode(out);
        self.line_1.encode(out);
        self.line_2.encode(out);
        self.line_3.encode(out);
        self.line_4.encode(out);
        assert(out@ =~= old(out)@ + Self::wire(self@));
    }

    fn check(&self) -> (b: bool) {
        self.location.check()
            && self.line_1.check()
            && self.line_2.check()
            && self.line_3.check()
            && self.line_4.check()
    }

    proof fn lemma_decoded_bounds(s: Seq<u8>) {
        let r0 = Position::decoded(s);
        Position::lemma_decoded_bounds(s);
        let n0 = taken(r0);
        let f_location = read(r0);
        let r1 = VarString::decoded(s.skip(n0));
        VarString::lemma_decoded_bounds(s.skip(n0));
        let n1 = n0 + taken(r1);
        let f_line_1 = read(r1);
        let r2 = VarString::decoded(s.skip(n1));
        VarString::lemma_decoded_bounds(s.skip(n1));
        let n2 = n1 + taken(r2);
        let f_line_2 = read(r2);
        let r3 = VarString::decoded(s.skip(n2));
        VarString::lemma_decoded_bounds(s.skip(n2));
        let n3 = n2 + taken(r3);
        let f_line_3 = read(r3);
        let r4 = VarString::decoded(s.skip(n3));
        VarString::lemma_decoded_bounds(s.skip(n3));
        let n4 = n3 + taken(r4);
        let f_line_4 = read(r4);
    }

    proof fn lemma_decoded_wire(m: UpdateSignClientboundModel, rest: Seq<u8>) {
        let s = Self::wire(m) + rest;
        let w0 = Position::wire(m.location);
        let w1 = VarString::wire(m.line_1);
        let w2 = VarString::wire(m.line_2);
        let w3 = VarString::wire(m.line_3);
        let w4 = VarString::wire(m.line_4);
        let p0 = w0;
        let p1 = p0 + w1;
        let p2 = p1 + w2;
        let p3 = p2 + w3;
        let p4 = p3 + w4;
        let t4 = rest;
        let t3 = w4 + t4;
        let t2 = w3 + t3;
        let t1 = w2 + t2;
        let t0 = w1 + t1;
        assert(s == p4 + t4);
        lemma_join(p3, w4, t4);
        lemma_join(p2, w3, t3);
        lemma_join(p1, w2, t2);
        lemma_join(p0, w1, t1);
        assert(s.skip(0) =~= s);
        let a0 = 0int;
        lemma_field_read::<Position>(s, a0, m.location, t0);
        let a1 = a0 + w0.len();
        lemma_field_read::<VarString>(s, a1, m.line_1, t1);
        let a2 = a1 + w1.len();
        lemma_field_read::<VarString>(s, a2, m.line_2, t2);
        let a3 = a2 + w2.len();
        lemma_field_read::<VarString>(s, a3, m.line_3, t3);
        let a4 = a3 + w3.len();
        lemma_field_read::<VarString>(s, a4, m.line_4, t4);
    }
}

impl ClientboundPacket for UpdateSignClientbound {
    open spec fn listed() -> IDS {
        IDS::UpdateSignClientbound
    }

    open spec fn parsed(s: Seq<u8>) -> Option<UpdateSignClientboundModel> {
        match Self::decoded(s) {
            Some((m, _)) => Some(m),
            None => None,
        }
    }

    fn parse(data: &[u8]) -> (r: Result<Self, String>) {
        match Self::decode(data) {
            Some((p, _)) => Ok(p),
            None => Err(malformed("UpdateSignClientbound")),
        }
    }

    fn id() -> (r: IDS) {
        IDS::UpdateSignClientbound
    }
}

/// An icon on a map.
#[derive(Debug, Clone, Copy, PartialEq, Eq, Structural)]
pub struct MapIcon {
    pub direction_and_type: Byte,
    pub x: Byte,
    pub z: Byte,
}

impl View for MapIcon {
    type V = MapIcon;

    open spec fn view(&self) -> MapIcon {
        *self
    }
}

impl MapIcon {
    /// A packet of the given fields.
    pub fn new(direction_and_type: Byte, x: Byte, z: Byte) -> (r: Self)
        ensures
            r == (MapIcon { direction_and_type, x, z }),
    {
        MapIcon { direction_and_type, x, z }
    }
}

impl Wire for MapIcon {
    open spec fn valid(m: MapIcon) -> bool {
        &&& Byte::valid(m.direction_and_type)
        &&& Byte::valid(m.x)
        &&& Byte::valid(m.z)
    }

    open spec fn wire(m: MapIcon) -> Seq<u8> {
        Byte::wire(m.direction_and_type)
            + Byte::wire(m.x)
            + Byte::wire(m.z)
    }

    open spec fn decoded(s: Seq<u8>) -> Option<(MapIcon, int)> {
        let r0 = Byte::decoded(s);
        let n0 = taken(r0);
        let f_direction_and_type = read(r0);
        let r1 = Byte::decoded(s.skip(n0));
        let n1 = n0 + taken(r1);
        let f_x = read(r1);
        let r2 = Byte::decoded(s.skip(n1));
        let n2 = n1 + taken(r2);
        let f_z = read(r2);
        if r0 is Some && r1 is Some && r2 is Some {
            Some((MapIcon { direction_and_type: f_direction_and_type, x: f_x, z: f_z }, n2))
        } else {
            None
        }
    }

    fn decode(data: &[u8]) -> (r: Option<(Self, usize)>) {
        let (f_direction_and_type, k0) = match <Byte as Wire>::decode(data) {
            Some(x) => x,
            None => {
                return None;
            },
        };
        proof {
            Byte::lemma_decoded_bounds(data@);
        }
        let n0 = k0;
        let (f_x, k1) = match <Byte as Wire>::decode(tail(data, n0)) {
            Some(x) => x,
            None => {
                return None;
            },
        };
        proof {
            Byte::lemma_decoded_bounds(data@.skip(n0 as int));
        }
        let n1 = n0 + k1;
        let (f_z, k2) = match <Byte as Wire>::decode(tail(data, n1)) {
            Some(x) => x,
            None => {
                return None;
            },
        };
        proof {
            Byte::lemma_decoded_bounds(data@.skip(n1 as int));
        }
        let n2 = n1 + k2;
        Some((MapIcon { direction_and_type: f_direction_and_type, x: f_x, z: f_z }, n2))
    }

    fn encode(&self, out: &mut Vec<u8>) {
        self.direction_and_type.encode(out);
        self.x.encode(out);
        self.z.encode(out);
        assert(out@ =~= old(out)@ + Self::wire(self@));
    }

    fn check(&self) -> (b: bool) {
        self.direction_and_type.check()
            && self.x.check()
            && self.z.check()
    }

    proof fn lemma_decoded_bounds(s: Seq<u8>) {
        let r0 = Byte::decoded(s);
        Byte::lemma_decoded_bounds(s);
        let n0 = taken(r0);
        let f_direction_and_type = read(r0);
        let r1 = Byte::decoded(s.skip(n0));
        Byte::lemma_decoded_bounds(s.skip(n0));
        let n1 = n0 + taken(r1);
        let f_x = read(r1);
        let r2 = Byte::decoded(s.skip(n1));
        Byte::lemma_decoded_bounds(s.skip(n1));
        let n2 = n1 + taken(r2);
        let f_z = read(r2);
    }

    proof fn lemma_decoded_wire(m: MapIcon, rest: Seq<u8>) {
        let s = Self::wire(m) + rest;
        let w0 = Byte::wire(m.direction_and_type);
        let w1 = Byte::wire(m.x);
        let w2 = Byte::wire(m.z);
        let p0 = w0;
        let p1 = p0 + w1;
        let p2 = p1 + w2;
        let t2 = rest;
        let t1 = w2 + t2;
        let t0 = w1 + t1;
        assert(s == p2 + t2);
        lemma_join(p1, w2, t2);
        lemma_join(p0, w1, t1);
        assert(s.skip(0) =~= s);
        let a0 = 0int;
        lemma_field_read::<Byte>(s, a0, m.direction_and_type, t0);
        let a1 = a0 + w0.len();
        lemma_field_read::<Byte>(s, a1, m.x, t1);
        let a2 = a1 + w1.len();
        lemma_field_read::<Byte>(s, a2, m.z, t2);
    }
}

/// A rectangle of a map that has changed, with its colours.
#[derive(Debug, Clone, PartialEq, Eq)]
pub struct MapArea {
    pub rows: Byte,
    pub x: Byte,
    pub z: Byte,
    pub data: ByteArray,
}

/// What a `MapArea` holds.
pub struct MapAreaModel {
    pub rows: Byte,
    pub x: Byte,
    pub z: Byte,
    pub data: Seq<u8>,
}

impl View for MapArea {
    type V = MapAreaModel;

    open spec fn view(&self) -> MapAreaModel {
        MapAreaModel {
            rows: self.rows@,
            x: self.x@,
            z: self.z@,
            data: self.data@,
        }
    }
}

impl MapArea {
    /// A packet of the given fields.
    pub fn new(rows: Byte, x: Byte, z: Byte, data: ByteArray) -> (r: Self)
        ensures
            r == (MapArea { rows, x, z, data }),
    {
        MapArea { rows, x, z, data }
    }
}

impl Wire for MapArea {
    open spec fn valid(m: MapAreaModel) -> bool {
        &&& Byte::valid(m.rows)
        &&& Byte::valid(m.x)
        &&& Byte::valid(m.z)
        &&& ByteArray::valid(m.data)
    }

    open spec fn wire(m: MapAreaModel) -> Seq<u8> {
        Byte::wire(m.rows)
            + Byte::wire(m.x)
            + Byte::wire(m.z)
            + ByteArray::wire(m.data)
    }

    open spec fn decoded(s: Seq<u8>) -> Option<(MapAreaModel, int)> {
        let r0 = Byte::decoded(s);
        let n0 = taken(r0);
        let f_rows = read(r0);
        let r1 = Byte::decoded(s.skip(n0));
        let n1 = n0 + taken(r1);
        let f_x = read(r1);
        let r2 = Byte::decoded(s.skip(n1));
        let n2 = n1 + taken(r2);
        let f_z = read(r2);
        let r3 = ByteArray::decoded(s.skip(n2));
        let n3 = n2 + taken(r3);
        let f_data = read(r3);
        if r0 is Some && r1 is Some && r2 is Some && r3 is Some {
            Some((MapAreaModel { rows: f_rows, x: f_x, z: f_z, data: f_data }, n3))
        } else {
            None
        }
    }

    fn decode(data: &[u8]) -> (r: Option<(Self, usize)>) {
        let (f_rows, k0) = match <Byte as Wire>::decode(data) {
            Some(x) => x,
            None => {
                return None;
            },
        };
        proof {
            Byte::lemma_decoded_bounds(data@);
        }
        let n0 = k0;
        let (f_x, k1) = match <Byte as Wire>::decode(tail(data, n0)) {
            Some(x) => x,
            None => {
                return None;
            },
        };
        proof {
            Byte::lemma_decoded_bounds(data@.skip(n0 as int));
        }
        let n1 = n0 + k1;
        let (f_z, k2) = match <Byte as Wire>::decode(tail(data, n1)) {
            Some(x) => x,
            None => {
                return None;
            },
        };
        proof {
            Byte::lemma_decoded_bounds(data@.skip(n1 as int));
        }
        let n2 = n1 + k2;
        let (f_data, k3) = match <ByteArray as Wire>::decode(tail(data, n2)) {
            Some(x) => x,
            None => {
                return None;
            },
        };
        proof {
            ByteArray::lemma_decoded_bounds(data@.skip(n2 as int));
        }
        let n3 = n2 + k3;
        Some((MapArea { rows: f_rows, x: f_x, z: f_z, data: f_data }, n3))
    }

    fn encode(&self, out: &mut Vec<u8>) {
        self.rows.encode(out);
        self.x.encode(out);
        self.z.encode(out);
        self.data.encode(out);
        assert(out@ =~= old(out)@ + Self::wire(self@));
    }

    fn check(&self) -> (b: bool) {
        self.rows.check()
            && self.x.check()
            && self.z.check()
            && self.data.check()
    }

    proof fn lemma_decoded_bounds(s: Seq<u8>) {
        let r0 = Byte::decoded(s);
        Byte::lemma_decoded_bounds(s);
        let n0 = taken(r0);
        let f_rows = read(r0);
        let r1 = Byte::decoded(s.skip(n0));
        Byte::lemma_decoded_bounds(s.skip(n0));
        let n1 = n0 + taken(r1);
        let f_x = read(r1);
        let r2 = Byte::decoded(s.skip(n1));
        Byte::lemma_decoded_bounds(s.skip(n1));
        let n2 = n1 + taken(r2);
        let f_z = read(r2);
        let r3 = ByteArray::decoded(s.skip(n2));
        ByteArray::lemma_decoded_bounds(s.skip(n2));
        let n3 = n2 + taken(r3);
        let f_data = read(r3);
    }

    proof fn lemma_decoded_wire(m: MapAreaModel, rest: Seq<u8>) {
        let s = Self::wire(m) + rest;
        let w0 = Byte::wire(m.rows);
        let w1 = Byte::wire(m.x);
        let w2 = Byte::wire(m.z);
        let w3 = ByteArray::wire(m.data);
        let p0 = w0;
        let p1 = p0 + w1;
        let p2 = p1 + w2;
        let p3 = p2 + w3;
        let t3 = rest;
        let t2 = w3 + t3;
        let t1 = w2 + t2;
        let t0 = w1 + t1;
        assert(s == p3 + t3);
        lemma_join(p2, w3, t3);
        lemma_join(p1, w2, t2);
        lemma_join(p0, w1, t1);
        assert(s.skip(0) =~= s);
        let a0 = 0int;
        lemma_field_read::<Byte>(s, a0, m.rows, t0);
        let a1 = a0 + w0.len();
        lemma_field_read::<Byte>(s, a1, m.x, t1);
        let a2 = a1 + w1.len();
        lemma_field_read::<Byte>(s, a2, m.z, t2);
        let a3 = a2 + w2.len();
        lemma_field_read::<ByteArray>(s, a3, m.data, t3);
    }
}

/// What a map shows. The changed rectangle is there exactly when `columns` is
/// above zero.
#[derive(Debug, Clone, PartialEq, Eq)]
pub struct MapData {
    pub item_damage: VarInt,
    pub scale: Byte,
    pub icons: CountedArray<MapIcon>,
    pub columns: Byte,
    pub area: Option<MapArea>,
}

/// What a `MapData` holds.
pub struct MapDataModel {
    pub item_damage: VarInt,
    pub scale: Byte,
    pub icons: Seq<MapIcon>,
    pub columns: Byte,
    pub area: Option<MapAreaModel>,
}

impl View for MapData {
    type V = MapDataModel;

    open spec fn view(&self) -> MapDataModel {
        MapDataModel {
            item_damage: self.item_damage@,
            scale: self.scale@,
            icons: self.icons@,
            columns: self.columns@,
            area: match self.area {
                Some(v) => Some(v@),
                None => None,
            },
        }
    }
}

impl MapData {
    /// A packet of the given fields.
    pub fn new(
        item_damage: VarInt,
        scale: Byte,
        icons: CountedArray<MapIcon>,
        columns: Byte,
        area: Option<MapArea>,
    ) -> (r: Self)
        ensures
            r == (MapData { item_damage, scale, icons, columns, area }),
    {
        MapData { item_damage, scale, icons, columns, area }
    }
}

impl Wire for MapData {
    open spec fn valid(m: MapDataModel) -> bool {
        &&& VarInt::valid(m.item_damage)
        &&& Byte::valid(m.scale)
        &&& CountedArray::<MapIcon>::valid(m.icons)
        &&& Byte::valid(m.columns)
        &&& (m.columns.0 > 0) == (m.area is Some)
        &&& m.area matches Some(v) ==> MapArea::valid(v)
    }

    open spec fn wire(m: MapDataModel) -> Seq<u8> {
        VarInt::wire(m.item_damage)
            + Byte::wire(m.scale)
            + CountedArray::<MapIcon>::wire(m.icons)
            + Byte::wire(m.columns)
            + only_if(m.area is Some, MapArea::wire(m.area.unwrap()))
    }

    open spec fn decoded(s: Seq<u8>) -> Option<(MapDataModel, int)> {
        let r0 = VarInt::decoded(s);
        let n0 = taken(r0);
        let f_item_damage = read(r0);
        let r1 = Byte::decoded(s.skip(n0));
        let n1 = n0 + taken(r1);
        let f_scale = read(r1);
        let r2 = CountedArray::<MapIcon>::decoded(s.skip(n1));
        let n2 = n1 + taken(r2);
        let f_icons = read(r2);
        let r3 = Byte::decoded(s.skip(n2));
        let n3 = n2 + taken(r3);
        let f_columns = read(r3);
        let r4 = if f_columns.0 > 0 {
            present(MapArea::decoded(s.skip(n3)))
        } else {
            Some((None, 0))
        };
        let n4 = n3 + taken(r4);
        let f_area = read(r4);
        if r0 is Some && r1 is Some && r2 is Some && r3 is Some && r4 is Some {
            Some(
                (
                    MapDataModel {
                        item_damage: f_item_damage,
                        scale: f_scale,
                        icons: f_icons,
                        columns: f_columns,
                        area: f_area,
                    },
                    n4,
                ),
            )
        } else {
            None
        }
    }

    fn decode(data: &[u8]) -> (r: Option<(Self, usize)>) {
        let (f_item_damage, k0) = match <VarInt as Wire>::decode(data) {
            Some(x) => x,
            None => {
                return None;
            },
        };
        proof {
            VarInt::lemma_decoded_bounds(data@);
        }
        let n0 = k0;
        let (f_scale, k1) = match <Byte as Wire>::decode(tail(data, n0)) {
            Some(x) => x,
            None => {
                return None;
            },
        };
        proof {
            Byte::lemma_decoded_bounds(data@.skip(n0 as int));
        }
        let n1 = n0 + k1;
        let (f_icons, k2) = match <CountedArray<MapIcon> as Wire>::decode(tail(data, n1)) {
            Some(x) => x,
            None => {
                return None;
            },
        };
        proof {
            CountedArray::<MapIcon>::lemma_decoded_bounds(data@.skip(n1 as int));
        }
        let n2 = n1 + k2;
        let (f_columns, k3) = match <Byte as Wire>::decode(tail(data, n2)) {
            Some(x) => x,
            None => {
                return None;
            },
        };
        proof {
            Byte::lemma_decoded_bounds(data@.skip(n2 as int));
        }
        let n3 = n2 + k3;
        let (f_area, k4) = if f_columns.0 > 0 {
            match <MapArea as Wire>::decode(tail(data, n3)) {
                Some((v, k)) => (Some(v), k),
                None => {
                    return None;
                },
            }
        } else {
            (None, 0)
        };
        proof {
            MapArea::lemma_decoded_bounds(data@.skip(n3 as int));
        }
        let n4 = n3 + k4;
        Some(
            (
                MapData {
                    item_damage: f_item_damage,
                    scale: f_scale,
                    icons: f_icons,
                    columns: f_columns,
                    area: f_area,
                },
                n4,
            ),
        )
    }

    fn encode(&self, out: &mut Vec<u8>) {
        self.item_damage.encode(out);
        self.scale.encode(out);
        self.icons.encode(out);
        self.columns.encode(out);
        match &self.area {
            Some(v) => {
                v.encode(out);
            },
            None => {},
        }
        assert(out@ =~= old(out)@ + Self::wire(self@));
    }

    fn check(&self) -> (b: bool) {
        self.item_damage.check()
            && self.scale.check()
            && self.icons.check()
            && self.columns.check()
            && ((self.columns.0 > 0) == self.area.is_some())
            && (match &self.area {
            Some(v) => v.check(),
            None => true,
        })
    }

    proof fn lemma_decoded_bounds(s: Seq<u8>) {
        let r0 = VarInt::decoded(s);
        VarInt::lemma_decoded_bounds(s);
        let n0 = taken(r0);
        let f_item_damage = read(r0);
        let r1 = Byte::decoded(s.skip(n0));
        Byte::lemma_decoded_bounds(s.skip(n0));
        let n1 = n0 + taken(r1);
        let f_scale = read(r1);
        let r2 = CountedArray::<MapIcon>::decoded(s.skip(n1));
        CountedArray::<MapIcon>::lemma_decoded_bounds(s.skip(n1));
        let n2 = n1 + taken(r2);
        let f_icons = read(r2);
        let r3 = Byte::decoded(s.skip(n2));
        Byte::lemma_decoded_bounds(s.skip(n2));
        let n3 = n2 + taken(r3);
        let f_columns = read(r3);
        let r4 = if f_columns.0 > 0 {
            present(MapArea::decoded(s.skip(n3)))
        } else {
            Some((None, 0))
        };
        MapArea::lemma_decoded_bounds(s.skip(n3));
        let n4 = n3 + taken(r4);
        let f_area = read(r4);
    }

    proof fn lemma_decoded_wire(m: MapDataModel, rest: Seq<u8>) {
        let s = Self::wire(m) + rest;
        let w0 = VarInt::wire(m.item_damage);
        let w1 = Byte::wire(m.scale);
        let w2 = CountedArray::<MapIcon>::wire(m.icons);
        let w3 = Byte::wire(m.columns);
        let w4 = only_if(m.area is Some, MapArea::wire(m.area.unwrap()));
        let p0 = w0;
        let p1 = p0 + w1;
        let p2 = p1 + w2;
        let p3 = p2 + w3;
        let p4 = p3 + w4;
        let t4 = rest;
        let t3 = w4 + t4;
        let t2 = w3 + t3;
        let t1 = w2 + t2;
        let t0 = w1 + t1;
        assert(s == p4 + t4);
        lemma_join(p3, w4, t4);
        lemma_join(p2, w3, t3);
        lemma_join(p1, w2, t2);
        lemma_join(p0, w1, t1);
        assert(s.skip(0) =~= s);
        let a0 = 0int;
        lemma_field_read::<VarInt>(s, a0, m.item_damage, t0);
        let a1 = a0 + w0.len();
        lemma_field_read::<Byte>(s, a1, m.scale, t1);
        let a2 = a1 + w1.len();
        lemma_field_read::<CountedArray<MapIcon>>(s, a2, m.icons, t2);
        let a3 = a2 + w2.len();
        lemma_field_read::<Byte>(s, a3, m.columns, t3);
        let a4 = a3 + w3.len();
        match m.area {
            Some(v) => {
                lemma_field_read::<MapArea>(s, a4, v, t4);
            },
            None => {
                assert(w4 + t4 =~= t4);
            },
        }
    }
}

impl ClientboundPacket for MapData {
    open spec fn listed() -> IDS {
        IDS::MapData
    }

    open spec fn parsed(s: Seq<u8>) -> Option<MapDataModel> {
        match Self::decoded(s) {
            Some((m, _)) => Some(m),
            None => None,
        }
    }

    fn parse(data: &[u8]) -> (r: Result<Self, String>) {
        match Self::decode(data) {
            Some((p, _)) => Ok(p),
            None => Err(malformed("MapData")),
        }
    }

    fn id() -> (r: IDS) {
        IDS::MapData
    }
}

/// The NBT tag of a block entity.
#[derive(Debug, Clone, PartialEq, Eq)]
pub struct UpdateBlockEntity {
    pub location: Position,
    pub action: UnsignedByte,
    pub nbt_data: OptionalNbt,
}

/// What a `UpdateBlockEntity` holds.
pub struct UpdateBlockEntityModel {
    pub location: Position,
    pub action: UnsignedByte,
    pub nbt_data: Option<Seq<u8>>,
}

impl View for UpdateBlockEntity {
    type V = UpdateBlockEntityModel;

    open spec fn view(&self) -> UpdateBlockEntityModel {
        UpdateBlockEntityModel {
            location: self.location@,
            action: self.action@,
            nbt_data: self.nbt_data@,
        }
    }
}

impl UpdateBlockEntity {
    /// A packet of the given fields.
    pub fn new(location: Position, action: UnsignedByte, nbt_data: OptionalNbt) -> (r: Self)
        ensures
            r == (UpdateBlockEntity { location, action, nbt_data }),
    {
        UpdateBlockEntity { location, action, nbt_data }
    }
}

impl Wire for UpdateBlockEntity {
    open spec fn valid(m: UpdateBlockEntityModel) -> bool {
        &&& Position::valid(m.location)
        &&& UnsignedByte::valid(m.action)
        &&& OptionalNbt::valid(m.nbt_data)
    }

    open spec fn wire(m: UpdateBlockEntityModel) -> Seq<u8> {
        Position::wire(m.location)
            + UnsignedByte::wire(m.action)
            + OptionalNbt::wire(m.nbt_data)
    }

    open spec fn decoded(s: Seq<u8>) -> Option<(UpdateBlockEntityModel, int)> {
        let r0 = Position::decoded(s);
        let n0 = taken(r0);
        let f_location = read(r0);
        let r1 = UnsignedByte::decoded(s.skip(n0));
        let n1 = n0 + taken(r1);
        let f_action = read(r1);
        let r2 = OptionalNbt::decoded(s.skip(n1));
        let n2 = n1 + taken(r2);
        let f_nbt_data = read(r2);
        if r0 is Some && r1 is Some && r2 is Some {
            Some(
                (
                    UpdateBlockEntityModel {
                        location: f_location,
                        action: f_action,
                        nbt_data: f_nbt_data,
                    },
                    n2,
                ),
            )
        } else {
            None
        }
    }

    fn decode(data: &[u8]) -> (r: Option<(Self, usize)>) {
        let (f_location, k0) = match <Position as Wire>::decode(data) {
            Some(x) => x,
            None => {
                return None;
            },
        };
        proof {
            Position::lemma_decoded_bounds(data@);
        }
        let n0 = k0;
        let (f_action, k1) = match <UnsignedByte as Wire>::decode(tail(data, n0)) {
            Some(x) => x,
            None => {
                return None;
            },
        };
        proof {
            UnsignedByte::lemma_decoded_bounds(data@.skip(n0 as int));
        }
        let n1 = n0 + k1;
        let (f_nbt_data, k2) = match <OptionalNbt as Wire>::decode(tail(data, n1)) {
            Some(x) => x,
            None => {
                return None;
            },
        };
        proof {
            OptionalNbt::lemma_decoded_bounds(data@.skip(n1 as int));
        }
        let n2 = n1 + k2;
        Some(
            (
                UpdateBlockEntity {
                    location: f_location,
                    action: f_action,
                    nbt_data: f_nbt_data,
                },
                n2,
            ),
        )
    }

    fn encode(&self, out: &mut Vec<u8>) {
        self.location.encode(out);
        self.action.encode(out);
        self.nbt_data.encode(out);
        assert(out@ =~= old(out)@ + Self::wire(self@));
    }

    fn check(&self) -> (b: bool) {
        self.location.check()
            && self.action.check()
            && self.nbt_data.check()
    }

    proof fn lemma_decoded_bounds(s: Seq<u8>) {
        let r0 = Position::decoded(s);
        Position::lemma_decoded_bounds(s);
        let n0 = taken(r0);
        let f_location = read(r0);
        let r1 = UnsignedByte::decoded(s.skip(n0));
        UnsignedByte::lemma_decoded_bounds(s.skip(n0));
        let n1 = n0 + taken(r1);
        let f_action = read(r1);
        let r2 = OptionalNbt::decoded(s.skip(n1));
        OptionalNbt::lemma_decoded_bounds(s.skip(n1));
        let n2 = n1 + taken(r2);
        let f_nbt_data = read(r2);
    }

    proof fn lemma_decoded_wire(m: UpdateBlockEntityModel, rest: Seq<u8>) {
        let s = Self::wire(m) + rest;
        let w0 = Position::wire(m.location);
        let w1 = UnsignedByte::wire(m.action);
        let w2 = OptionalNbt::wire(m.nbt_data);
        let p0 = w0;
        let p1 = p0 + w1;
        let p2 = p1 + w2;
        let t2 = rest;
        let t1 = w2 + t2;
        let t0 = w1 + t1;
        assert(s == p2 + t2);
        lemma_join(p1, w2, t2);
        lemma_join(p0, w1, t1);
        assert(s.skip(0) =~= s);
        let a0 = 0int;
        lemma_field_read::<Position>(s, a0, m.location, t0);
        let a1 = a0 + w0.len();
        lemma_field_read::<UnsignedByte>(s, a1, m.action, t1);
        let a2 = a1 + w1.len();
        lemma_field_read::<OptionalNbt>(s, a2, m.nbt_data, t2);
    }
}

impl ClientboundPacket for UpdateBlockEntity {
    open spec fn listed() -> IDS {
        IDS::UpdateBlockEntity
    }

    open spec fn parsed(s: Seq<u8>) -> Option<UpdateBlockEntityModel> {
        match Self::decoded(s) {
            Some((m, _)) => Some(m),
            None => None,
        }
    }

    fn parse(data: &[u8]) -> (r: Result<Self, String>) {
        match Self::decode(data) {
            Some((p, _)) => Ok(p),
            None => Err(malformed("UpdateBlockEntity")),
        }
    }

    fn id() -> (r: IDS) {
        IDS::UpdateBlockEntity
    }
}

/// The client is to open the editor of a sign.
#[derive(Debug, Clone, Copy, PartialEq, Eq, Structural)]
pub struct OpenSignEditor {
    pub location: Position,
}

impl View for OpenSignEditor {
    type V = OpenSignEditor;

    open spec fn view(&self) -> OpenSignEditor {
        *self
    }
}

impl OpenSignEditor {
    /// A packet of the given fields.
    pub fn new(location: Position) -> (r: Self)
        ensures
            r == (OpenSignEditor { location }),
    {
        OpenSignEditor { location }
    }
}

impl Wire for OpenSignEditor {
    open spec fn valid(m: OpenSignEditor) -> bool {
        &&& Position::valid(m.location)
    }

    open spec fn wire(m: OpenSignEditor) -> Seq<u8> {
        Position::wire(m.location)
    }

    open spec fn decoded(s: Seq<u8>) -> Option<(OpenSignEditor, int)> {
        let r0 = Position::decoded(s);
        let n0 = taken(r0);
        let f_location = read(r0);
        if r0 is Some {
            Some((OpenSignEditor { location: f_location }, n0))
        } else {
            None
        }
    }

    fn decode(data: &[u8]) -> (r: Option<(Self, usize)>) {
        let (f_location, k0) = match <Position as Wire>::decode(data) {
            Some(x) => x,
            None => {
                return None;
            },
        };
        proof {
            Position::lemma_decoded_bounds(data@);
        }
        let n0 = k0;
        Some((OpenSignEditor { location: f_location }, n0))
    }

    fn encode(&self, out: &mut Vec<u8>) {
        self.location.encode(out);
        assert(out@ =~= old(out)@ + Self::wire(self@));
    }

    fn check(&self) -> (b: bool) {
        self.location.check()
    }

    proof fn lemma_decoded_bounds(s: Seq<u8>) {
        let r0 = Position::decoded(s);
        Position::lemma_decoded_bounds(s);
        let n0 = taken(r0);
        let f_location = read(r0);
    }

    proof fn lemma_decoded_wire(m: OpenSignEditor, rest: Seq<u8>) {
        let s = Self::wire(m) + rest;
        let w0 = Position::wire(m.location);
        let p0 = w0;
        let t0 = rest;
        assert(s == p0 + t0);
        assert(s.skip(0) =~= s);
        let a0 = 0int;
        lemma_field_read::<Position>(s, a0, m.location, t0);
    }
}

impl ClientboundPacket for OpenSignEditor {
    open spec fn listed() -> IDS {
        IDS::OpenSignEditor
    }

    open spec fn parsed(s: Seq<u8>) -> Option<OpenSignEditor> {
        match Self::decoded(s) {
            Some((m, _)) => Some(m),
            None => None,
        }
    }

    fn parse(data: &[u8]) -> (r: Result<Self, String>) {
        match Self::decode(data) {
            Some((p, _)) => Ok(p),
            None => Err(malformed("OpenSignEditor")),
        }
    }

    fn id() -> (r: IDS) {
        IDS::OpenSignEditor
    }
}

/// The difficulty of the server.
#[derive(Debug, Clone, Copy, PartialEq, Eq, Structural)]
pub struct ServerDifficulty {
    pub difficulty: UnsignedByte,
}

impl View for ServerDifficulty {
    type V = ServerDifficulty;

    open spec fn view(&self) -> ServerDifficulty {
        *self
    }
}

impl ServerDifficulty {
    /// A packet of the given fields.
    pub fn new(difficulty: UnsignedByte) -> (r: Self)
        ensures
            r == (ServerDifficulty { difficulty }),
    {
        ServerDifficulty { difficulty }
    }
}

impl Wire for ServerDifficulty {
    open spec fn valid(m: ServerDifficulty) -> bool {
        &&& UnsignedByte::valid(m.difficulty)
    }

    open spec fn wire(m: ServerDifficulty) -> Seq<u8> {
        UnsignedByte::wire(m.difficulty)
    }

    open spec fn decoded(s: Seq<u8>) -> Option<(ServerDifficulty, int)> {
        let r0 = UnsignedByte::decoded(s);
        let n0 = taken(r0);
        let f_difficulty = read(r0);
        if r0 is Some {
            Some((ServerDifficulty { difficulty: f_difficulty }, n0))
        } else {
            None
        }
    }

    fn decode(data: &[u8]) -> (r: Option<(Self, usize)>) {
        let (f_difficulty, k0) = match <UnsignedByte as Wire>::decode(data) {
            Some(x) => x,
            None => {
                return None;
            },
        };
        proof {
            UnsignedByte::lemma_decoded_bounds(data@);
        }
        let n0 = k0;
        Some((ServerDifficulty { difficulty: f_difficulty }, n0))
    }

    fn encode(&self, out: &mut Vec<u8>) {
        self.difficulty.encode(out);
        assert(out@ =~= old(out)@ + Self::wire(self@));
    }

    fn check(&self) -> (b: bool) {
        self.difficulty.check()
    }

    proof fn lemma_decoded_bounds(s: Seq<u8>) {
        let r0 = UnsignedByte::decoded(s);
        UnsignedByte::lemma_decoded_bounds(s);
        let n0 = taken(r0);
        let f_difficulty = read(r0);
    }

    proof fn lemma_decoded_wire(m: ServerDifficulty, rest: Seq<u8>) {
        let s = Self::wire(m) + rest;
        let w0 = UnsignedByte::wire(m.difficulty);
        let p0 = w0;
        let t0 = rest;
        assert(s == p0 + t0);
        assert(s.skip(0) =~= s);
        let a0 = 0int;
        lemma_field_read::<UnsignedByte>(s, a0, m.difficulty, t0);
    }
}

impl ClientboundPacket for ServerDifficulty {
    open spec fn listed() -> IDS {
        IDS::ServerDifficulty
    }

    open spec fn parsed(s: Seq<u8>) -> Option<ServerDifficulty> {
        match Self::decoded(s) {
            Some((m, _)) => Some(m),
            None => None,
        }
    }

    fn parse(data: &[u8]) -> (r: Result<Self, String>) {
        match Self::decode(data) {
            Some((p, _)) => Ok(p),
            None => Err(malformed("ServerDifficulty")),
        }
    }

    fn id() -> (r: IDS) {
        IDS::ServerDifficulty
    }
}

/// A world border that grows or shrinks from one radius to another.
#[derive(Debug, Clone, Copy, PartialEq, Eq, Structural)]
pub struct WorldBorderLerp {
    pub old_radius: Double,
    pub new_radius: Double,
    pub speed: VarLong,
}

impl View for WorldBorderLerp {
    type V = WorldBorderLerp;

    open spec fn view(&self) -> WorldBorderLerp {
        *self
    }
}

impl WorldBorderLerp {
    /// A packet of the given fields.
    pub fn new(old_radius: Double, new_radius: Double, speed: VarLong) -> (r: Self)
        ensures
            r == (WorldBorderLerp { old_radius, new_radius, speed }),
    {
        WorldBorderLerp { old_radius, new_radius, speed }
    }
}

impl Wire for WorldBorderLerp {
    open spec fn valid(m: WorldBorderLerp) -> bool {
        &&& Double::valid(m.old_radius)
        &&& Double::valid(m.new_radius)
        &&& VarLong::valid(m.speed)
    }

    open spec fn wire(m: WorldBorderLerp) -> Seq<u8> {
        Double::wire(m.old_radius)
            + Double::wire(m.new_radius)
            + VarLong::wire(m.speed)
    }

    open spec fn decoded(s: Seq<u8>) -> Option<(WorldBorderLerp, int)> {
        let r0 = Double::decoded(s);
        let n0 = taken(r0);
        let f_old_radius = read(r0);
        let r1 = Double::decoded(s.skip(n0));
        let n1 = n0 + taken(r1);
        let f_new_radius = read(r1);
        let r2 = VarLong::decoded(s.skip(n1));
        let n2 = n1 + taken(r2);
        let f_speed = read(r2);
        if r0 is Some && r1 is Some && r2 is Some {
            Some(
                (
                    WorldBorderLerp {
                        old_radius: f_old_radius,
                        new_radius: f_new_radius,
                        speed: f_speed,
                    },
                    n2,
                ),
            )
        } else {
            None
        }
    }

    fn decode(data: &[u8]) -> (r: Option<(Self, usize)>) {
        let (f_old_radius, k0) = match <Double as Wire>::decode(data) {
            Some(x) => x,
            None => {
                return None;
            },
        };
        proof {
            Double::lemma_decoded_bounds(data@);
        }
        let n0 = k0;
        let (f_new_radius, k1) = match <Double as Wire>::decode(tail(data, n0)) {
            Some(x) => x,
            None => {
                return None;
            },
        };
        proof {
            Double::lemma_decoded_bounds(data@.skip(n0 as int));
        }
        let n1 = n0 + k1;
        let (f_speed, k2) = match <VarLong as Wire>::decode(tail(data, n1)) {
            Some(x) => x,
            None => {
                return None;
            },
        };
        proof {
            VarLong::lemma_decoded_bounds(data@.skip(n1 as int));
        }
        let n2 = n1 + k2;
        Some(
            (
                WorldBorderLerp {
                    old_radius: f_old_radius,
                    new_radius: f_new_radius,
                    speed: f_speed,
                },
                n2,
            ),
        )
    }

    fn encode(&self, out: &mut Vec<u8>) {
        self.old_radius.encode(out);
        self.new_radius.encode(out);
        self.speed.encode(out);
        assert(out@ =~= old(out)@ + Self::wire(self@));
    }

    fn check(&self) -> (b: bool) {
        self.old_radius.check()
            && self.new_radius.check()
            && self.speed.check()
    }

    proof fn lemma_decoded_bounds(s: Seq<u8>) {
        let r0 = Double::decoded(s);
        Double::lemma_decoded_bounds(s);
        let n0 = taken(r0);
        let f_old_radius = read(r0);
        let r1 = Double::decoded(s.skip(n0));
        Double::lemma_decoded_bounds(s.skip(n0));
        let n1 = n0 + taken(r1);
        let f_new_radius = read(r1);
        let r2 = VarLong::decoded(s.skip(n1));
        VarLong::lemma_decoded_bounds(s.skip(n1));
        let n2 = n1 + taken(r2);
        let f_speed = read(r2);
    }

    proof fn lemma_decoded_wire(m: WorldBorderLerp, rest: Seq<u8>) {
        let s = Self::wire(m) + rest;
        let w0 = Double::wire(m.old_radius);
        let w1 = Double::wire(m.new_radius);
        let w2 = VarLong::wire(m.speed);
        let p0 = w0;
        let p1 = p0 + w1;
        let p2 = p1 + w2;
        let t2 = rest;
        let t1 = w2 + t2;
        let t0 = w1 + t1;
        assert(s == p2 + t2);
        lemma_join(p1, w2, t2);
        lemma_join(p0, w1, t1);
        assert(s.skip(0) =~= s);
        let a0 = 0int;
        lemma_field_read::<Double>(s, a0, m.old_radius, t0);
        let a1 = a0 + w0.len();
        lemma_field_read::<Double>(s, a1, m.new_radius, t1);
        let a2 = a1 + w1.len();
        lemma_field_read::<VarLong>(s, a2, m.speed, t2);
    }
}

/// The centre of the world border.
#[derive(Debug, Clone, Copy, PartialEq, Eq, Structural)]
pub struct WorldBorderCenter {
    pub x: Double,
    pub z: Double,
}

impl View for WorldBorderCenter {
    type V = WorldBorderCenter;

    open spec fn view(&self) -> WorldBorderCenter {
        *self
    }
}

impl WorldBorderCenter {
    /// A packet of the given fields.
    pub fn new(x: Double, z: Double) -> (r: Self)
        ensures
            r == (WorldBorderCenter { x, z }),
    {
        WorldBorderCenter { x, z }
    }
}

impl Wire for WorldBorderCenter {
    open spec fn valid(m: WorldBorderCenter) -> bool {
        &&& Double::valid(m.x)
        &&& Double::valid(m.z)
    }

    open spec fn wire(m: WorldBorderCenter) -> Seq<u8> {
        Double::wire(m.x)
            + Double::wire(m.z)
    }

    open spec fn decoded(s: Seq<u8>) -> Option<(WorldBorderCenter, int)> {
        let r0 = Double::decoded(s);
        let n0 = taken(r0);
        let f_x = read(r0);
        let r1 = Double::decoded(s.skip(n0));
        let n1 = n0 + taken(r1);
        let f_z = read(r1);
        if r0 is Some && r1 is Some {
            Some((WorldBorderCenter { x: f_x, z: f_z }, n1))
        } else {
            None
        }
    }

    fn decode(data: &[u8]) -> (r: Option<(Self, usize)>) {
        let (f_x, k0) = match <Double as Wire>::decode(data) {
            Some(x) => x,
            None => {
                return None;
            },
        };
        proof {
            Double::lemma_decoded_bounds(data@);
        }
        let n0 = k0;
        let (f_z, k1) = match <Double as Wire>::decode(tail(data, n0)) {
            Some(x) => x,
            None => {
                return None;
            },
        };
        proof {
            Double::lemma_decoded_bounds(data@.skip(n0 as int));
        }
        let n1 = n0 + k1;
        Some((WorldBorderCenter { x: f_x, z: f_z }, n1))
    }

    fn encode(&self, out: &mut Vec<u8>) {
        self.x.encode(out);
        self.z.encode(out);
        assert(out@ =~= old(out)@ + Self::wire(self@));
    }

    fn check(&self) -> (b: bool) {
        self.x.check()
            && self.z.check()
    }

    proof fn lemma_decoded_bounds(s: Seq<u8>) {
        let r0 = Double::decoded(s);
        Double::lemma_decoded_bounds(s);
        let n0 = taken(r0);
        let f_x = read(r0);
        let r1 = Double::decoded(s.skip(n0));
        Double::lemma_decoded_bounds(s.skip(n0));
        let n1 = n0 + taken(r1);
        let f_z = read(r1);
    }

    proof fn lemma_decoded_wire(m: WorldBorderCenter, rest: Seq<u8>) {
        let s = Self::wire(m) + rest;
        let w0 = Double::wire(m.x);
        let w1 = Double::wire(m.z);
        let p0 = w0;
        let p1 = p0 + w1;
        let t1 = rest;
        let t0 = w1 + t1;
        assert(s == p1 + t1);
        lemma_join(p0, w1, t1);
        assert(s.skip(0) =~= s);
        let a0 = 0int;
        lemma_field_read::<Double>(s, a0, m.x, t0);
        let a1 = a0 + w0.len();
        lemma_field_read::<Double>(s, a1, m.z, t1);
    }
}

/// Everything about the world border at once.
#[derive(Debug, Clone, Copy, PartialEq, Eq, Structural)]
pub struct WorldBorderInit {
    pub x: Double,
    pub z: Double,
    pub old_radius: Double,
    pub new_radius: Double,
    pub speed: VarLong,
    pub portal_teleport_boundary: VarInt,
    pub warning_time: VarInt,
    pub warning_blocks: VarInt,
}

impl View for WorldBorderInit {
    type V = WorldBorderInit;

    open spec fn view(&self) -> WorldBorderInit {
        *self
    }
}

impl WorldBorderInit {
    /// A packet of the given fields.
    pub fn new(
        x: Double,
        z: Double,
        old_radius: Double,
        new_radius: Double,
        speed: VarLong,
        portal_teleport_boundary: VarInt,
        warning_time: VarInt,
        warning_blocks: VarInt,
    ) -> (r: Self)
        ensures
            r == (WorldBorderInit {
                x,
                z,
                old_radius,
                new_radius,
                speed,
                portal_teleport_boundary,
                warning_time,
                warning_blocks,
            }),
    {
        WorldBorderInit {
            x,
            z,
            old_radius,
            new_radius,
            speed,
            portal_teleport_boundary,
            warning_time,
            warning_blocks,
        }
    }
}

impl Wire for WorldBorderInit {
    open spec fn valid(m: WorldBorderInit) -> bool {
        &&& Double::valid(m.x)
        &&& Double::valid(m.z)
        &&& Double::valid(m.old_radius)
        &&& Double::valid(m.new_radius)
        &&& VarLong::valid(m.speed)
        &&& VarInt::valid(m.portal_teleport_boundary)
        &&& VarInt::valid(m.warning_time)
        &&& VarInt::valid(m.warning_blocks)
    }

    open spec fn wire(m: WorldBorderInit) -> Seq<u8> {
        Double::wire(m.x)
            + Double::wire(m.z)
            + Double::wire(m.old_radius)
            + Double::wire(m.new_radius)
            + VarLong::wire(m.speed)
            + VarInt::wire(m.portal_teleport_boundary)
            + VarInt::wire(m.warning_time)
            + VarInt::wire(m.warning_blocks)
    }

    open spec fn decoded(s: Seq<u8>) -> Option<(WorldBorderInit, int)> {
        let r0 = Double::decoded(s);
        let n0 = taken(r0);
        let f_x = read(r0);
        let r1 = Double::decoded(s.skip(n0));
        let n1 = n0 + taken(r1);
        let f_z = read(r1);
        let r2 = Double::decoded(s.skip(n1));
        let n2 = n1 + taken(r2);
        let f_old_radius = read(r2);
        let r3 = Double::decoded(s.skip(n2));
        let n3 = n2 + taken(r3);
        let f_new_radius = read(r3);
        let r4 = VarLong::decoded(s.skip(n3));
        let n4 = n3 + taken(r4);
        let f_speed = read(r4);
        let r5 = VarInt::decoded(s.skip(n4));
        let n5 = n4 + taken(r5);
        let f_portal_teleport_boundary = read(r5);
        let r6 = VarInt::decoded(s.skip(n5));
        let n6 = n5 + taken(r6);
        let f_warning_time = read(r6);
        let r7 = VarInt::decoded(s.skip(n6));
        let n7 = n6 + taken(r7);
        let f_warning_blocks = read(r7);
        if r0 is Some && r1 is Some && r2 is Some && r3 is Some && r4 is Some && r5 is Some
            && r6 is Some && r7 is Some {
            Some(
                (
                    WorldBorderInit {
                        x: f_x,
                        z: f_z,
                        old_radius: f_old_radius,
                        new_radius: f_new_radius,
                        speed: f_speed,
                        portal_teleport_boundary: f_portal_teleport_boundary,
                        warning_time: f_warning_time,
                        warning_blocks: f_warning_blocks,
                    },
                    n7,
                ),
            )
        } else {
            None
        }
    }

    fn decode(data: &[u8]) -> (r: Option<(Self, usize)>) {
        let (f_x, k0) = match <Double as Wire>::decode(data) {
            Some(x) => x,
            None => {
                return None;
            },
        };
        proof {
            Double::lemma_decoded_bounds(data@);
        }
        let n0 = k0;
        let (f_z, k1) = match <Double as Wire>::decode(tail(data, n0)) {
            Some(x) => x,
            None => {
                return None;
            },
        };
        proof {
            Double::lemma_decoded_bounds(data@.skip(n0 as int));
        }
        let n1 = n0 + k1;
        let (f_old_radius, k2) = match <Double as Wire>::decode(tail(data, n1)) {
            Some(x) => x,
            None => {
                return None;
            },
        };
        proof {
            Double::lemma_decoded_bounds(data@.skip(n1 as int));
        }
        let n2 = n1 + k2;
        let (f_new_radius, k3) = match <Double as Wire>::decode(tail(data, n2)) {
            Some(x) => x,
            None => {
                return None;
            },
        };
        proof {
            Double::lemma_decoded_bounds(data@.skip(n2 as int));
        }
        let n3 = n2 + k3;
        let (f_speed, k4) = match <VarLong as Wire>::decode(tail(data, n3)) {
            Some(x) => x,
            None => {
                return None;
            },
        };
        proof {
            VarLong::lemma_decoded_bounds(data@.skip(n3 as int));
        }
        let n4 = n3 + k4;
        let (f_portal_teleport_boundary, k5) = match <VarInt as Wire>::decode(tail(data, n4)) {
            Some(x) => x,
            None => {
                return None;
            },
        };
        proof {
            VarInt::lemma_decoded_bounds(data@.skip(n4 as int));
        }
        let n5 = n4 + k5;
        let (f_warning_time, k6) = match <VarInt as Wire>::decode(tail(data, n5)) {
            Some(x) => x,
            None => {
                return None;
            },
        };
        proof {
            VarInt::lemma_decoded_bounds(data@.skip(n5 as int));
        }
        let n6 = n5 + k6;
        let (f_warning_blocks, k7) = match <VarInt as Wire>::decode(tail(data, n6)) {
            Some(x) => x,
            None => {
                return None;
            },
        };
        proof {
            VarInt::lemma_decoded_bounds(data@.skip(n6 as int));
        }
        let n7 = n6 + k7;
        Some(
            (
                WorldBorderInit {
                    x: f_x,
                    z: f_z,
                    old_radius: f_old_radius,
                    new_radius: f_new_radius,
                    speed: f_speed,
                    portal_teleport_boundary: f_portal_teleport_boundary,
                    warning_time: f_warning_time,
                    warning_blocks: f_warning_blocks,
                },
                n7,
            ),
        )
    }

    fn encode(&self, out: &mut Vec<u8>) {
        self.x.encode(out);
        self.z.encode(out);
        self.old_radius.encode(out);
        self.new_radius.encode(out);
        self.speed.encode(out);
        self.portal_teleport_boundary.encode(out);
        self.warning_time.encode(out);
        self.warning_blocks.encode(out);
        assert(out@ =~= old(out)@ + Self::wire(self@));
    }

    fn check(&self) -> (b: bool) {
        self.x.check()
            && self.z.check()
            && self.old_radius.check()
            && self.new_radius.check()
            && self.speed.check()
            && self.portal_teleport_boundary.check()
            && self.warning_time.check()
            && self.warning_blocks.check()
    }

    proof fn lemma_decoded_bounds(s: Seq<u8>) {
        let r0 = Double::decoded(s);
        Double::lemma_decoded_bounds(s);
        let n0 = taken(r0);
        let f_x = read(r0);
        let r1 = Double::decoded(s.skip(n0));
        Double::lemma_decoded_bounds(s.skip(n0));
        let n1 = n0 + taken(r1);
        let f_z = read(r1);
        let r2 = Double::decoded(s.skip(n1));
        Double::lemma_decoded_bounds(s.skip(n1));
        let n2 = n1 + taken(r2);
        let f_old_radius = read(r2);
        let r3 = Double::decoded(s.skip(n2));
        Double::lemma_decoded_bounds(s.skip(n2));
        let n3 = n2 + taken(r3);
        let f_new_radius = read(r3);
        let r4 = VarLong::decoded(s.skip(n3));
        VarLong::lemma_decoded_bounds(s.skip(n3));
        let n4 = n3 + taken(r4);
        let f_speed = read(r4);
        let r5 = VarInt::decoded(s.skip(n4));
        VarInt::lemma_decoded_bounds(s.skip(n4));
        let n5 = n4 + taken(r5);
        let f_portal_teleport_boundary = read(r5);
        let r6 = VarInt::decoded(s.skip(n5));
        VarInt::lemma_decoded_bounds(s.skip(n5));
        let n6 = n5 + taken(r6);
        let f_warning_time = read(r6);
        let r7 = VarInt::decoded(s.skip(n6));
        VarInt::lemma_decoded_bounds(s.skip(n6));
        let n7 = n6 + taken(r7);
        let f_warning_blocks = read(r7);
    }

    proof fn lemma_decoded_wire(m: WorldBorderInit, rest: Seq<u8>) {
        let s = Self::wire(m) + rest;
        let w0 = Double::wire(m.x);
        let w1 = Double::wire(m.z);
        let w2 = Double::wire(m.old_radius);
        let w3 = Double::wire(m.new_radius);
        let w4 = VarLong::wire(m.speed);
        let w5 = VarInt::wire(m.portal_teleport_boundary);
        let w6 = VarInt::wire(m.warning_time);
        let w7 = VarInt::wire(m.warning_blocks);
        let p0 = w0;
        let p1 = p0 + w1;
        let p2 = p1 + w2;
        let p3 = p2 + w3;
        let p4 = p3 + w4;
        let p5 = p4 + w5;
        let p6 = p5 + w6;
        let p7 = p6 + w7;
        let t7 = rest;
        let t6 = w7 + t7;
        let t5 = w6 + t6;
        let t4 = w5 + t5;
        let t3 = w4 + t4;
        let t2 = w3 + t3;
        let t1 = w2 + t2;
        let t0 = w1 + t1;
        assert(s == p7 + t7);
        lemma_join(p6, w7, t7);
        lemma_join(p5, w6, t6);
        lemma_join(p4, w5, t5);
        lemma_join(p3, w4, t4);
        lemma_join(p2, w3, t3);
        lemma_join(p1, w2, t2);
        lemma_join(p0, w1, t1);
        assert(s.skip(0) =~= s);
        let a0 = 0int;
        lemma_field_read::<Double>(s, a0, m.x, t0);
        let a1 = a0 + w0.len();
        lemma_field_read::<Double>(s, a1, m.z, t1);
        let a2 = a1 + w1.len();
        lemma_field_read::<Double>(s, a2, m.old_radius, t2);
        let a3 = a2 + w2.len();
        lemma_field_read::<Double>(s, a3, m.new_radius, t3);
        let a4 = a3 + w3.len();
        lemma_field_read::<VarLong>(s, a4, m.speed, t4);
        let a5 = a4 + w4.len();
        lemma_field_read::<VarInt>(s, a5, m.portal_teleport_boundary, t5);
        let a6 = a5 + w5.len();
        lemma_field_read::<VarInt>(s, a6, m.warning_time, t6);
        let a7 = a6 + w6.len();
        lemma_field_read::<VarInt>(s, a7, m.warning_blocks, t7);
    }
}

/// What is to be done with the world border. The number of the action comes
/// first on the wire, as a `VarInt`; a number above five is malformed.
#[derive(Debug, Clone, Copy, PartialEq, Eq, Structural)]
pub enum WorldBorderAction {
    /// The radius is set at once.
    SetSize(Double),
    LerpSize(WorldBorderLerp),
    SetCenter(WorldBorderCenter),
    Initialize(WorldBorderInit),
    SetWarningTime(VarInt),
    SetWarningBlocks(VarInt),
}

impl View for WorldBorderAction {
    type V = WorldBorderAction;

    open spec fn view(&self) -> WorldBorderAction {
        *self
    }
}

impl Wire for WorldBorderAction {
    open spec fn valid(m: WorldBorderAction) -> bool {
        match m {
            WorldBorderAction::SetSize(p) => Double::valid(p),
            WorldBorderAction::LerpSize(p) => WorldBorderLerp::valid(p),
            WorldBorderAction::SetCenter(p) => WorldBorderCenter::valid(p),
            WorldBorderAction::Initialize(p) => WorldBorderInit::valid(p),
            WorldBorderAction::SetWarningTime(p) => VarInt::valid(p),
            WorldBorderAction::SetWarningBlocks(p) => VarInt::valid(p),
        }
    }

    open spec fn wire(m: WorldBorderAction) -> Seq<u8> {
        match m {
            WorldBorderAction::SetSize(p) => VarInt::wire(VarInt(0)) + Double::wire(p),
            WorldBorderAction::LerpSize(p) => VarInt::wire(VarInt(1)) + WorldBorderLerp::wire(p),
            WorldBorderAction::SetCenter(p) => VarInt::wire(VarInt(2)) + WorldBorderCenter::wire(p),
            WorldBorderAction::Initialize(p) => VarInt::wire(VarInt(3)) + WorldBorderInit::wire(p),
            WorldBorderAction::SetWarningTime(p) => VarInt::wire(VarInt(4)) + VarInt::wire(p),
            WorldBorderAction::SetWarningBlocks(p) => VarInt::wire(VarInt(5)) + VarInt::wire(p),
        }
    }

    open spec fn decoded(s: Seq<u8>) -> Option<(WorldBorderAction, int)> {
        match VarInt::decoded(s) {
            Some((tag, n)) => match tag.0 {
                0 => match Double::decoded(s.skip(n)) {
                    Some((p, k)) => Some((WorldBorderAction::SetSize(p), n + k)),
                    None => None,
                },
                1 => match WorldBorderLerp::decoded(s.skip(n)) {
                    Some((p, k)) => Some((WorldBorderAction::LerpSize(p), n + k)),
                    None => None,
                },
                2 => match WorldBorderCenter::decoded(s.skip(n)) {
                    Some((p, k)) => Some((WorldBorderAction::SetCenter(p), n + k)),
                    None => None,
                },
                3 => match WorldBorderInit::decoded(s.skip(n)) {
                    Some((p, k)) => Some((WorldBorderAction::Initialize(p), n + k)),
                    None => None,
                },
                4 => match VarInt::decoded(s.skip(n)) {
                    Some((p, k)) => Some((WorldBorderAction::SetWarningTime(p), n + k)),
                    None => None,
                },
                5 => match VarInt::decoded(s.skip(n)) {
                    Some((p, k)) => Some((WorldBorderAction::SetWarningBlocks(p), n + k)),
                    None => None,
                },
                _ => None,
            },
            None => None,
        }
    }

    fn decode(data: &[u8]) -> (r: Option<(Self, usize)>) {
        let (tag, n) = match VarInt::parse(data) {
            Some(x) => x,
            None => {
                return None;
            },
        };
        proof {
            VarInt::lemma_decoded_bounds(data@);
        }
        match tag.0 {
            0 => match <Double as Wire>::decode(tail(data, n)) {
                Some((p, k)) => {
                    proof {
                        Double::lemma_decoded_bounds(data@.skip(n as int));
                    }
                    Some((WorldBorderAction::SetSize(p), n + k))
                },
                None => None,
            },
            1 => match <WorldBorderLerp as Wire>::decode(tail(data, n)) {
                Some((p, k)) => {
                    proof {
                        WorldBorderLerp::lemma_decoded_bounds(data@.skip(n as int));
                    }
                    Some((WorldBorderAction::LerpSize(p), n + k))
                },
                None => None,
            },
            2 => match <WorldBorderCenter as Wire>::decode(tail(data, n)) {
                Some((p, k)) => {
                    proof {
                        WorldBorderCenter::lemma_decoded_bounds(data@.skip(n as int));
                    }
                    Some((WorldBorderAction::SetCenter(p), n + k))
                },
                None => None,
            },
            3 => match <WorldBorderInit as Wire>::decode(tail(data, n)) {
                Some((p, k)) => {
                    proof {
                        WorldBorderInit::lemma_decoded_bounds(data@.skip(n as int));
                    }
                    Some((WorldBorderAction::Initialize(p), n + k))
                },
                None => None,
            },
            4 => match <VarInt as Wire>::decode(tail(data, n)) {
                Some((p, k)) => {
                    proof {
                        VarInt::lemma_decoded_bounds(data@.skip(n as int));
                    }
                    Some((WorldBorderAction::SetWarningTime(p), n + k))
                },
                None => None,
            },
            5 => match <VarInt as Wire>::decode(tail(data, n)) {
                Some((p, k)) => {
                    proof {
                        VarInt::lemma_decoded_bounds(data@.skip(n as int));
                    }
                    Some((WorldBorderAction::SetWarningBlocks(p), n + k))
                },
                None => None,
            },
            _ => None,
        }
    }

    fn encode(&self, out: &mut Vec<u8>) {
        match self {
            WorldBorderAction::SetSize(p) => {
                VarInt(0).write(out);
                p.encode(out);
            },
            WorldBorderAction::LerpSize(p) => {
                VarInt(1).write(out);
                p.encode(out);
            },
            WorldBorderAction::SetCenter(p) => {
                VarInt(2).write(out);
                p.encode(out);
            },
            WorldBorderAction::Initialize(p) => {
                VarInt(3).write(out);
                p.encode(out);
            },
            WorldBorderAction::SetWarningTime(p) => {
                VarInt(4).write(out);
                p.encode(out);
            },
            WorldBorderAction::SetWarningBlocks(p) => {
                VarInt(5).write(out);
                p.encode(out);
            },
        }
        assert(out@ =~= old(out)@ + Self::wire(self@));
    }

    fn check(&self) -> (b: bool) {
        match self {
            WorldBorderAction::SetSize(p) => p.check(),
            WorldBorderAction::LerpSize(p) => p.check(),
            WorldBorderAction::SetCenter(p) => p.check(),
            WorldBorderAction::Initialize(p) => p.check(),
            WorldBorderAction::SetWarningTime(p) => p.check(),
            WorldBorderAction::SetWarningBlocks(p) => p.check(),
        }
    }

    proof fn lemma_decoded_bounds(s: Seq<u8>) {
        VarInt::lemma_decoded_bounds(s);
        if let Some((tag, n)) = VarInt::decoded(s) {
            Double::lemma_decoded_bounds(s.skip(n));
            WorldBorderLerp::lemma_decoded_bounds(s.skip(n));
            WorldBorderCenter::lemma_decoded_bounds(s.skip(n));
            WorldBorderInit::lemma_decoded_bounds(s.skip(n));
            VarInt::lemma_decoded_bounds(s.skip(n));
            VarInt::lemma_decoded_bounds(s.skip(n));
        }
    }

    proof fn lemma_decoded_wire(m: WorldBorderAction, rest: Seq<u8>) {
        let s = Self::wire(m) + rest;
        match m {
            WorldBorderAction::SetSize(p) => {
                let head = VarInt::wire(VarInt(0));
                let body = Double::wire(p);
                lemma_join(head, body, rest);
                assert(s.skip(0) =~= s);
                lemma_field_read::<VarInt>(s, 0, VarInt(0), body + rest);
                lemma_field_read::<Double>(s, head.len() as int, p, rest);
            },
            WorldBorderAction::LerpSize(p) => {
                let head = VarInt::wire(VarInt(1));
                let body = WorldBorderLerp::wire(p);
                lemma_join(head, body, rest);
                assert(s.skip(0) =~= s);
                lemma_field_read::<VarInt>(s, 0, VarInt(1), body + rest);
                lemma_field_read::<WorldBorderLerp>(s, head.len() as int, p, rest);
            },
            WorldBorderAction::SetCenter(p) => {
                let head = VarInt::wire(VarInt(2));
                let body = WorldBorderCenter::wire(p);
                lemma_join(head, body, rest);
                assert(s.skip(0) =~= s);
                lemma_field_read::<VarInt>(s, 0, VarInt(2), body + rest);
                lemma_field_read::<WorldBorderCenter>(s, head.len() as int, p, rest);
            },
            WorldBorderAction::Initialize(p) => {
                let head = VarInt::wire(VarInt(3));
                let body = WorldBorderInit::wire(p);
                lemma_join(head, body, rest);
                assert(s.skip(0) =~= s);
                lemma_field_read::<VarInt>(s, 0, VarInt(3), body + rest);
                lemma_field_read::<WorldBorderInit>(s, head.len() as int, p, rest);
            },
            WorldBorderAction::SetWarningTime(p) => {
                let head = VarInt::wire(VarInt(4));
                let body = VarInt::wire(p);
                lemma_join(head, body, rest);
                assert(s.skip(0) =~= s);
                lemma_field_read::<VarInt>(s, 0, VarInt(4), body + rest);
                lemma_field_read::<VarInt>(s, head.len() as int, p, rest);
            },
            WorldBorderAction::SetWarningBlocks(p) => {
                let head = VarInt::wire(VarInt(5));
                let body = VarInt::wire(p);
                lemma_join(head, body, rest);
                assert(s.skip(0) =~= s);
                lemma_field_read::<VarInt>(s, 0, VarInt(5), body + rest);
                lemma_field_read::<VarInt>(s, head.len() as int, p, rest);
            },
        }
    }
}

/// A change of the world border.
#[derive(Debug, Clone, Copy, PartialEq, Eq, Structural)]
pub struct WorldBorder {
    pub action: WorldBorderAction,
}

impl View for WorldBorder {
    type V = WorldBorder;

    open spec fn view(&self) -> WorldBorder {
        *self
    }
}

impl WorldBorder {
    /// A packet of the given fields.
    pub fn new(action: WorldBorderAction) -> (r: Self)
        ensures
            r == (WorldBorder { action }),
    {
        WorldBorder { action }
    }
}

impl Wire for WorldBorder {
    open spec fn valid(m: WorldBorder) -> bool {
        &&& WorldBorderAction::valid(m.action)
    }

    open spec fn wire(m: WorldBorder) -> Seq<u8> {
        WorldBorderAction::wire(m.action)
    }

    open spec fn decoded(s: Seq<u8>) -> Option<(WorldBorder, int)> {
        let r0 = WorldBorderAction::decoded(s);
        let n0 = taken(r0);
        let f_action = read(r0);
        if r0 is Some {
            Some((WorldBorder { action: f_action }, n0))
        } else {
            None
        }
    }

    fn decode(data: &[u8]) -> (r: Option<(Self, usize)>) {
        let (f_action, k0) = match <WorldBorderAction as Wire>::decode(data) {
            Some(x) => x,
            None => {
                return None;
            },
        };
        proof {
            WorldBorderAction::lemma_decoded_bounds(data@);
        }
        let n0 = k0;
        Some((WorldBorder { action: f_action }, n0))
    }

    fn encode(&self, out: &mut Vec<u8>) {
        self.action.encode(out);
        assert(out@ =~= old(out)@ + Self::wire(self@));
    }

    fn check(&self) -> (b: bool) {
        self.action.check()
    }

    proof fn lemma_decoded_bounds(s: Seq<u8>) {
        let r0 = WorldBorderAction::decoded(s);
        WorldBorderAction::lemma_decoded_bounds(s);
        let n0 = taken(r0);
        let f_action = read(r0);
    }

    proof fn lemma_decoded_wire(m: WorldBorder, rest: Seq<u8>) {
        let s = Self::wire(m) + rest;
        let w0 = WorldBorderAction::wire(m.action);
        let p0 = w0;
        let t0 = rest;
        assert(s == p0 + t0);
        assert(s.skip(0) =~= s);
        let a0 = 0int;
        lemma_field_read::<WorldBorderAction>(s, a0, m.action, t0);
    }
}

impl ClientboundPacket for WorldBorder {
    open spec fn listed() -> IDS {
        IDS::WorldBorder
    }

    open spec fn parsed(s: Seq<u8>) -> Option<WorldBorder> {
        match Self::decoded(s) {
            Some((m, _)) => Some(m),
            None => None,
        }
    }

    fn parse(data: &[u8]) -> (r: Result<Self, String>) {
        match Self::decode(data) {
            Some((p, _)) => Ok(p),
            None => Err(malformed("WorldBorder")),
        }
    }

    fn id() -> (r: IDS) {
        IDS::WorldBorder
    }
}

} // verus!
