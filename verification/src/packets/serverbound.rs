//! The packets that the client sends during play.

use vstd::prelude::*;
use crate::basic::{Boolean, Position, UUID};
use crate::fixed::{Byte, Double, Float, Short, UnsignedByte};
use crate::ids::IDS;
use crate::packets::{unsendable, ServerboundPacket};
use crate::slot::{Slot, SlotModel};
use crate::text::VarString;
use crate::varint::VarInt;
use crate::wire::{lemma_field_read, lemma_join, read, tail, only_if, taken, Wire};

verus! {

/// The answer to the server's keep-alive, with the number that it sent.
#[derive(Debug, Clone, Copy, PartialEq, Eq, Structural)]
pub struct KeepAliveServerbound {
    pub keep_alive_id: VarInt,
}

impl View for KeepAliveServerbound {
    type V = KeepAliveServerbound;

    open spec fn view(&self) -> KeepAliveServerbound {
        *self
    }
}

impl KeepAliveServerbound {
    /// A packet of the given fields.
    pub fn new(keep_alive_id: VarInt) -> (r: Self)
        ensures
            r == (KeepAliveServerbound { keep_alive_id }),
    {
        KeepAliveServerbound { keep_alive_id }
    }
}

impl Wire for KeepAliveServerbound {
    open spec fn valid(m: KeepAliveServerbound) -> bool {
        &&& VarInt::valid(m.keep_alive_id)
    }

    open spec fn wire(m: KeepAliveServerbound) -> Seq<u8> {
        VarInt::wire(m.keep_alive_id)
    }

    open spec fn decoded(s: Seq<u8>) -> Option<(KeepAliveServerbound, int)> {
        let r0 = VarInt::decoded(s);
        let n0 = taken(r0);
        let f_keep_alive_id = read(r0);
        if r0 is Some {
            Some((KeepAliveServerbound { keep_alive_id: f_keep_alive_id }, n0))
        } else {
            None
        }
    }

    fn decode(data: &[u8]) -> (r: Option<(Self, usize)>) {
        let (f_keep_alive_id, k0) = match <VarInt as Wire>::decode(data) {
            Some(x) => x,
            None => {
                return None;
            },
        };
        proof {
            VarInt::lemma_decoded_bounds(data@);
        }
        let n0 = k0;
        Some((KeepAliveServerbound { keep_alive_id: f_keep_alive_id }, n0))
    }

    fn encode(&self, out: &mut Vec<u8>) {
        self.keep_alive_id.encode(out);
        assert(out@ =~= old(out)@ + Self::wire(self@));
    }

    fn check(&self) -> (b: bool) {
        self.keep_alive_id.check()
    }

    proof fn lemma_decoded_bounds(s: Seq<u8>) {
        let r0 = VarInt::decoded(s);
        VarInt::lemma_decoded_bounds(s);
        let n0 = taken(r0);
        let f_keep_alive_id = read(r0);
    }

    proof fn lemma_decoded_wire(m: KeepAliveServerbound, rest: Seq<u8>) {
        let s = Self::wire(m) + rest;
        let w0 = VarInt::wire(m.keep_alive_id);
        let p0 = w0;
        let t0 = rest;
        assert(s == p0 + t0);
        assert(s.skip(0) =~= s);
        let a0 = 0int;
        lemma_field_read::<VarInt>(s, a0, m.keep_alive_id, t0);
    }
}

impl ServerboundPacket for KeepAliveServerbound {
    open spec fn packet_id(&self) -> IDS {
        IDS::KeepAliveServerbound
    }

    open spec fn sendable(m: KeepAliveServerbound) -> bool {
        Self::valid(m)
    }

    open spec fn payload(m: KeepAliveServerbound) -> Seq<u8> {
        Self::wire(m)
    }

    fn to_bytes(&self) -> (r: Result<Vec<u8>, String>) {
        if !self.check() {
            return Err(unsendable("KeepAliveServerbound"));
        }
        let mut buf = Vec::new();
        self.encode(&mut buf);
        Ok(buf)
    }

    fn id(&self) -> (r: IDS) {
        IDS::KeepAliveServerbound
    }
}

/// A chat message or a command.
#[derive(Debug, Clone, PartialEq, Eq)]
pub struct ChatMessageServerbound {
    pub message: VarString,
}

/// What a `ChatMessageServerbound` holds.
pub struct ChatMessageServerboundModel {
    pub message: Seq<char>,
}

impl View for ChatMessageServerbound {
    type V = ChatMessageServerboundModel;

    open spec fn view(&self) -> ChatMessageServerboundModel {
        ChatMessageServerboundModel {
            message: self.message@,
        }
    }
}

impl ChatMessageServerbound {
    /// A packet of the given fields.
    pub fn new(message: VarString) -> (r: Self)
        ensures
            r == (ChatMessageServerbound { message }),
    {
        ChatMessageServerbound { message }
    }
}

impl Wire for ChatMessageServerbound {
    open spec fn valid(m: ChatMessageServerboundModel) -> bool {
        &&& VarString::valid(m.message)
    }

    open spec fn wire(m: ChatMessageServerboundModel) -> Seq<u8> {
        VarString::wire(m.message)
    }

    open spec fn decoded(s: Seq<u8>) -> Option<(ChatMessageServerboundModel, int)> {
        let r0 = VarString::decoded(s);
        let n0 = taken(r0);
        let f_message = read(r0);
        if r0 is Some {
            Some((ChatMessageServerboundModel { message: f_message }, n0))
        } else {
            None
        }
    }

    fn decode(data: &[u8]) -> (r: Option<(Self, usize)>) {
        let (f_message, k0) = match <VarString as Wire>::decode(data) {
            Some(x) => x,
            None => {
                return None;
            },
        };
        proof {
            VarString::lemma_decoded_bounds(data@);
        }
        let n0 = k0;
        Some((ChatMessageServerbound { message: f_message }, n0))
    }

    fn encode(&self, out: &mut Vec<u8>) {
        self.message.encode(out);
        assert(out@ =~= old(out)@ + Self::wire(self@));
    }

    fn check(&self) -> (b: bool) {
        self.message.check()
    }

    proof fn lemma_decoded_bounds(s: Seq<u8>) {
        let r0 = VarString::decoded(s);
        VarString::lemma_decoded_bounds(s);
        let n0 = taken(r0);
        let f_message = read(r0);
    }

    proof fn lemma_decoded_wire(m: ChatMessageServerboundModel, rest: Seq<u8>) {
        let s = Self::wire(m) + rest;
        let w0 = VarString::wire(m.message);
        let p0 = w0;
        let t0 = rest;
        assert(s == p0 + t0);
        assert(s.skip(0) =~= s);
        let a0 = 0int;
        lemma_field_read::<VarString>(s, a0, m.message, t0);
    }
}

impl ServerboundPacket for ChatMessageServerbound {
    open spec fn packet_id(&self) -> IDS {
        IDS::ChatMessageServerbound
    }

    open spec fn sendable(m: ChatMessageServerboundModel) -> bool {
        Self::valid(m)
    }

    open spec fn payload(m: ChatMessageServerboundModel) -> Seq<u8> {
        Self::wire(m)
    }

    fn to_bytes(&self) -> (r: Result<Vec<u8>, String>) {
        if !self.check() {
            return Err(unsendable("ChatMessageServerbound"));
        }
        let mut buf = Vec::new();
        self.encode(&mut buf);
        Ok(buf)
    }

    fn id(&self) -> (r: IDS) {
        IDS::ChatMessageServerbound
    }
}

/// The player has used or hit an entity. The three coordinates are written
/// exactly when the type is 2, an interaction at a place.
#[derive(Debug, Clone, Copy, PartialEq, Eq, Structural)]
pub struct UseEntity {
    pub target: VarInt,
    pub _type: VarInt,
    pub target_x: Float,
    pub target_y: Float,
    pub target_z: Float,
}

impl View for UseEntity {
    type V = UseEntity;

    open spec fn view(&self) -> UseEntity {
        *self
    }
}

impl UseEntity {
    /// A packet of the given fields.
    pub fn new(
        target: VarInt,
        _type: VarInt,
        target_x: Float,
        target_y: Float,
        target_z: Float,
    ) -> (r: Self)
        ensures
            r == (UseEntity { target, _type, target_x, target_y, target_z }),
    {
        UseEntity { target, _type, target_x, target_y, target_z }
    }

    /// Whether the packet can be written: every field that is written can.
    pub open spec fn writable(m: UseEntity) -> bool {
        VarInt::valid(m.target)
            && VarInt::valid(m._type)
            && (m._type.0 == 2 ==> Float::valid(m.target_x))
            && (m._type.0 == 2 ==> Float::valid(m.target_y))
            && (m._type.0 == 2 ==> Float::valid(m.target_z))
    }

    /// Whether the packet can be written.
    pub fn is_writable(&self) -> (b: bool)
        ensures
            b == Self::writable(self@),
    {
        self.target.check()
            && self._type.check()
            && (!(self._type.0 == 2) || self.target_x.check())
            && (!(self._type.0 == 2) || self.target_y.check())
            && (!(self._type.0 == 2) || self.target_z.check())
    }

    /// Appends the fields that are written to `out`. A field whose condition
    /// does not hold is left out, whatever it holds.
    pub fn write(&self, out: &mut Vec<u8>)
        requires
            Self::writable(self@),
        ensures
            final(out)@ == old(out)@ + Self::wire(self@),
    {
        self.target.encode(out);
        self._type.encode(out);
        if self._type.0 == 2 {
            self.target_x.encode(out);
            self.target_y.encode(out);
            self.target_z.encode(out);
        }
        assert(out@ =~= old(out)@ + Self::wire(self@));
    }
}

impl Wire for UseEntity {
    open spec fn valid(m: UseEntity) -> bool {
        &&& VarInt::valid(m.target)
        &&& VarInt::valid(m._type)
        &&& if m._type.0 == 2 {
            Float::valid(m.target_x)
        } else {
            m.target_x == Float(0)
        }
        &&& if m._type.0 == 2 {
            Float::valid(m.target_y)
        } else {
            m.target_y == Float(0)
        }
        &&& if m._type.0 == 2 {
            Float::valid(m.target_z)
        } else {
            m.target_z == Float(0)
        }
    }

    open spec fn wire(m: UseEntity) -> Seq<u8> {
        VarInt::wire(m.target)
            + VarInt::wire(m._type)
            + only_if(m._type.0 == 2, Float::wire(m.target_x))
            + only_if(m._type.0 == 2, Float::wire(m.target_y))
            + only_if(m._type.0 == 2, Float::wire(m.target_z))
    }

    open spec fn decoded(s: Seq<u8>) -> Option<(UseEntity, int)> {
        let r0 = VarInt::decoded(s);
        let n0 = taken(r0);
        let f_target = read(r0);
        let r1 = VarInt::decoded(s.skip(n0));
        let n1 = n0 + taken(r1);
        let f__type = read(r1);
        let r2 = if f__type.0 == 2 {
            Float::decoded(s.skip(n1))
        } else {
            Some((Float(0), 0))
        };
        let n2 = n1 + taken(r2);
        let f_target_x = read(r2);
        let r3 = if f__type.0 == 2 {
            Float::decoded(s.skip(n2))
        } else {
            Some((Float(0), 0))
        };
        let n3 = n2 + taken(r3);
        let f_target_y = read(r3);
        let r4 = if f__type.0 == 2 {
            Float::decoded(s.skip(n3))
        } else {
            Some((Float(0), 0))
        };
        let n4 = n3 + taken(r4);
        let f_target_z = read(r4);
        if r0 is Some && r1 is Some && r2 is Some && r3 is Some && r4 is Some {
            Some(
                (
                    UseEntity {
                        target: f_target,
                        _type: f__type,
                        target_x: f_target_x,
                        target_y: f_target_y,
                        target_z: f_target_z,
                    },
                    n4,
                ),
            )
        } else {
            None
        }
    }

    fn decode(data: &[u8]) -> (r: Option<(Self, usize)>) {
        let (f_target, k0) = match <VarInt as Wire>::decode(data) {
            Some(x) => x,
            None => {
                return None;
            },
        };
        proof {
            VarInt::lemma_decoded_bounds(data@);
        }
        let n0 = k0;
        let (f__type, k1) = match <VarInt as Wire>::decode(tail(data, n0)) {
            Some(x) => x,
            None => {
                return None;
            },
        };
        proof {
            VarInt::lemma_decoded_bounds(data@.skip(n0 as int));
        }
        let n1 = n0 + k1;
        let (f_target_x, k2) = if f__type.0 == 2 {
            match <Float as Wire>::decode(tail(data, n1)) {
                Some(x) => x,
                None => {
                    return None;
                },
            }
        } else {
            (Float(0), 0)
        };
        proof {
            Float::lemma_decoded_bounds(data@.skip(n1 as int));
        }
        let n2 = n1 + k2;
        let (f_target_y, k3) = if f__type.0 == 2 {
            match <Float as Wire>::decode(tail(data, n2)) {
                Some(x) => x,
                None => {
                    return None;
                },
            }
        } else {
            (Float(0), 0)
        };
        proof {
            Float::lemma_decoded_bounds(data@.skip(n2 as int));
        }
        let n3 = n2 + k3;
        let (f_target_z, k4) = if f__type.0 == 2 {
            match <Float as Wire>::decode(tail(data, n3)) {
                Some(x) => x,
                None => {
                    return None;
                },
            }
        } else {
            (Float(0), 0)
        };
        proof {
            Float::lemma_decoded_bounds(data@.skip(n3 as int));
        }
        let n4 = n3 + k4;
        Some(
            (
                UseEntity {
                    target: f_target,
                    _type: f__type,
                    target_x: f_target_x,
                    target_y: f_target_y,
                    target_z: f_target_z,
                },
                n4,
            ),
        )
    }

    fn encode(&self, out: &mut Vec<u8>) {
        self.write(out)
    }

    fn check(&self) -> (b: bool) {
        self.target.check()
            && self._type.check()
            && (if self._type.0 == 2 {
            self.target_x.check()
        } else {
            self.target_x == Float(0)
        })
            && (if self._type.0 == 2 {
            self.target_y.check()
        } else {
            self.target_y == Float(0)
        })
            && (if self._type.0 == 2 {
            self.target_z.check()
        } else {
            self.target_z == Float(0)
        })
    }

    proof fn lemma_decoded_bounds(s: Seq<u8>) {
        let r0 = VarInt::decoded(s);
        VarInt::lemma_decoded_bounds(s);
        let n0 = taken(r0);
        let f_target = read(r0);
        let r1 = VarInt::decoded(s.skip(n0));
        VarInt::lemma_decoded_bounds(s.skip(n0));
        let n1 = n0 + taken(r1);
        let f__type = read(r1);
        let r2 = if f__type.0 == 2 {
            (Float::decoded(s.skip(n1)))
        } else {
            Some((Float(0), 0))
        };
        Float::lemma_decoded_bounds(s.skip(n1));
        let n2 = n1 + taken(r2);
        let f_target_x = read(r2);
        let r3 = if f__type.0 == 2 {
            (Float::decoded(s.skip(n2)))
        } else {
            Some((Float(0), 0))
        };
        Float::lemma_decoded_bounds(s.skip(n2));
        let n3 = n2 + taken(r3);
        let f_target_y = read(r3);
        let r4 = if f__type.0 == 2 {
            (Float::decoded(s.skip(n3)))
        } else {
            Some((Float(0), 0))
        };
        Float::lemma_decoded_bounds(s.skip(n3));
        let n4 = n3 + taken(r4);
        let f_target_z = read(r4);
    }

    proof fn lemma_decoded_wire(m: UseEntity, rest: Seq<u8>) {
        let s = Self::wire(m) + rest;
        let w0 = VarInt::wire(m.target);
        let w1 = VarInt::wire(m._type);
        let w2 = only_if(m._type.0 == 2, Float::wire(m.target_x));
        let w3 = only_if(m._type.0 == 2, Float::wire(m.target_y));
        let w4 = only_if(m._type.0 == 2, Float::wire(m.target_z));
        let p0 = w0;
        let p1 = p0 + w1;
        let p2 = p1 + w2;
        let p3 = p2 + w3;
        let p4 = p3 + w4;
        let t4 = rest;
        let t3 = w4 + t4;
        let t2 = w3 + t3;
        let t1 = w2 + t2;
        let t0 = w1 + t1;
        assert(s == p4 + t4);
        lemma_join(p3, w4, t4);
        lemma_join(p2, w3, t3);
        lemma_join(p1, w2, t2);
        lemma_join(p0, w1, t1);
        assert(s.skip(0) =~= s);
        let a0 = 0int;
        lemma_field_read::<VarInt>(s, a0, m.target, t0);
        let a1 = a0 + w0.len();
        lemma_field_read::<VarInt>(s, a1, m._type, t1);
        let a2 = a1 + w1.len();
        if m._type.0 == 2 {
            lemma_field_read::<Float>(s, a2, m.target_x, t2);
        } else {
            assert(w2 + t2 =~= t2);
        }
        let a3 = a2 + w2.len();
        if m._type.0 == 2 {
            lemma_field_read::<Float>(s, a3, m.target_y, t3);
        } else {
            assert(w3 + t3 =~= t3);
        }
        let a4 = a3 + w3.len();
        if m._type.0 == 2 {
            lemma_field_read::<Float>(s, a4, m.target_z, t4);
        } else {
            assert(w4 + t4 =~= t4);
        }
    }
}

impl ServerboundPacket for UseEntity {
    open spec fn packet_id(&self) -> IDS {
        IDS::UseEntity
    }

    open spec fn sendable(m: UseEntity) -> bool {
        Self::writable(m)
    }

    open spec fn payload(m: UseEntity) -> Seq<u8> {
        Self::wire(m)
    }

    fn to_bytes(&self) -> (r: Result<Vec<u8>, String>) {
        if !self.is_writable() {
            return Err(unsendable("UseEntity"));
        }
        let mut buf = Vec::new();
        self.write(&mut buf);
        Ok(buf)
    }

    fn id(&self) -> (r: IDS) {
        IDS::UseEntity
    }
}

/// Whether the player stands on the ground.
#[derive(Debug, Clone, Copy, PartialEq, Eq, Structural)]
pub struct Player {
    pub on_ground: Boolean,
}

impl View for Player {
    type V = Player;

    open spec fn view(&self) -> Player {
        *self
    }
}

impl Player {
    /// A packet of the given fields.
    pub fn new(on_ground: Boolean) -> (r: Self)
        ensures
            r == (Player { on_ground }),
    {
        Player { on_ground }
    }
}

impl Wire for Player {
    open spec fn valid(m: Player) -> bool {
        &&& Boolean::valid(m.on_ground)
    }

    open spec fn wire(m: Player) -> Seq<u8> {
        Boolean::wire(m.on_ground)
    }

    open spec fn decoded(s: Seq<u8>) -> Option<(Player, int)> {
        let r0 = Boolean::decoded(s);
        let n0 = taken(r0);
        let f_on_ground = read(r0);
        if r0 is Some {
            Some((Player { on_ground: f_on_ground }, n0))
        } else {
            None
        }
    }

    fn decode(data: &[u8]) -> (r: Option<(Self, usize)>) {
        let (f_on_ground, k0) = match <Boolean as Wire>::decode(data) {
            Some(x) => x,
            None => {
                return None;
            },
        };
        proof {
            Boolean::lemma_decoded_bounds(data@);
        }
        let n0 = k0;
        Some((Player { on_ground: f_on_ground }, n0))
    }

    fn encode(&self, out: &mut Vec<u8>) {
        self.on_ground.encode(out);
        assert(out@ =~= old(out)@ + Self::wire(self@));
    }

    fn check(&self) -> (b: bool) {
        self.on_ground.check()
    }

    proof fn lemma_decoded_bounds(s: Seq<u8>) {
        let r0 = Boolean::decoded(s);
        Boolean::lemma_decoded_bounds(s);
        let n0 = taken(r0);
        let f_on_ground = read(r0);
    }

    proof fn lemma_decoded_wire(m: Player, rest: Seq<u8>) {
        let s = Self::wire(m) + rest;
        let w0 = Boolean::wire(m.on_ground);
        let p0 = w0;
        let t0 = rest;
        assert(s == p0 + t0);
        assert(s.skip(0) =~= s);
        let a0 = 0int;
        lemma_field_read::<Boolean>(s, a0, m.on_ground, t0);
    }
}

impl ServerboundPacket for Player {
    open spec fn packet_id(&self) -> IDS {
        IDS::Player
    }

    open spec fn sendable(m: Player) -> bool {
        Self::valid(m)
    }

    open spec fn payload(m: Player) -> Seq<u8> {
        Self::wire(m)
    }

    fn to_bytes(&self) -> (r: Result<Vec<u8>, String>) {
        if !self.check() {
            return Err(unsendable("Player"));
        }
        let mut buf = Vec::new();
        self.encode(&mut buf);
        Ok(buf)
    }

    fn id(&self) -> (r: IDS) {
        IDS::Player
    }
}

/// Where the player is.
#[derive(Debug, Clone, Copy, PartialEq, Eq, Structural)]
pub struct PlayerPosition {
    pub x: Double,
    pub feet_y: Double,
    pub z: Double,
    pub on_ground: Boolean,
}

impl View for PlayerPosition {
    type V = PlayerPosition;

    open spec fn view(&self) -> PlayerPosition {
        *self
    }
}

impl PlayerPosition {
    /// A packet of the given fields.
    pub fn new(x: Double, feet_y: Double, z: Double, on_ground: Boolean) -> (r: Self)
        ensures
            r == (PlayerPosition { x, feet_y, z, on_ground }),
    {
        PlayerPosition { x, feet_y, z, on_ground }
    }
}

impl Wire for PlayerPosition {
    open spec fn valid(m: PlayerPosition) -> bool {
        &&& Double::valid(m.x)
        &&& Double::valid(m.feet_y)
        &&& Double::valid(m.z)
        &&& Boolean::valid(m.on_ground)
    }

    open spec fn wire(m: PlayerPosition) -> Seq<u8> {
        Double::wire(m.x)
            + Double::wire(m.feet_y)
            + Double::wire(m.z)
            + Boolean::wire(m.on_ground)
    }

    open spec fn decoded(s: Seq<u8>) -> Option<(PlayerPosition, int)> {
        let r0 = Double::decoded(s);
        let n0 = taken(r0);
        let f_x = read(r0);
        let r1 = Double::decoded(s.skip(n0));
        let n1 = n0 + taken(r1);
        let f_feet_y = read(r1);
        let r2 = Double::decoded(s.skip(n1));
        let n2 = n1 + taken(r2);
        let f_z = read(r2);
        let r3 = Boolean::decoded(s.skip(n2));
        let n3 = n2 + taken(r3);
        let f_on_ground = read(r3);
        if r0 is Some && r1 is Some && r2 is Some && r3 is Some {
            Some((PlayerPosition { x: f_x, feet_y: f_feet_y, z: f_z, on_ground: f_on_ground }, n3))
        } else {
            None
        }
    }

    fn decode(data: &[u8]) -> (r: Option<(Self, usize)>) {
        let (f_x, k0) = match <Double as Wire>::decode(data) {
            Some(x) => x,
            None => {
                return None;
            },
        };
        proof {
            Double::lemma_decoded_bounds(data@);
        }
        let n0 = k0;
        let (f_feet_y, k1) = match <Double as Wire>::decode(tail(data, n0)) {
            Some(x) => x,
            None => {
                return None;
            },
        };
        proof {
            Double::lemma_decoded_bounds(data@.skip(n0 as int));
        }
        let n1 = n0 + k1;
        let (f_z, k2) = match <Double as Wire>::decode(tail(data, n1)) {
            Some(x) => x,
            None => {
                return None;
            },
        };
        proof {
            Double::lemma_decoded_bounds(data@.skip(n1 as int));
        }
        let n2 = n1 + k2;
        let (f_on_ground, k3) = match <Boolean as Wire>::decode(tail(data, n2)) {
            Some(x) => x,
            None => {
                return None;
            },
        };
        proof {
            Boolean::lemma_decoded_bounds(data@.skip(n2 as int));
        }
        let n3 = n2 + k3;
        Some((PlayerPosition { x: f_x, feet_y: f_feet_y, z: f_z, on_ground: f_on_ground }, n3))
    }

    fn encode(&self, out: &mut Vec<u8>) {
        self.x.encode(out);
        self.feet_y.encode(out);
        self.z.encode(out);
        self.on_ground.encode(out);
        assert(out@ =~= old(out)@ + Self::wire(self@));
    }

    fn check(&self) -> (b: bool) {
        self.x.check()
            && self.feet_y.check()
            && self.z.check()
            && self.on_ground.check()
    }

    proof fn lemma_decoded_bounds(s: Seq<u8>) {
        let r0 = Double::decoded(s);
        Double::lemma_decoded_bounds(s);
        let n0 = taken(r0);
        let f_x = read(r0);
        let r1 = Double::decoded(s.skip(n0));
        Double::lemma_decoded_bounds(s.skip(n0));
        let n1 = n0 + taken(r1);
        let f_feet_y = read(r1);
        let r2 = Double::decoded(s.skip(n1));
        Double::lemma_decoded_bounds(s.skip(n1));
        let n2 = n1 + taken(r2);
        let f_z = read(r2);
        let r3 = Boolean::decoded(s.skip(n2));
        Boolean::lemma_decoded_bounds(s.skip(n2));
        let n3 = n2 + taken(r3);
        let f_on_ground = read(r3);
    }

    proof fn lemma_decoded_wire(m: PlayerPosition, rest: Seq<u8>) {
        let s = Self::wire(m) + rest;
        let w0 = Double::wire(m.x);
        let w1 = Double::wire(m.feet_y);
        let w2 = Double::wire(m.z);
        let w3 = Boolean::wire(m.on_ground);
        let p0 = w0;
        let p1 = p0 + w1;
        let p2 = p1 + w2;
        let p3 = p2 + w3;
        let t3 = rest;
        let t2 = w3 + t3;
        let t1 = w2 + t2;
        let t0 = w1 + t1;
        assert(s == p3 + t3);
        lemma_join(p2, w3, t3);
        lemma_join(p1, w2, t2);
        lemma_join(p0, w1, t1);
        assert(s.skip(0) =~= s);
        let a0 = 0int;
        lemma_field_read::<Double>(s, a0, m.x, t0);
        let a1 = a0 + w0.len();
        lemma_field_read::<Double>(s, a1, m.feet_y, t1);
        let a2 = a1 + w1.len();
        lemma_field_read::<Double>(s, a2, m.z, t2);
        let a3 = a2 + w2.len();
        lemma_field_read::<Boolean>(s, a3, m.on_ground, t3);
    }
}

impl ServerboundPacket for PlayerPosition {
    open spec fn packet_id(&self) -> IDS {
        IDS::PlayerPosition
    }

    open spec fn sendable(m: PlayerPosition) -> bool {
        Self::valid(m)
    }

    open spec fn payload(m: PlayerPosition) -> Seq<u8> {
        Self::wire(m)
    }

    fn to_bytes(&self) -> (r: Result<Vec<u8>, String>) {
        if !self.check() {
            return Err(unsendable("PlayerPosition"));
        }
        let mut buf = Vec::new();
        self.encode(&mut buf);
        Ok(buf)
    }

    fn id(&self) -> (r: IDS) {
        IDS::PlayerPosition
    }
}

/// Where the player looks.
#[derive(Debug, Clone, Copy, PartialEq, Eq, Structural)]
pub struct PlayerLook {
    pub yaw: Float,
    pub pitch: Float,
    pub on_ground: Boolean,
}

impl View for PlayerLook {
    type V = PlayerLook;

    open spec fn view(&self) -> PlayerLook {
        *self
    }
}

impl PlayerLook {
    /// A packet of the given fields.
    pub fn new(yaw: Float, pitch: Float, on_ground: Boolean) -> (r: Self)
        ensures
            r == (PlayerLook { yaw, pitch, on_ground }),
    {
        PlayerLook { yaw, pitch, on_ground }
    }
}

impl Wire for PlayerLook {
    open spec fn valid(m: PlayerLook) -> bool {
        &&& Float::valid(m.yaw)
        &&& Float::valid(m.pitch)
        &&& Boolean::valid(m.on_ground)
    }

    open spec fn wire(m: PlayerLook) -> Seq<u8> {
        Float::wire(m.yaw)
            + Float::wire(m.pitch)
            + Boolean::wire(m.on_ground)
    }

    open spec fn decoded(s: Seq<u8>) -> Option<(PlayerLook, int)> {
        let r0 = Float::decoded(s);
        let n0 = taken(r0);
        let f_yaw = read(r0);
        let r1 = Float::decoded(s.skip(n0));
        let n1 = n0 + taken(r1);
        let f_pitch = read(r1);
        let r2 = Boolean::decoded(s.skip(n1));
        let n2 = n1 + taken(r2);
        let f_on_ground = read(r2);
        if r0 is Some && r1 is Some && r2 is Some {
            Some((PlayerLook { yaw: f_yaw, pitch: f_pitch, on_ground: f_on_ground }, n2))
        } else {
            None
        }
    }

    fn decode(data: &[u8]) -> (r: Option<(Self, usize)>) {
        let (f_yaw, k0) = match <Float as Wire>::decode(data) {
            Some(x) => x,
            None => {
                return None;
            },
        };
        proof {
            Float::lemma_decoded_bounds(data@);
        }
        let n0 = k0;
        let (f_pitch, k1) = match <Float as Wire>::decode(tail(data, n0)) {
            Some(x) => x,
            None => {
                return None;
            },
        };
        proof {
            Float::lemma_decoded_bounds(data@.skip(n0 as int));
        }
        let n1 = n0 + k1;
        let (f_on_ground, k2) = match <Boolean as Wire>::decode(tail(data, n1)) {
            Some(x) => x,
            None => {
                return None;
            },
        };
        proof {
            Boolean::lemma_decoded_bounds(data@.skip(n1 as int));
        }
        let n2 = n1 + k2;
        Some((PlayerLook { yaw: f_yaw, pitch: f_pitch, on_ground: f_on_ground }, n2))
    }

    fn encode(&self, out: &mut Vec<u8>) {
        self.yaw.encode(out);
        self.pitch.encode(out);
        self.on_ground.encode(out);
        assert(out@ =~= old(out)@ + Self::wire(self@));
    }

    fn check(&self) -> (b: bool) {
        self.yaw.check()
            && self.pitch.check()
            && self.on_ground.check()
    }

    proof fn lemma_decoded_bounds(s: Seq<u8>) {
        let r0 = Float::decoded(s);
        Float::lemma_decoded_bounds(s);
        let n0 = taken(r0);
        let f_yaw = read(r0);
        let r1 = Float::decoded(s.skip(n0));
        Float::lemma_decoded_bounds(s.skip(n0));
        let n1 = n0 + taken(r1);
        let f_pitch = read(r1);
        let r2 = Boolean::decoded(s.skip(n1));
        Boolean::lemma_decoded_bounds(s.skip(n1));
        let n2 = n1 + taken(r2);
        let f_on_ground = read(r2);
    }

    proof fn lemma_decoded_wire(m: PlayerLook, rest: Seq<u8>) {
        let s = Self::wire(m) + rest;
        let w0 = Float::wire(m.yaw);
        let w1 = Float::wire(m.pitch);
        let w2 = Boolean::wire(m.on_ground);
        let p0 = w0;
        let p1 = p0 + w1;
        let p2 = p1 + w2;
        let t2 = rest;
        let t1 = w2 + t2;
        let t0 = w1 + t1;
        assert(s == p2 + t2);
        lemma_join(p1, w2, t2);
        lemma_join(p0, w1, t1);
        assert(s.skip(0) =~= s);
        let a0 = 0int;
        lemma_field_read::<Float>(s, a0, m.yaw, t0);
        let a1 = a0 + w0.len();
        lemma_field_read::<Float>(s, a1, m.pitch, t1);
        let a2 = a1 + w1.len();
        lemma_field_read::<Boolean>(s, a2, m.on_ground, t2);
    }
}

impl ServerboundPacket for PlayerLook {
    open spec fn packet_id(&self) -> IDS {
        IDS::PlayerLook
    }

    open spec fn sendable(m: PlayerLook) -> bool {
        Self::valid(m)
    }

    open spec fn payload(m: PlayerLook) -> Seq<u8> {
        Self::wire(m)
    }

    fn to_bytes(&self) -> (r: Result<Vec<u8>, String>) {
        if !self.check() {
            return Err(unsendable("PlayerLook"));
        }
        let mut buf = Vec::new();
        self.encode(&mut buf);
        Ok(buf)
    }

    fn id(&self) -> (r: IDS) {
        IDS::PlayerLook
    }
}

/// Where the player is and looks.
#[derive(Debug, Clone, Copy, PartialEq, Eq, Structural)]
pub struct PlayerPositionAndLookServerbound {
    pub x: Double,
    pub feet_y: Double,
    pub z: Double,
    pub yaw: Float,
    pub pitch: Float,
    pub on_ground: Boolean,
}

impl View for PlayerPositionAndLookServerbound {
    type V = PlayerPositionAndLookServerbound;

    open spec fn view(&self) -> PlayerPositionAndLookServerbound {
        *self
    }
}

impl PlayerPositionAndLookServerbound {
    /// A packet of the given fields.
    pub fn new(
        x: Double,
        feet_y: Double,
        z: Double,
        yaw: Float,
        pitch: Float,
        on_ground: Boolean,
    ) -> (r: Self)
        ensures
            r == (PlayerPositionAndLookServerbound { x, feet_y, z, yaw, pitch, on_ground }),
    {
        PlayerPositionAndLookServerbound { x, feet_y, z, yaw, pitch, on_ground }
    }
}

impl Wire for PlayerPositionAndLookServerbound {
    open spec fn valid(m: PlayerPositionAndLookServerbound) -> bool {
        &&& Double::valid(m.x)
        &&& Double::valid(m.feet_y)
        &&& Double::valid(m.z)
        &&& Float::valid(m.yaw)
        &&& Float::valid(m.pitch)
        &&& Boolean::valid(m.on_ground)
    }

    open spec fn wire(m: PlayerPositionAndLookServerbound) -> Seq<u8> {
        Double::wire(m.x)
            + Double::wire(m.feet_y)
            + Double::wire(m.z)
            + Float::wire(m.yaw)
            + Float::wire(m.pitch)
            + Boolean::wire(m.on_ground)
    }

    open spec fn decoded(s: Seq<u8>) -> Option<(PlayerPositionAndLookServerbound, int)> {
        let r0 = Double::decoded(s);
        let n0 = taken(r0);
        let f_x = read(r0);
        let r1 = Double::decoded(s.skip(n0));
        let n1 = n0 + taken(r1);
        let f_feet_y = read(r1);
        let r2 = Double::decoded(s.skip(n1));
        let n2 = n1 + taken(r2);
        let f_z = read(r2);
        let r3 = Float::decoded(s.skip(n2));
        let n3 = n2 + taken(r3);
        let f_yaw = read(r3);
        let r4 = Float::decoded(s.skip(n3));
        let n4 = n3 + taken(r4);
        let f_pitch = read(r4);
        let r5 = Boolean::decoded(s.skip(n4));
        let n5 = n4 + taken(r5);
        let f_on_ground = read(r5);
        if r0 is Some && r1 is Some && r2 is Some && r3 is Some && r4 is Some && r5 is Some {
            Some(
                (
                    PlayerPositionAndLookServerbound {
                        x: f_x,
                        feet_y: f_feet_y,
                        z: f_z,
                        yaw: f_yaw,
                        pitch: f_pitch,
                        on_ground: f_on_ground,
                    },
                    n5,
                ),
            )
        } else {
            None
        }
    }

    fn decode(data: &[u8]) -> (r: Option<(Self, usize)>) {
        let (f_x, k0) = match <Double as Wire>::decode(data) {
            Some(x) => x,
            None => {
                return None;
            },
        };
        proof {
            Double::lemma_decoded_bounds(data@);
        }
        let n0 = k0;
        let (f_feet_y, k1) = match <Double as Wire>::decode(tail(data, n0)) {
            Some(x) => x,
            None => {
                return None;
            },
        };
        proof {
            Double::lemma_decoded_bounds(data@.skip(n0 as int));
        }
        let n1 = n0 + k1;
        let (f_z, k2) = match <Double as Wire>::decode(tail(data, n1)) {
            Some(x) => x,
            None => {
                return None;
            },
        };
        proof {
            Double::lemma_decoded_bounds(data@.skip(n1 as int));
        }
        let n2 = n1 + k2;
        let (f_yaw, k3) = match <Float as Wire>::decode(tail(data, n2)) {
            Some(x) => x,
            None => {
                return None;
            },
        };
        proof {
            Float::lemma_decoded_bounds(data@.skip(n2 as int));
        }
        let n3 = n2 + k3;
        let (f_pitch, k4) = match <Float as Wire>::decode(tail(data, n3)) {
            Some(x) => x,
            None => {
                return None;
            },
        };
        proof {
            Float::lemma_decoded_bounds(data@.skip(n3 as int));
        }
        let n4 = n3 + k4;
        let (f_on_ground, k5) = match <Boolean as Wire>::decode(tail(data, n4)) {
            Some(x) => x,
            None => {
                return None;
            },
        };
        proof {
            Boolean::lemma_decoded_bounds(data@.skip(n4 as int));
        }
        let n5 = n4 + k5;
        Some(
            (
                PlayerPositionAndLookServerbound {
                    x: f_x,
                    feet_y: f_feet_y,
                    z: f_z,
                    yaw: f_yaw,
                    pitch: f_pitch,
                    on_ground: f_on_ground,
                },
                n5,
            ),
        )
    }

    fn encode(&self, out: &mut Vec<u8>) {
        self.x.encode(out);
        self.feet_y.encode(out);
        self.z.encode(out);
        self.yaw.encode(out);
        self.pitch.encode(out);
        self.on_ground.encode(out);
        assert(out@ =~= old(out)@ + Self::wire(self@));
    }

    fn check(&self) -> (b: bool) {
        self.x.check()
            && self.feet_y.check()
            && self.z.check()
            && self.yaw.check()
            && self.pitch.check()
            && self.on_ground.check()
    }

    proof fn lemma_decoded_bounds(s: Seq<u8>) {
        let r0 = Double::decoded(s);
        Double::lemma_decoded_bounds(s);
        let n0 = taken(r0);
        let f_x = read(r0);
        let r1 = Double::decoded(s.skip(n0));
        Double::lemma_decoded_bounds(s.skip(n0));
        let n1 = n0 + taken(r1);
        let f_feet_y = read(r1);
        let r2 = Double::decoded(s.skip(n1));
        Double::lemma_decoded_bounds(s.skip(n1));
        let n2 = n1 + taken(r2);
        let f_z = read(r2);
        let r3 = Float::decoded(s.skip(n2));
        Float::lemma_decoded_bounds(s.skip(n2));
        let n3 = n2 + taken(r3);
        let f_yaw = read(r3);
        let r4 = Float::decoded(s.skip(n3));
        Float::lemma_decoded_bounds(s.skip(n3));
        let n4 = n3 + taken(r4);
        let f_pitch = read(r4);
        let r5 = Boolean::decoded(s.skip(n4));
        Boolean::lemma_decoded_bounds(s.skip(n4));
        let n5 = n4 + taken(r5);
        let f_on_ground = read(r5);
    }

    proof fn lemma_decoded_wire(m: PlayerPositionAndLookServerbound, rest: Seq<u8>) {
        let s = Self::wire(m) + rest;
        let w0 = Double::wire(m.x);
        let w1 = Double::wire(m.feet_y);
        let w2 = Double::wire(m.z);
        let w3 = Float::wire(m.yaw);
        let w4 = Float::wire(m.pitch);
        let w5 = Boolean::wire(m.on_ground);
        let p0 = w0;
        let p1 = p0 + w1;
        let p2 = p1 + w2;
        let p3 = p2 + w3;
        let p4 = p3 + w4;
        let p5 = p4 + w5;
        let t5 = rest;
        let t4 = w5 + t5;
        let t3 = w4 + t4;
        let t2 = w3 + t3;
        let t1 = w2 + t2;
        let t0 = w1 + t1;
        assert(s == p5 + t5);
        lemma_join(p4, w5, t5);
        lemma_join(p3, w4, t4);
        lemma_join(p2, w3, t3);
        lemma_join(p1, w2, t2);
        lemma_join(p0, w1, t1);
        assert(s.skip(0) =~= s);
        let a0 = 0int;
        lemma_field_read::<Double>(s, a0, m.x, t0);
        let a1 = a0 + w0.len();
        lemma_field_read::<Double>(s, a1, m.feet_y, t1);
        let a2 = a1 + w1.len();
        lemma_field_read::<Double>(s, a2, m.z, t2);
        let a3 = a2 + w2.len();
        lemma_field_read::<Float>(s, a3, m.yaw, t3);
        let a4 = a3 + w3.len();
        lemma_field_read::<Float>(s, a4, m.pitch, t4);
        let a5 = a4 + w4.len();
        lemma_field_read::<Boolean>(s, a5, m.on_ground, t5);
    }
}

impl ServerboundPacket for PlayerPositionAndLookServerbound {
    open spec fn packet_id(&self) -> IDS {
        IDS::PlayerPositionAndLookServerbound
    }

    open spec fn sendable(m: PlayerPositionAndLookServerbound) -> bool {
        Self::valid(m)
    }

    open spec fn payload(m: PlayerPositionAndLookServerbound) -> Seq<u8> {
        Self::wire(m)
    }

    fn to_bytes(&self) -> (r: Result<Vec<u8>, String>) {
        if !self.check() {
            return Err(unsendable("PlayerPositionAndLookServerbound"));
        }
        let mut buf = Vec::new();
        self.encode(&mut buf);
        Ok(buf)
    }

    fn id(&self) -> (r: IDS) {
        IDS::PlayerPositionAndLookServerbound
    }
}

/// The player digs, or drops or uses the item in hand.
#[derive(Debug, Clone, Copy, PartialEq, Eq, Structural)]
pub struct PlayerDigging {
    pub status: Byte,
    pub location: Position,
    pub face: Byte,
}

impl View for PlayerDigging {
    type V = PlayerDigging;

    open spec fn view(&self) -> PlayerDigging {
        *self
    }
}

impl PlayerDigging {
    /// A packet of the given fields.
    pub fn new(status: Byte, location: Position, face: Byte) -> (r: Self)
        ensures
            r == (PlayerDigging { status, location, face }),
    {
        PlayerDigging { status, location, face }
    }
}

impl Wire for PlayerDigging {
    open spec fn valid(m: PlayerDigging) -> bool {
        &&& Byte::valid(m.status)
        &&& Position::valid(m.location)
        &&& Byte::valid(m.face)
    }

    open spec fn wire(m: PlayerDigging) -> Seq<u8> {
        Byte::wire(m.status)
            + Position::wire(m.location)
            + Byte::wire(m.face)
    }

    open spec fn decoded(s: Seq<u8>) -> Option<(PlayerDigging, int)> {
        let r0 = Byte::decoded(s);
        let n0 = taken(r0);
        let f_status = read(r0);
        let r1 = Position::decoded(s.skip(n0));
        let n1 = n0 + taken(r1);
        let f_location = read(r1);
        let r2 = Byte::decoded(s.skip(n1));
        let n2 = n1 + taken(r2);
        let f_face = read(r2);
        if r0 is Some && r1 is Some && r2 is Some {
            Some((PlayerDigging { status: f_status, location: f_location, face: f_face }, n2))
        } else {
            None
        }
    }

    fn decode(data: &[u8]) -> (r: Option<(Self, usize)>) {
        let (f_status, k0) = match <Byte as Wire>::decode(data) {
            Some(x) => x,
            None => {
                return None;
            },
        };
        proof {
            Byte::lemma_decoded_bounds(data@);
        }
        let n0 = k0;
        let (f_location, k1) = match <Position as Wire>::decode(tail(data, n0)) {
            Some(x) => x,
            None => {
                return None;
            },
        };
        proof {
            Position::lemma_decoded_bounds(data@.skip(n0 as int));
        }
        let n1 = n0 + k1;
        let (f_face, k2) = match <Byte as Wire>::decode(tail(data, n1)) {
            Some(x) => x,
            None => {
                return None;
            },
        };
        proof {
            Byte::lemma_decoded_bounds(data@.skip(n1 as int));
        }
        let n2 = n1 + k2;
        Some((PlayerDigging { status: f_status, location: f_location, face: f_face }, n2))
    }

    fn encode(&self, out: &mut Vec<u8>) {
        self.status.encode(out);
        self.location.encode(out);
        self.face.encode(out);
        assert(out@ =~= old(out)@ + Self::wire(self@));
    }

    fn check(&self) -> (b: bool) {
        self.status.check()
            && self.location.check()
            && self.face.check()
    }

    proof fn lemma_decoded_bounds(s: Seq<u8>) {
        let r0 = Byte::decoded(s);
        Byte::lemma_decoded_bounds(s);
        let n0 = taken(r0);
        let f_status = read(r0);
        let r1 = Position::decoded(s.skip(n0));
        Position::lemma_decoded_bounds(s.skip(n0));
        let n1 = n0 + taken(r1);
        let f_location = read(r1);
        let r2 = Byte::decoded(s.skip(n1));
        Byte::lemma_decoded_bounds(s.skip(n1));
        let n2 = n1 + taken(r2);
        let f_face = read(r2);
    }

    proof fn lemma_decoded_wire(m: PlayerDigging, rest: Seq<u8>) {
        let s = Self::wire(m) + rest;
        let w0 = Byte::wire(m.status);
        let w1 = Position::wire(m.location);
        let w2 = Byte::wire(m.face);
        let p0 = w0;
        let p1 = p0 + w1;
        let p2 = p1 + w2;
        let t2 = rest;
        let t1 = w2 + t2;
        let t0 = w1 + t1;
        assert(s == p2 + t2);
        lemma_join(p1, w2, t2);
        lemma_join(p0, w1, t1);
        assert(s.skip(0) =~= s);
        let a0 = 0int;
        lemma_field_read::<Byte>(s, a0, m.status, t0);
        let a1 = a0 + w0.len();
        lemma_field_read::<Position>(s, a1, m.location, t1);
        let a2 = a1 + w1.len();
        lemma_field_read::<Byte>(s, a2, m.face, t2);
    }
}

impl ServerboundPacket for PlayerDigging {
    open spec fn packet_id(&self) -> IDS {
        IDS::PlayerDigging
    }

    open spec fn sendable(m: PlayerDigging) -> bool {
        Self::valid(m)
    }

    open spec fn payload(m: PlayerDigging) -> Seq<u8> {
        Self::wire(m)
    }

    fn to_bytes(&self) -> (r: Result<Vec<u8>, String>) {
        if !self.check() {
            return Err(unsendable("PlayerDigging"));
        }
        let mut buf = Vec::new();
        self.encode(&mut buf);
        Ok(buf)
    }

    fn id(&self) -> (r: IDS) {
        IDS::PlayerDigging
    }
}

/// The player places a block or uses an item.
#[derive(Debug, Clone, PartialEq, Eq)]
pub struct PlayerBlockPlacement {
    pub location: Position,
    pub face: Byte,
    pub held_item: Slot,
    pub cursor_position_x: Byte,
    pub cursor_position_y: Byte,
    pub cursor_position_z: Byte,
}

/// What a `PlayerBlockPlacement` holds.
pub struct PlayerBlockPlacementModel {
    pub location: Position,
    pub face: Byte,
    pub held_item: SlotModel,
    pub cursor_position_x: Byte,
    pub cursor_position_y: Byte,
    pub cursor_position_z: Byte,
}

impl View for PlayerBlockPlacement {
    type V = PlayerBlockPlacementModel;

    open spec fn view(&self) -> PlayerBlockPlacementModel {
        PlayerBlockPlacementModel {
            location: self.location@,
            face: self.face@,
            held_item: self.held_item@,
            cursor_position_x: self.cursor_position_x@,
            cursor_position_y: self.cursor_position_y@,
            cursor_position_z: self.cursor_position_z@,
        }
    }
}

impl PlayerBlockPlacement {
    /// A packet of the given fields.
    pub fn new(
        location: Position,
        face: Byte,
        held_item: Slot,
        cursor_position_x: Byte,
        cursor_position_y: Byte,
        cursor_position_z: Byte,
    ) -> (r: Self)
        ensures
            r == (PlayerBlockPlacement {
                location,
                face,
                held_item,
                cursor_position_x,
                cursor_position_y,
                cursor_position_z,
            }),
    {
        PlayerBlockPlacement {
            location,
            face,
            held_item,
            cursor_position_x,
            cursor_position_y,
            cursor_position_z,
        }
    }
}

impl Wire for PlayerBlockPlacement {
    open spec fn valid(m: PlayerBlockPlacementModel) -> bool {
        &&& Position::valid(m.location)
        &&& Byte::valid(m.face)
        &&& Slot::valid(m.held_item)
        &&& Byte::valid(m.cursor_position_x)
        &&& Byte::valid(m.cursor_position_y)
        &&& Byte::valid(m.cursor_position_z)
    }

    open spec fn wire(m: PlayerBlockPlacementModel) -> Seq<u8> {
        Position::wire(m.location)
            + Byte::wire(m.face)
            + Slot::wire(m.held_item)
            + Byte::wire(m.cursor_position_x)
            + Byte::wire(m.cursor_position_y)
            + Byte::wire(m.cursor_position_z)
    }

    open spec fn decoded(s: Seq<u8>) -> Option<(PlayerBlockPlacementModel, int)> {
        let r0 = Position::decoded(s);
        let n0 = taken(r0);
        let f_location = read(r0);
        let r1 = Byte::decoded(s.skip(n0));
        let n1 = n0 + taken(r1);
        let f_face = read(r1);
        let r2 = Slot::decoded(s.skip(n1));
        let n2 = n1 + taken(r2);
        let f_held_item = read(r2);
        let r3 = Byte::decoded(s.skip(n2));
        let n3 = n2 + taken(r3);
        let f_cursor_position_x = read(r3);
        let r4 = Byte::decoded(s.skip(n3));
        let n4 = n3 + taken(r4);
        let f_cursor_position_y = read(r4);
        let r5 = Byte::decoded(s.skip(n4));
        let n5 = n4 + taken(r5);
        let f_cursor_position_z = read(r5);
        if r0 is Some && r1 is Some && r2 is Some && r3 is Some && r4 is Some && r5 is Some {
            Some(
                (
                    PlayerBlockPlacementModel {
                        location: f_location,
                        face: f_face,
                        held_item: f_held_item,
                        cursor_position_x: f_cursor_position_x,
                        cursor_position_y: f_cursor_position_y,
                        cursor_position_z: f_cursor_position_z,
                    },
                    n5,
                ),
            )
        } else {
            None
        }
    }

    fn decode(data: &[u8]) -> (r: Option<(Self, usize)>) {
        let (f_location, k0) = match <Position as Wire>::decode(data) {
            Some(x) => x,
            None => {
                return None;
            },
        };
        proof {
            Position::lemma_decoded_bounds(data@);
        }
        let n0 = k0;
        let (f_face, k1) = match <Byte as Wire>::decode(tail(data, n0)) {
            Some(x) => x,
            None => {
                return None;
            },
        };
        proof {
            Byte::lemma_decoded_bounds(data@.skip(n0 as int));
        }
        let n1 = n0 + k1;
        let (f_held_item, k2) = match <Slot as Wire>::decode(tail(data, n1)) {
            Some(x) => x,
            None => {
                return None;
            },
        };
        proof {
            Slot::lemma_decoded_bounds(data@.skip(n1 as int));
        }
        let n2 = n1 + k2;
        let (f_cursor_position_x, k3) = match <Byte as Wire>::decode(tail(data, n2)) {
            Some(x) => x,
            None => {
                return None;
            },
        };
        proof {
            Byte::lemma_decoded_bounds(data@.skip(n2 as int));
        }
        let n3 = n2 + k3;
        let (f_cursor_position_y, k4) = match <Byte as Wire>::decode(tail(data, n3)) {
            Some(x) => x,
            None => {
                return None;
            },
        };
        proof {
            Byte::lemma_decoded_bounds(data@.skip(n3 as int));
        }
        let n4 = n3 + k4;
        let (f_cursor_position_z, k5) = match <Byte as Wire>::decode(tail(data, n4)) {
            Some(x) => x,
            None => {
                return None;
            },
        };
        proof {
            Byte::lemma_decoded_bounds(data@.skip(n4 as int));
        }
        let n5 = n4 + k5;
        Some(
            (
                PlayerBlockPlacement {
                    location: f_location,
                    face: f_face,
                    held_item: f_held_item,
                    cursor_position_x: f_cursor_position_x,
                    cursor_position_y: f_cursor_position_y,
                    cursor_position_z: f_cursor_position_z,
                },
                n5,
            ),
        )
    }

    fn encode(&self, out: &mut Vec<u8>) {
        self.location.encode(out);
        self.face.encode(out);
        self.held_item.encode(out);
        self.cursor_position_x.encode(out);
        self.cursor_position_y.encode(out);
        self.cursor_position_z.encode(out);
        assert(out@ =~= old(out)@ + Self::wire(self@));
    }

    fn check(&self) -> (b: bool) {
        self.location.check()
            && self.face.check()
            && self.held_item.check()
            && self.cursor_position_x.check()
            && self.cursor_position_y.check()
            && self.cursor_position_z.check()
    }

    proof fn lemma_decoded_bounds(s: Seq<u8>) {
        let r0 = Position::decoded(s);
        Position::lemma_decoded_bounds(s);
        let n0 = taken(r0);
        let f_location = read(r0);
        let r1 = Byte::decoded(s.skip(n0));
        Byte::lemma_decoded_bounds(s.skip(n0));
        let n1 = n0 + taken(r1);
        let f_face = read(r1);
        let r2 = Slot::decoded(s.skip(n1));
        Slot::lemma_decoded_bounds(s.skip(n1));
        let n2 = n1 + taken(r2);
        let f_held_item = read(r2);
        let r3 = Byte::decoded(s.skip(n2));
        Byte::lemma_decoded_bounds(s.skip(n2));
        let n3 = n2 + taken(r3);
        let f_cursor_position_x = read(r3);
        let r4 = Byte::decoded(s.skip(n3));
        Byte::lemma_decoded_bounds(s.skip(n3));
        let n4 = n3 + taken(r4);
        let f_cursor_position_y = read(r4);
        let r5 = Byte::decoded(s.skip(n4));
        Byte::lemma_decoded_bounds(s.skip(n4));
        let n5 = n4 + taken(r5);
        let f_cursor_position_z = read(r5);
    }

    proof fn lemma_decoded_wire(m: PlayerBlockPlacementModel, rest: Seq<u8>) {
        let s = Self::wire(m) + rest;
        let w0 = Position::wire(m.location);
        let w1 = Byte::wire(m.face);
        let w2 = Slot::wire(m.held_item);
        let w3 = Byte::wire(m.cursor_position_x);
        let w4 = Byte::wire(m.cursor_position_y);
        let w5 = Byte::wire(m.cursor_position_z);
        let p0 = w0;
        let p1 = p0 + w1;
        let p2 = p1 + w2;
        let p3 = p2 + w3;
        let p4 = p3 + w4;
        let p5 = p4 + w5;
        let t5 = rest;
        let t4 = w5 + t5;
        let t3 = w4 + t4;
        let t2 = w3 + t3;
        let t1 = w2 + t2;
        let t0 = w1 + t1;
        assert(s == p5 + t5);
        lemma_join(p4, w5, t5);
        lemma_join(p3, w4, t4);
        lemma_join(p2, w3, t3);
        lemma_join(p1, w2, t2);
        lemma_join(p0, w1, t1);
        assert(s.skip(0) =~= s);
        let a0 = 0int;
        lemma_field_read::<Position>(s, a0, m.location, t0);
        let a1 = a0 + w0.len();
        lemma_field_read::<Byte>(s, a1, m.face, t1);
        let a2 = a1 + w1.len();
        lemma_field_read::<Slot>(s, a2, m.held_item, t2);
        let a3 = a2 + w2.len();
        lemma_field_read::<Byte>(s, a3, m.cursor_position_x, t3);
        let a4 = a3 + w3.len();
        lemma_field_read::<Byte>(s, a4, m.cursor_position_y, t4);
        let a5 = a4 + w4.len();
        lemma_field_read::<Byte>(s, a5, m.cursor_position_z, t5);
    }
}

impl ServerboundPacket for PlayerBlockPlacement {
    open spec fn packet_id(&self) -> IDS {
        IDS::PlayerBlockPlacement
    }

    open spec fn sendable(m: PlayerBlockPlacementModel) -> bool {
        Self::valid(m)
    }

    open spec fn payload(m: PlayerBlockPlacementModel) -> Seq<u8> {
        Self::wire(m)
    }

    fn to_bytes(&self) -> (r: Result<Vec<u8>, String>) {
        if !self.check() {
            return Err(unsendable("PlayerBlockPlacement"));
        }
        let mut buf = Vec::new();
        self.encode(&mut buf);
        Ok(buf)
    }

    fn id(&self) -> (r: IDS) {
        IDS::PlayerBlockPlacement
    }
}

/// The player has selected a slot of the hotbar.
#[derive(Debug, Clone, Copy, PartialEq, Eq, Structural)]
pub struct HeldItemChangeServerbound {
    pub slot: Short,
}

impl View for HeldItemChangeServerbound {
    type V = HeldItemChangeServerbound;

    open spec fn view(&self) -> HeldItemChangeServerbound {
        *self
    }
}

impl HeldItemChangeServerbound {
    /// A packet of the given fields.
    pub fn new(slot: Short) -> (r: Self)
        ensures
            r == (HeldItemChangeServerbound { slot }),
    {
        HeldItemChangeServerbound { slot }
    }
}

impl Wire for HeldItemChangeServerbound {
    open spec fn valid(m: HeldItemChangeServerbound) -> bool {
        &&& Short::valid(m.slot)
    }

    open spec fn wire(m: HeldItemChangeServerbound) -> Seq<u8> {
        Short::wire(m.slot)
    }

    open spec fn decoded(s: Seq<u8>) -> Option<(HeldItemChangeServerbound, int)> {
        let r0 = Short::decoded(s);
        let n0 = taken(r0);
        let f_slot = read(r0);
        if r0 is Some {
            Some((HeldItemChangeServerbound { slot: f_slot }, n0))
        } else {
            None
        }
    }

    fn decode(data: &[u8]) -> (r: Option<(Self, usize)>) {
        let (f_slot, k0) = match <Short as Wire>::decode(data) {
            Some(x) => x,
            None => {
                return None;
            },
        };
        proof {
            Short::lemma_decoded_bounds(data@);
        }
        let n0 = k0;
        Some((HeldItemChangeServerbound { slot: f_slot }, n0))
    }

    fn encode(&self, out: &mut Vec<u8>) {
        self.slot.encode(out);
        assert(out@ =~= old(out)@ + Self::wire(self@));
    }

    fn check(&self) -> (b: bool) {
        self.slot.check()
    }

    proof fn lemma_decoded_bounds(s: Seq<u8>) {
        let r0 = Short::decoded(s);
        Short::lemma_decoded_bounds(s);
        let n0 = taken(r0);
        let f_slot = read(r0);
    }

    proof fn lemma_decoded_wire(m: HeldItemChangeServerbound, rest: Seq<u8>) {
        let s = Self::wire(m) + rest;
        let w0 = Short::wire(m.slot);
        let p0 = w0;
        let t0 = rest;
        assert(s == p0 + t0);
        assert(s.skip(0) =~= s);
        let a0 = 0int;
        lemma_field_read::<Short>(s, a0, m.slot, t0);
    }
}

impl ServerboundPacket for HeldItemChangeServerbound {
    open spec fn packet_id(&self) -> IDS {
        IDS::HeldItemChangeServerbound
    }

    open spec fn sendable(m: HeldItemChangeServerbound) -> bool {
        Self::valid(m)
    }

    open spec fn payload(m: HeldItemChangeServerbound) -> Seq<u8> {
        Self::wire(m)
    }

    fn to_bytes(&self) -> (r: Result<Vec<u8>, String>) {
        if !self.check() {
            return Err(unsendable("HeldItemChangeServerbound"));
        }
        let mut buf = Vec::new();
        self.encode(&mut buf);
        Ok(buf)
    }

    fn id(&self) -> (r: IDS) {
        IDS::HeldItemChangeServerbound
    }
}

/// The player swings an arm. The packet has no fields.
#[derive(Debug, Clone, Copy, PartialEq, Eq, Structural)]
pub struct AnimationServerbound {}

impl View for AnimationServerbound {
    type V = AnimationServerbound;

    open spec fn view(&self) -> AnimationServerbound {
        *self
    }
}

impl AnimationServerbound {
    /// The packet: it has no fields.
    pub fn new() -> (r: Self) {
        AnimationServerbound {}
    }
}

impl Wire for AnimationServerbound {
    open spec fn valid(m: AnimationServerbound) -> bool {
        true
    }

    open spec fn wire(m: AnimationServerbound) -> Seq<u8> {
        Seq::empty()
    }

    open spec fn decoded(s: Seq<u8>) -> Option<(AnimationServerbound, int)> {
        Some((AnimationServerbound {}, 0))
    }

    fn decode(data: &[u8]) -> (r: Option<(Self, usize)>) {
        Some((AnimationServerbound {}, 0))
    }

    fn encode(&self, out: &mut Vec<u8>) {
        assert(out@ =~= old(out)@ + Self::wire(self@));
    }

    fn check(&self) -> (b: bool) {
        true
    }

    proof fn lemma_decoded_bounds(s: Seq<u8>) {
    }

    proof fn lemma_decoded_wire(m: AnimationServerbound, rest: Seq<u8>) {
    }
}

impl ServerboundPacket for AnimationServerbound {
    open spec fn packet_id(&self) -> IDS {
        IDS::AnimationServerbound
    }

    open spec fn sendable(m: AnimationServerbound) -> bool {
        Self::valid(m)
    }

    open spec fn payload(m: AnimationServerbound) -> Seq<u8> {
        Self::wire(m)
    }

    fn to_bytes(&self) -> (r: Result<Vec<u8>, String>) {
        if !self.check() {
            return Err(unsendable("AnimationServerbound"));
        }
        let mut buf = Vec::new();
        self.encode(&mut buf);
        Ok(buf)
    }

    fn id(&self) -> (r: IDS) {
        IDS::AnimationServerbound
    }
}

/// The player crouches, sprints, leaves a bed or the like.
#[derive(Debug, Clone, Copy, PartialEq, Eq, Structural)]
pub struct EntityAction {
    pub entity_id: VarInt,
    pub action_id: VarInt,
    pub action_parameter: VarInt,
}

impl View for EntityAction {
    type V = EntityAction;

    open spec fn view(&self) -> EntityAction {
        *self
    }
}

impl EntityAction {
    /// A packet of the given fields.
    pub fn new(entity_id: VarInt, action_id: VarInt, action_parameter: VarInt) -> (r: Self)
        ensures
            r == (EntityAction { entity_id, action_id, action_parameter }),
    {
        EntityAction { entity_id, action_id, action_parameter }
    }
}

impl Wire for EntityAction {
    open spec fn valid(m: EntityAction) -> bool {
        &&& VarInt::valid(m.entity_id)
        &&& VarInt::valid(m.action_id)
        &&& VarInt::valid(m.action_parameter)
    }

    open spec fn wire(m: EntityAction) -> Seq<u8> {
        VarInt::wire(m.entity_id)
            + VarInt::wire(m.action_id)
            + VarInt::wire(m.action_parameter)
    }

    open spec fn decoded(s: Seq<u8>) -> Option<(EntityAction, int)> {
        let r0 = VarInt::decoded(s);
        let n0 = taken(r0);
        let f_entity_id = read(r0);
        let r1 = VarInt::decoded(s.skip(n0));
        let n1 = n0 + taken(r1);
        let f_action_id = read(r1);
        let r2 = VarInt::decoded(s.skip(n1));
        let n2 = n1 + taken(r2);
        let f_action_parameter = read(r2);
        if r0 is Some && r1 is Some && r2 is Some {
            Some(
                (
                    EntityAction {
                        entity_id: f_entity_id,
                        action_id: f_action_id,
                        action_parameter: f_action_parameter,
                    },
                    n2,
                ),
            )
        } else {
            None
        }
    }

    fn decode(data: &[u8]) -> (r: Option<(Self, usize)>) {
        let (f_entity_id, k0) = match <VarInt as Wire>::decode(data) {
            Some(x) => x,
            None => {
                return None;
            },
        };
        proof {
            VarInt::lemma_decoded_bounds(data@);
        }
        let n0 = k0;
        let (f_action_id, k1) = match <VarInt as Wire>::decode(tail(data, n0)) {
            Some(x) => x,
            None => {
                return None;
            },
        };
        proof {
            VarInt::lemma_decoded_bounds(data@.skip(n0 as int));
        }
        let n1 = n0 + k1;
        let (f_action_parameter, k2) = match <VarInt as Wire>::decode(tail(data, n1)) {
            Some(x) => x,
            None => {
                return None;
            },
        };
        proof {
            VarInt::lemma_decoded_bounds(data@.skip(n1 as int));
        }
        let n2 = n1 + k2;
        Some(
            (
                EntityAction {
                    entity_id: f_entity_id,
                    action_id: f_action_id,
                    action_parameter: f_action_parameter,
                },
                n2,
            ),
        )
    }

    fn encode(&self, out: &mut Vec<u8>) {
        self.entity_id.encode(out);
        self.action_id.encode(out);
        self.action_parameter.encode(out);
        assert(out@ =~= old(out)@ + Self::wire(self@));
    }

    fn check(&self) -> (b: bool) {
        self.entity_id.check()
            && self.action_id.check()
            && self.action_parameter.check()
    }

    proof fn lemma_decoded_bounds(s: Seq<u8>) {
        let r0 = VarInt::decoded(s);
        VarInt::lemma_decoded_bounds(s);
        let n0 = taken(r0);
        let f_entity_id = read(r0);
        let r1 = VarInt::decoded(s.skip(n0));
        VarInt::lemma_decoded_bounds(s.skip(n0));
        let n1 = n0 + taken(r1);
        let f_action_id = read(r1);
        let r2 = VarInt::decoded(s.skip(n1));
        VarInt::lemma_decoded_bounds(s.skip(n1));
        let n2 = n1 + taken(r2);
        let f_action_parameter = read(r2);
    }

    proof fn lemma_decoded_wire(m: EntityAction, rest: Seq<u8>) {
        let s = Self::wire(m) + rest;
        let w0 = VarInt::wire(m.entity_id);
        let w1 = VarInt::wire(m.action_id);
        let w2 = VarInt::wire(m.action_parameter);
        let p0 = w0;
        let p1 = p0 + w1;
        let p2 = p1 + w2;
        let t2 = rest;
        let t1 = w2 + t2;
        let t0 = w1 + t1;
        assert(s == p2 + t2);
        lemma_join(p1, w2, t2);
        lemma_join(p0, w1, t1);
        assert(s.skip(0) =~= s);
        let a0 = 0int;
        lemma_field_read::<VarInt>(s, a0, m.entity_id, t0);
        let a1 = a0 + w0.len();
        lemma_field_read::<VarInt>(s, a1, m.action_id, t1);
        let a2 = a1 + w1.len();
        lemma_field_read::<VarInt>(s, a2, m.action_parameter, t2);
    }
}

impl ServerboundPacket for EntityAction {
    open spec fn packet_id(&self) -> IDS {
        IDS::EntityAction
    }

    open spec fn sendable(m: EntityAction) -> bool {
        Self::valid(m)
    }

    open spec fn payload(m: EntityAction) -> Seq<u8> {
        Self::wire(m)
    }

    fn to_bytes(&self) -> (r: Result<Vec<u8>, String>) {
        if !self.check() {
            return Err(unsendable("EntityAction"));
        }
        let mut buf = Vec::new();
        self.encode(&mut buf);
        Ok(buf)
    }

    fn id(&self) -> (r: IDS) {
        IDS::EntityAction
    }
}

/// The player steers a vehicle.
#[derive(Debug, Clone, Copy, PartialEq, Eq, Structural)]
pub struct SteerVehicle {
    pub sideways: Float,
    pub forward: Float,
    pub flags: UnsignedByte,
}

impl View for SteerVehicle {
    type V = SteerVehicle;

    open spec fn view(&self) -> SteerVehicle {
        *self
    }
}

impl SteerVehicle {
    /// A packet of the given fields.
    pub fn new(sideways: Float, forward: Float, flags: UnsignedByte) -> (r: Self)
        ensures
            r == (SteerVehicle { sideways, forward, flags }),
    {
        SteerVehicle { sideways, forward, flags }
    }
}

impl Wire for SteerVehicle {
    open spec fn valid(m: SteerVehicle) -> bool {
        &&& Float::valid(m.sideways)
        &&& Float::valid(m.forward)
        &&& UnsignedByte::valid(m.flags)
    }

    open spec fn wire(m: SteerVehicle) -> Seq<u8> {
        Float::wire(m.sideways)
            + Float::wire(m.forward)
            + UnsignedByte::wire(m.flags)
    }

    open spec fn decoded(s: Seq<u8>) -> Option<(SteerVehicle, int)> {
        let r0 = Float::decoded(s);
        let n0 = taken(r0);
        let f_sideways = read(r0);
        let r1 = Float::decoded(s.skip(n0));
        let n1 = n0 + taken(r1);
        let f_forward = read(r1);
        let r2 = UnsignedByte::decoded(s.skip(n1));
        let n2 = n1 + taken(r2);
        let f_flags = read(r2);
        if r0 is Some && r1 is Some && r2 is Some {
            Some((SteerVehicle { sideways: f_sideways, forward: f_forward, flags: f_flags }, n2))
        } else {
            None
        }
    }

    fn decode(data: &[u8]) -> (r: Option<(Self, usize)>) {
        let (f_sideways, k0) = match <Float as Wire>::decode(data) {
            Some(x) => x,
            None => {
                return None;
            },
        };
        proof {
            Float::lemma_decoded_bounds(data@);
        }
        let n0 = k0;
        let (f_forward, k1) = match <Float as Wire>::decode(tail(data, n0)) {
            Some(x) => x,
            None => {
                return None;
            },
        };
        proof {
            Float::lemma_decoded_bounds(data@.skip(n0 as int));
        }
        let n1 = n0 + k1;
        let (f_flags, k2) = match <UnsignedByte as Wire>::decode(tail(data, n1)) {
            Some(x) => x,
            None => {
                return None;
            },
        };
        proof {
            UnsignedByte::lemma_decoded_bounds(data@.skip(n1 as int));
        }
        let n2 = n1 + k2;
        Some((SteerVehicle { sideways: f_sideways, forward: f_forward, flags: f_flags }, n2))
    }

    fn encode(&self, out: &mut Vec<u8>) {
        self.sideways.encode(out);
        self.forward.encode(out);
        self.flags.encode(out);
        assert(out@ =~= old(out)@ + Self::wire(self@));
    }

    fn check(&self) -> (b: bool) {
        self.sideways.check()
            && self.forward.check()
            && self.flags.check()
    }

    proof fn lemma_decoded_bounds(s: Seq<u8>) {
        let r0 = Float::decoded(s);
        Float::lemma_decoded_bounds(s);
        let n0 = taken(r0);
        let f_sideways = read(r0);
        let r1 = Float::decoded(s.skip(n0));
        Float::lemma_decoded_bounds(s.skip(n0));
        let n1 = n0 + taken(r1);
        let f_forward = read(r1);
        let r2 = UnsignedByte::decoded(s.skip(n1));
        UnsignedByte::lemma_decoded_bounds(s.skip(n1));
        let n2 = n1 + taken(r2);
        let f_flags = read(r2);
    }

    proof fn lemma_decoded_wire(m: SteerVehicle, rest: Seq<u8>) {
        let s = Self::wire(m) + rest;
        let w0 = Float::wire(m.sideways);
        let w1 = Float::wire(m.forward);
        let w2 = UnsignedByte::wire(m.flags);
        let p0 = w0;
        let p1 = p0 + w1;
        let p2 = p1 + w2;
        let t2 = rest;
        let t1 = w2 + t2;
        let t0 = w1 + t1;
        assert(s == p2 + t2);
        lemma_join(p1, w2, t2);
        lemma_join(p0, w1, t1);
        assert(s.skip(0) =~= s);
        let a0 = 0int;
        lemma_field_read::<Float>(s, a0, m.sideways, t0);
        let a1 = a0 + w0.len();
        lemma_field_read::<Float>(s, a1, m.forward, t1);
        let a2 = a1 + w1.len();
        lemma_field_read::<UnsignedByte>(s, a2, m.flags, t2);
    }
}

impl ServerboundPacket for SteerVehicle {
    open spec fn packet_id(&self) -> IDS {
        IDS::SteerVehicle
    }

    open spec fn sendable(m: SteerVehicle) -> bool {
        Self::valid(m)
    }

    open spec fn payload(m: SteerVehicle) -> Seq<u8> {
        Self::wire(m)
    }

    fn to_bytes(&self) -> (r: Result<Vec<u8>, String>) {
        if !self.check() {
            return Err(unsendable("SteerVehicle"));
        }
        let mut buf = Vec::new();
        self.encode(&mut buf);
        Ok(buf)
    }

    fn id(&self) -> (r: IDS) {
        IDS::SteerVehicle
    }
}

/// The player has closed a window.
#[derive(Debug, Clone, Copy, PartialEq, Eq, Structural)]
pub struct CloseWindowServerbound {
    pub window_id: UnsignedByte,
}

impl View for CloseWindowServerbound {
    type V = CloseWindowServerbound;

    open spec fn view(&self) -> CloseWindowServerbound {
        *self
    }
}

impl CloseWindowServerbound {
    /// A packet of the given fields.
    pub fn new(window_id: UnsignedByte) -> (r: Self)
        ensures
            r == (CloseWindowServerbound { window_id }),
    {
        CloseWindowServerbound { window_id }
    }
}

impl Wire for CloseWindowServerbound {
    open spec fn valid(m: CloseWindowServerbound) -> bool {
        &&& UnsignedByte::valid(m.window_id)
    }

    open spec fn wire(m: CloseWindowServerbound) -> Seq<u8> {
        UnsignedByte::wire(m.window_id)
    }

    open spec fn decoded(s: Seq<u8>) -> Option<(CloseWindowServerbound, int)> {
        let r0 = UnsignedByte::decoded(s);
        let n0 = taken(r0);
        let f_window_id = read(r0);
        if r0 is Some {
            Some((CloseWindowServerbound { window_id: f_window_id }, n0))
        } else {
            None
        }
    }

    fn decode(data: &[u8]) -> (r: Option<(Self, usize)>) {
        let (f_window_id, k0) = match <UnsignedByte as Wire>::decode(data) {
            Some(x) => x,
            None => {
                return None;
            },
        };
        proof {
            UnsignedByte::lemma_decoded_bounds(data@);
        }
        let n0 = k0;
        Some((CloseWindowServerbound { window_id: f_window_id }, n0))
    }

    fn encode(&self, out: &mut Vec<u8>) {
        self.window_id.encode(out);
        assert(out@ =~= old(out)@ + Self::wire(self@));
    }

    fn check(&self) -> (b: bool) {
        self.window_id.check()
    }

    proof fn lemma_decoded_bounds(s: Seq<u8>) {
        let r0 = UnsignedByte::decoded(s);
        UnsignedByte::lemma_decoded_bounds(s);
        let n0 = taken(r0);
        let f_window_id = read(r0);
    }

    proof fn lemma_decoded_wire(m: CloseWindowServerbound, rest: Seq<u8>) {
        let s = Self::wire(m) + rest;
        let w0 = UnsignedByte::wire(m.window_id);
        let p0 = w0;
        let t0 = rest;
        assert(s == p0 + t0);
        assert(s.skip(0) =~= s);
        let a0 = 0int;
        lemma_field_read::<UnsignedByte>(s, a0, m.window_id, t0);
    }
}

impl ServerboundPacket for CloseWindowServerbound {
    open spec fn packet_id(&self) -> IDS {
        IDS::CloseWindowServerbound
    }

    open spec fn sendable(m: CloseWindowServerbound) -> bool {
        Self::valid(m)
    }

    open spec fn payload(m: CloseWindowServerbound) -> Seq<u8> {
        Self::wire(m)
    }

    fn to_bytes(&self) -> (r: Result<Vec<u8>, String>) {
        if !self.check() {
            return Err(unsendable("CloseWindowServerbound"));
        }
        let mut buf = Vec::new();
        self.encode(&mut buf);
        Ok(buf)
    }

    fn id(&self) -> (r: IDS) {
        IDS::CloseWindowServerbound
    }
}

/// The player has clicked into a window.
#[derive(Debug, Clone, PartialEq, Eq)]
pub struct ClickWindow {
    pub window_id: UnsignedByte,
    pub slot: Short,
    pub button: Byte,
    pub action_number: Short,
    pub mode: Byte,
    pub clicked_item: Slot,
}

/// What a `ClickWindow` holds.
pub struct ClickWindowModel {
    pub window_id: UnsignedByte,
    pub slot: Short,
    pub button: Byte,
    pub action_number: Short,
    pub mode: Byte,
    pub clicked_item: SlotModel,
}

impl View for ClickWindow {
    type V = ClickWindowModel;

    open spec fn view(&self) -> ClickWindowModel {
        ClickWindowModel {
            window_id: self.window_id@,
            slot: self.slot@,
            button: self.button@,
            action_number: self.action_number@,
            mode: self.mode@,
            clicked_item: self.clicked_item@,
        }
    }
}

impl ClickWindow {
    /// A packet of the given fields.
    pub fn new(
        window_id: UnsignedByte,
        slot: Short,
        button: Byte,
        action_number: Short,
        mode: Byte,
        clicked_item: Slot,
    ) -> (r: Self)
        ensures
            r == (ClickWindow { window_id, slot, button, action_number, mode, clicked_item }),
    {
        ClickWindow { window_id, slot, button, action_number, mode, clicked_item }
    }
}

impl Wire for ClickWindow {
    open spec fn valid(m: ClickWindowModel) -> bool {
        &&& UnsignedByte::valid(m.window_id)
        &&& Short::valid(m.slot)
        &&& Byte::valid(m.button)
        &&& Short::valid(m.action_number)
        &&& Byte::valid(m.mode)
        &&& Slot::valid(m.clicked_item)
    }

    open spec fn wire(m: ClickWindowModel) -> Seq<u8> {
        UnsignedByte::wire(m.window_id)
            + Short::wire(m.slot)
            + Byte::wire(m.button)
            + Short::wire(m.action_number)
            + Byte::wire(m.mode)
            + Slot::wire(m.clicked_item)
    }

    open spec fn decoded(s: Seq<u8>) -> Option<(ClickWindowModel, int)> {
        let r0 = UnsignedByte::decoded(s);
        let n0 = taken(r0);
        let f_window_id = read(r0);
        let r1 = Short::decoded(s.skip(n0));
        let n1 = n0 + taken(r1);
        let f_slot = read(r1);
        let r2 = Byte::decoded(s.skip(n1));
        let n2 = n1 + taken(r2);
        let f_button = read(r2);
        let r3 = Short::decoded(s.skip(n2));
        let n3 = n2 + taken(r3);
        let f_action_number = read(r3);
        let r4 = Byte::decoded(s.skip(n3));
        let n4 = n3 + taken(r4);
        let f_mode = read(r4);
        let r5 = Slot::decoded(s.skip(n4));
        let n5 = n4 + taken(r5);
        let f_clicked_item = read(r5);
        if r0 is Some && r1 is Some && r2 is Some && r3 is Some && r4 is Some && r5 is Some {
            Some(
                (
                    ClickWindowModel {
                        window_id: f_window_id,
                        slot: f_slot,
                        button: f_button,
                        action_number: f_action_number,
                        mode: f_mode,
                        clicked_item: f_clicked_item,
                    },
                    n5,
                ),
            )
        } else {
            None
        }
    }

    fn decode(data: &[u8]) -> (r: Option<(Self, usize)>) {
        let (f_window_id, k0) = match <UnsignedByte as Wire>::decode(data) {
            Some(x) => x,
            None => {
                return None;
            },
        };
        proof {
            UnsignedByte::lemma_decoded_bounds(data@);
        }
        let n0 = k0;
        let (f_slot, k1) = match <Short as Wire>::decode(tail(data, n0)) {
            Some(x) => x,
            None => {
                return None;
            },
        };
        proof {
            Short::lemma_decoded_bounds(data@.skip(n0 as int));
        }
        let n1 = n0 + k1;
        let (f_button, k2) = match <Byte as Wire>::decode(tail(data, n1)) {
            Some(x) => x,
            None => {
                return None;
            },
        };
        proof {
            Byte::lemma_decoded_bounds(data@.skip(n1 as int));
        }
        let n2 = n1 + k2;
        let (f_action_number, k3) = match <Short as Wire>::decode(tail(data, n2)) {
            Some(x) => x,
            None => {
                return None;
            },
        };
        proof {
            Short::lemma_decoded_bounds(data@.skip(n2 as int));
        }
        let n3 = n2 + k3;
        let (f_mode, k4) = match <Byte as Wire>::decode(tail(data, n3)) {
            Some(x) => x,
            None => {
                return None;
            },
        };
        proof {
            Byte::lemma_decoded_bounds(data@.skip(n3 as int));
        }
        let n4 = n3 + k4;
        let (f_clicked_item, k5) = match <Slot as Wire>::decode(tail(data, n4)) {
            Some(x) => x,
            None => {
                return None;
            },
        };
        proof {
            Slot::lemma_decoded_bounds(data@.skip(n4 as int));
        }
        let n5 = n4 + k5;
        Some(
            (
                ClickWindow {
                    window_id: f_window_id,
                    slot: f_slot,
                    button: f_button,
                    action_number: f_action_number,
                    mode: f_mode,
                    clicked_item: f_clicked_item,
                },
                n5,
            ),
        )
    }

    fn encode(&self, out: &mut Vec<u8>) {
        self.window_id.encode(out);
        self.slot.encode(out);
        self.button.encode(out);
        self.action_number.encode(out);
        self.mode.encode(out);
        self.clicked_item.encode(out);
        assert(out@ =~= old(out)@ + Self::wire(self@));
    }

    fn check(&self) -> (b: bool) {
        self.window_id.check()
            && self.slot.check()
            && self.button.check()
            && self.action_number.check()
            && self.mode.check()
            && self.clicked_item.check()
    }

    proof fn lemma_decoded_bounds(s: Seq<u8>) {
        let r0 = UnsignedByte::decoded(s);
        UnsignedByte::lemma_decoded_bounds(s);
        let n0 = taken(r0);
        let f_window_id = read(r0);
        let r1 = Short::decoded(s.skip(n0));
        Short::lemma_decoded_bounds(s.skip(n0));
        let n1 = n0 + taken(r1);
        let f_slot = read(r1);
        let r2 = Byte::decoded(s.skip(n1));
        Byte::lemma_decoded_bounds(s.skip(n1));
        let n2 = n1 + taken(r2);
        let f_button = read(r2);
        let r3 = Short::decoded(s.skip(n2));
        Short::lemma_decoded_bounds(s.skip(n2));
        let n3 = n2 + taken(r3);
        let f_action_number = read(r3);
        let r4 = Byte::decoded(s.skip(n3));
        Byte::lemma_decoded_bounds(s.skip(n3));
        let n4 = n3 + taken(r4);
        let f_mode = read(r4);
        let r5 = Slot::decoded(s.skip(n4));
        Slot::lemma_decoded_bounds(s.skip(n4));
        let n5 = n4 + taken(r5);
        let f_clicked_item = read(r5);
    }

    proof fn lemma_decoded_wire(m: ClickWindowModel, rest: Seq<u8>) {
        let s = Self::wire(m) + rest;
        let w0 = UnsignedByte::wire(m.window_id);
        let w1 = Short::wire(m.slot);
        let w2 = Byte::wire(m.button);
        let w3 = Short::wire(m.action_number);
        let w4 = Byte::wire(m.mode);
        let w5 = Slot::wire(m.clicked_item);
        let p0 = w0;
        let p1 = p0 + w1;
        let p2 = p1 + w2;
        let p3 = p2 + w3;
        let p4 = p3 + w4;
        let p5 = p4 + w5;
        let t5 = rest;
        let t4 = w5 + t5;
        let t3 = w4 + t4;
        let t2 = w3 + t3;
        let t1 = w2 + t2;
        let t0 = w1 + t1;
        assert(s == p5 + t5);
        lemma_join(p4, w5, t5);
        lemma_join(p3, w4, t4);
        lemma_join(p2, w3, t3);
        lemma_join(p1, w2, t2);
        lemma_join(p0, w1, t1);
        assert(s.skip(0) =~= s);
        let a0 = 0int;
        lemma_field_read::<UnsignedByte>(s, a0, m.window_id, t0);
        let a1 = a0 + w0.len();
        lemma_field_read::<Short>(s, a1, m.slot, t1);
        let a2 = a1 + w1.len();
        lemma_field_read::<Byte>(s, a2, m.button, t2);
        let a3 = a2 + w2.len();
        lemma_field_read::<Short>(s, a3, m.action_number, t3);
        let a4 = a3 + w3.len();
        lemma_field_read::<Byte>(s, a4, m.mode, t4);
        let a5 = a4 + w4.len();
        lemma_field_read::<Slot>(s, a5, m.clicked_item, t5);
    }
}

impl ServerboundPacket for ClickWindow {
    open spec fn packet_id(&self) -> IDS {
        IDS::ClickWindow
    }

    open spec fn sendable(m: ClickWindowModel) -> bool {
        Self::valid(m)
    }

    open spec fn payload(m: ClickWindowModel) -> Seq<u8> {
        Self::wire(m)
    }

    fn to_bytes(&self) -> (r: Result<Vec<u8>, String>) {
        if !self.check() {
            return Err(unsendable("ClickWindow"));
        }
        let mut buf = Vec::new();
        self.encode(&mut buf);
        Ok(buf)
    }

    fn id(&self) -> (r: IDS) {
        IDS::ClickWindow
    }
}

/// The answer to the server's refusal of an action in a window.
#[derive(Debug, Clone, Copy, PartialEq, Eq, Structural)]
pub struct ConfirmTransactionServerbound {
    pub window_id: Byte,
    pub action_number: Short,
    pub accepted: Boolean,
}

impl View for ConfirmTransactionServerbound {
    type V = ConfirmTransactionServerbound;

    open spec fn view(&self) -> ConfirmTransactionServerbound {
        *self
    }
}

impl ConfirmTransactionServerbound {
    /// A packet of the given fields.
    pub fn new(window_id: Byte, action_number: Short, accepted: Boolean) -> (r: Self)
        ensures
            r == (ConfirmTransactionServerbound { window_id, action_number, accepted }),
    {
        ConfirmTransactionServerbound { window_id, action_number, accepted }
    }
}

impl Wire for ConfirmTransactionServerbound {
    open spec fn valid(m: ConfirmTransactionServerbound) -> bool {
        &&& Byte::valid(m.window_id)
        &&& Short::valid(m.action_number)
        &&& Boolean::valid(m.accepted)
    }

    open spec fn wire(m: ConfirmTransactionServerbound) -> Seq<u8> {
        Byte::wire(m.window_id)
            + Short::wire(m.action_number)
            + Boolean::wire(m.accepted)
    }

    open spec fn decoded(s: Seq<u8>) -> Option<(ConfirmTransactionServerbound, int)> {
        let r0 = Byte::decoded(s);
        let n0 = taken(r0);
        let f_window_id = read(r0);
        let r1 = Short::decoded(s.skip(n0));
        let n1 = n0 + taken(r1);
        let f_action_number = read(r1);
        let r2 = Boolean::decoded(s.skip(n1));
        let n2 = n1 + taken(r2);
        let f_accepted = read(r2);
        if r0 is Some && r1 is Some && r2 is Some {
            Some(
                (
                    ConfirmTransactionServerbound {
                        window_id: f_window_id,
                        action_number: f_action_number,
                        accepted: f_accepted,
                    },
                    n2,
                ),
            )
        } else {
            None
        }
    }

    fn decode(data: &[u8]) -> (r: Option<(Self, usize)>) {
        let (f_window_id, k0) = match <Byte as Wire>::decode(data) {
            Some(x) => x,
            None => {
                return None;
            },
        };
        proof {
            Byte::lemma_decoded_bounds(data@);
        }
        let n0 = k0;
        let (f_action_number, k1) = match <Short as Wire>::decode(tail(data, n0)) {
            Some(x) => x,
            None => {
                return None;
            },
        };
        proof {
            Short::lemma_decoded_bounds(data@.skip(n0 as int));
        }
        let n1 = n0 + k1;
        let (f_accepted, k2) = match <Boolean as Wire>::decode(tail(data, n1)) {
            Some(x) => x,
            None => {
                return None;
            },
        };
        proof {
            Boolean::lemma_decoded_bounds(data@.skip(n1 as int));
        }
        let n2 = n1 + k2;
        Some(
            (
                ConfirmTransactionServerbound {
                    window_id: f_window_id,
                    action_number: f_action_number,
                    accepted: f_accepted,
                },
                n2,
            ),
        )
    }

    fn encode(&self, out: &mut Vec<u8>) {
        self.window_id.encode(out);
        self.action_number.encode(out);
        self.accepted.encode(out);
        assert(out@ =~= old(out)@ + Self::wire(self@));
    }

    fn check(&self) -> (b: bool) {
        self.window_id.check()
            && self.action_number.check()
            && self.accepted.check()
    }

    proof fn lemma_decoded_bounds(s: Seq<u8>) {
        let r0 = Byte::decoded(s);
        Byte::lemma_decoded_bounds(s);
        let n0 = taken(r0);
        let f_window_id = read(r0);
        let r1 = Short::decoded(s.skip(n0));
        Short::lemma_decoded_bounds(s.skip(n0));
        let n1 = n0 + taken(r1);
        let f_action_number = read(r1);
        let r2 = Boolean::decoded(s.skip(n1));
        Boolean::lemma_decoded_bounds(s.skip(n1));
        let n2 = n1 + taken(r2);
        let f_accepted = read(r2);
    }

    proof fn lemma_decoded_wire(m: ConfirmTransactionServerbound, rest: Seq<u8>) {
        let s = Self::wire(m) + rest;
        let w0 = Byte::wire(m.window_id);
        let w1 = Short::wire(m.action_number);
        let w2 = Boolean::wire(m.accepted);
        let p0 = w0;
        let p1 = p0 + w1;
        let p2 = p1 + w2;
        let t2 = rest;
        let t1 = w2 + t2;
        let t0 = w1 + t1;
        assert(s == p2 + t2);
        lemma_join(p1, w2, t2);
        lemma_join(p0, w1, t1);
        assert(s.skip(0) =~= s);
        let a0 = 0int;
        lemma_field_read::<Byte>(s, a0, m.window_id, t0);
        let a1 = a0 + w0.len();
        lemma_field_read::<Short>(s, a1, m.action_number, t1);
        let a2 = a1 + w1.len();
        lemma_field_read::<Boolean>(s, a2, m.accepted, t2);
    }
}

impl ServerboundPacket for ConfirmTransactionServerbound {
    open spec fn packet_id(&self) -> IDS {
        IDS::ConfirmTransactionServerbound
    }

    open spec fn sendable(m: ConfirmTransactionServerbound) -> bool {
        Self::valid(m)
    }

    open spec fn payload(m: ConfirmTransactionServerbound) -> Seq<u8> {
        Self::wire(m)
    }

    fn to_bytes(&self) -> (r: Result<Vec<u8>, String>) {
        if !self.check() {
            return Err(unsendable("ConfirmTransactionServerbound"));
        }
        let mut buf = Vec::new();
        self.encode(&mut buf);
        Ok(buf)
    }

    fn id(&self) -> (r: IDS) {
        IDS::ConfirmTransactionServerbound
    }
}

/// The player has set a slot in creative mode.
#[derive(Debug, Clone, PartialEq, Eq)]
pub struct CreativeInventoryAction {
    pub slot: Short,
    pub clicked_item: Slot,
}

/// What a `CreativeInventoryAction` holds.
pub struct CreativeInventoryActionModel {
    pub slot: Short,
    pub clicked_item: SlotModel,
}

impl View for CreativeInventoryAction {
    type V = CreativeInventoryActionModel;

    open spec fn view(&self) -> CreativeInventoryActionModel {
        CreativeInventoryActionModel {
            slot: self.slot@,
            clicked_item: self.clicked_item@,
        }
    }
}

impl CreativeInventoryAction {
    /// A packet of the given fields.
    pub fn new(slot: Short, clicked_item: Slot) -> (r: Self)
        ensures
            r == (CreativeInventoryAction { slot, clicked_item }),
    {
        CreativeInventoryAction { slot, clicked_item }
    }
}

impl Wire for CreativeInventoryAction {
    open spec fn valid(m: CreativeInventoryActionModel) -> bool {
        &&& Short::valid(m.slot)
        &&& Slot::valid(m.clicked_item)
    }

    open spec fn wire(m: CreativeInventoryActionModel) -> Seq<u8> {
        Short::wire(m.slot)
            + Slot::wire(m.clicked_item)
    }

    open spec fn decoded(s: Seq<u8>) -> Option<(CreativeInventoryActionModel, int)> {
        let r0 = Short::decoded(s);
        let n0 = taken(r0);
        let f_slot = read(r0);
        let r1 = Slot::decoded(s.skip(n0));
        let n1 = n0 + taken(r1);
        let f_clicked_item = read(r1);
        if r0 is Some && r1 is Some {
            Some((CreativeInventoryActionModel { slot: f_slot, clicked_item: f_clicked_item }, n1))
        } else {
            None
        }
    }

    fn decode(data: &[u8]) -> (r: Option<(Self, usize)>) {
        let (f_slot, k0) = match <Short as Wire>::decode(data) {
            Some(x) => x,
            None => {
                return None;
            },
        };
        proof {
            Short::lemma_decoded_bounds(data@);
        }
        let n0 = k0;
        let (f_clicked_item, k1) = match <Slot as Wire>::decode(tail(data, n0)) {
            Some(x) => x,
            None => {
                return None;
            },
        };
        proof {
            Slot::lemma_decoded_bounds(data@.skip(n0 as int));
        }
        let n1 = n0 + k1;
        Some((CreativeInventoryAction { slot: f_slot, clicked_item: f_clicked_item }, n1))
    }

    fn encode(&self, out: &mut Vec<u8>) {
        self.slot.encode(out);
        self.clicked_item.encode(out);
        assert(out@ =~= old(out)@ + Self::wire(self@));
    }

    fn check(&self) -> (b: bool) {
        self.slot.check()
            && self.clicked_item.check()
    }

    proof fn lemma_decoded_bounds(s: Seq<u8>) {
        let r0 = Short::decoded(s);
        Short::lemma_decoded_bounds(s);
        let n0 = taken(r0);
        let f_slot = read(r0);
        let r1 = Slot::decoded(s.skip(n0));
        Slot::lemma_decoded_bounds(s.skip(n0));
        let n1 = n0 + taken(r1);
        let f_clicked_item = read(r1);
    }

    proof fn lemma_decoded_wire(m: CreativeInventoryActionModel, rest: Seq<u8>) {
        let s = Self::wire(m) + rest;
        let w0 = Short::wire(m.slot);
        let w1 = Slot::wire(m.clicked_item);
        let p0 = w0;
        let p1 = p0 + w1;
        let t1 = rest;
        let t0 = w1 + t1;
        assert(s == p1 + t1);
        lemma_join(p0, w1, t1);
        assert(s.skip(0) =~= s);
        let a0 = 0int;
        lemma_field_read::<Short>(s, a0, m.slot, t0);
        let a1 = a0 + w0.len();
        lemma_field_read::<Slot>(s, a1, m.clicked_item, t1);
    }
}

impl ServerboundPacket for CreativeInventoryAction {
    open spec fn packet_id(&self) -> IDS {
        IDS::CreativeInventoryAction
    }

    open spec fn sendable(m: CreativeInventoryActionModel) -> bool {
        Self::valid(m)
    }

    open spec fn payload(m: CreativeInventoryActionModel) -> Seq<u8> {
        Self::wire(m)
    }

    fn to_bytes(&self) -> (r: Result<Vec<u8>, String>) {
        if !self.check() {
            return Err(unsendable("CreativeInventoryAction"));
        }
        let mut buf = Vec::new();
        self.encode(&mut buf);
        Ok(buf)
    }

    fn id(&self) -> (r: IDS) {
        IDS::CreativeInventoryAction
    }
}

/// The player has chosen an enchantment.
#[derive(Debug, Clone, Copy, PartialEq, Eq, Structural)]
pub struct EnchantItem {
    pub window_id: Byte,
    pub enchantment: Byte,
}

impl View for EnchantItem {
    type V = EnchantItem;

    open spec fn view(&self) -> EnchantItem {
        *self
    }
}

impl EnchantItem {
    /// A packet of the given fields.
    pub fn new(window_id: Byte, enchantment: Byte) -> (r: Self)
        ensures
            r == (EnchantItem { window_id, enchantment }),
    {
        EnchantItem { window_id, enchantment }
    }
}

impl Wire for EnchantItem {
    open spec fn valid(m: EnchantItem) -> bool {
        &&& Byte::valid(m.window_id)
        &&& Byte::valid(m.enchantment)
    }

    open spec fn wire(m: EnchantItem) -> Seq<u8> {
        Byte::wire(m.window_id)
            + Byte::wire(m.enchantment)
    }

    open spec fn decoded(s: Seq<u8>) -> Option<(EnchantItem, int)> {
        let r0 = Byte::decoded(s);
        let n0 = taken(r0);
        let f_window_id = read(r0);
        let r1 = Byte::decoded(s.skip(n0));
        let n1 = n0 + taken(r1);
        let f_enchantment = read(r1);
        if r0 is Some && r1 is Some {
            Some((EnchantItem { window_id: f_window_id, enchantment: f_enchantment }, n1))
        } else {
            None
        }
    }

    fn decode(data: &[u8]) -> (r: Option<(Self, usize)>) {
        let (f_window_id, k0) = match <Byte as Wire>::decode(data) {
            Some(x) => x,
            None => {
                return None;
            },
        };
        proof {
            Byte::lemma_decoded_bounds(data@);
        }
        let n0 = k0;
        let (f_enchantment, k1) = match <Byte as Wire>::decode(tail(data, n0)) {
            Some(x) => x,
            None => {
                return None;
            },
        };
        proof {
            Byte::lemma_decoded_bounds(data@.skip(n0 as int));
        }
        let n1 = n0 + k1;
        Some((EnchantItem { window_id: f_window_id, enchantment: f_enchantment }, n1))
    }

    fn encode(&self, out: &mut Vec<u8>) {
        self.window_id.encode(out);
        self.enchantment.encode(out);
        assert(out@ =~= old(out)@ + Self::wire(self@));
    }

    fn check(&self) -> (b: bool) {
        self.window_id.check()
            && self.enchantment.check()
    }

    proof fn lemma_decoded_bounds(s: Seq<u8>) {
        let r0 = Byte::decoded(s);
        Byte::lemma_decoded_bounds(s);
        let n0 = taken(r0);
        let f_window_id = read(r0);
        let r1 = Byte::decoded(s.skip(n0));
        Byte::lemma_decoded_bounds(s.skip(n0));
        let n1 = n0 + taken(r1);
        let f_enchantment = read(r1);
    }

    proof fn lemma_decoded_wire(m: EnchantItem, rest: Seq<u8>) {
        let s = Self::wire(m) + rest;
        let w0 = Byte::wire(m.window_id);
        let w1 = Byte::wire(m.enchantment);
        let p0 = w0;
        let p1 = p0 + w1;
        let t1 = rest;
        let t0 = w1 + t1;
        assert(s == p1 + t1);
        lemma_join(p0, w1, t1);
        assert(s.skip(0) =~= s);
        let a0 = 0int;
        lemma_field_read::<Byte>(s, a0, m.window_id, t0);
        let a1 = a0 + w0.len();
        lemma_field_read::<Byte>(s, a1, m.enchantment, t1);
    }
}

impl ServerboundPacket for EnchantItem {
    open spec fn packet_id(&self) -> IDS {
        IDS::EnchantItem
    }

    open spec fn sendable(m: EnchantItem) -> bool {
        Self::valid(m)
    }

    open spec fn payload(m: EnchantItem) -> Seq<u8> {
        Self::wire(m)
    }

    fn to_bytes(&self) -> (r: Result<Vec<u8>, String>) {
        if !self.check() {
            return Err(unsendable("EnchantItem"));
        }
        let mut buf = Vec::new();
        self.encode(&mut buf);
        Ok(buf)
    }

    fn id(&self) -> (r: IDS) {
        IDS::EnchantItem
    }
}

/// The player has written on a sign.
#[derive(Debug, Clone, PartialEq, Eq)]
pub struct UpdateSignServerbound {
    pub location: Position,
    pub line_1: VarString,
    pub line_2: VarString,
    pub line_3: VarString,
    pub line_4: VarString,
}

/// What a `UpdateSignServerbound` holds.
pub struct UpdateSignServerboundModel {
    pub location: Position,
    pub line_1: Seq<char>,
    pub line_2: Seq<char>,
    pub line_3: Seq<char>,
    pub line_4: Seq<char>,
}

impl View for UpdateSignServerbound {
    type V = UpdateSignServerboundModel;

    open spec fn view(&self) -> UpdateSignServerboundModel {
        UpdateSignServerboundModel {
            location: self.location@,
            line_1: self.line_1@,
            line_2: self.line_2@,
            line_3: self.line_3@,
            line_4: self.line_4@,
        }
    }
}

impl UpdateSignServerbound {
    /// A packet of the given fields.
    pub fn new(
        location: Position,
        line_1: VarString,
        line_2: VarString,
        line_3: VarString,
        line_4: VarString,
    ) -> (r: Self)
        ensures
            r == (UpdateSignServerbound { location, line_1, line_2, line_3, line_4 }),
    {
        UpdateSignServerbound { location, line_1, line_2, line_3, line_4 }
    }
}

impl Wire for UpdateSignServerbound {
    open spec fn valid(m: UpdateSignServerboundModel) -> bool {
        &&& Position::valid(m.location)
        &&& VarString::valid(m.line_1)
        &&& VarString::valid(m.line_2)
        &&& VarString::valid(m.line_3)
        &&& VarString::valid(m.line_4)
    }

    open spec fn wire(m: UpdateSignServerboundModel) -> Seq<u8> {
        Position::wire(m.location)
            + VarString::wire(m.line_1)
            + VarString::wire(m.line_2)
            + VarString::wire(m.line_3)
            + VarString::wire(m.line_4)
    }

    open spec fn decoded(s: Seq<u8>) -> Option<(UpdateSignServerboundModel, int)> {
        let r0 = Position::decoded(s);
        let n0 = taken(r0);
        let f_location = read(r0);
        let r1 = VarString::decoded(s.skip(n0));
        let n1 = n0 + taken(r1);
        let f_line_1 = read(r1);
        let r2 = VarString::decoded(s.skip(n1));
        let n2 = n1 + taken(r2);
        let f_line_2 = read(r2);
        let r3 = VarString::decoded(s.skip(n2));
        let n3 = n2 + taken(r3);
        let f_line_3 = read(r3);
        let r4 = VarString::decoded(s.skip(n3));
        let n4 = n3 + taken(r4);
        let f_line_4 = read(r4);
        if r0 is Some && r1 is Some && r2 is Some && r3 is Some && r4 is Some {
            Some(
                (
                    UpdateSignServerboundModel {
                        location: f_location,
                        line_1: f_line_1,
                        line_2: f_line_2,
                        line_3: f_line_3,
                        line_4: f_line_4,
                    },
                    n4,
                ),
            )
        } else {
            None
        }
    }

    fn decode(data: &[u8]) -> (r: Option<(Self, usize)>) {
        let (f_location, k0) = match <Position as Wire>::decode(data) {
            Some(x) => x,
            None => {
                return None;
            },
        };
        proof {
            Position::lemma_decoded_bounds(data@);
        }
        let n0 = k0;
        let (f_line_1, k1) = match <VarString as Wire>::decode(tail(data, n0)) {
            Some(x) => x,
            None => {
                return None;
            },
        };
        proof {
            VarString::lemma_decoded_bounds(data@.skip(n0 as int));
        }
        let n1 = n0 + k1;
        let (f_line_2, k2) = match <VarString as Wire>::decode(tail(data, n1)) {
            Some(x) => x,
            None => {
                return None;
            },
        };
        proof {
            VarString::lemma_decoded_bounds(data@.skip(n1 as int));
        }
        let n2 = n1 + k2;
        let (f_line_3, k3) = match <VarString as Wire>::decode(tail(data, n2)) {
            Some(x) => x,
            None => {
                return None;
            },
        };
        proof {
            VarString::lemma_decoded_bounds(data@.skip(n2 as int));
        }
        let n3 = n2 + k3;
        let (f_line_4, k4) = match <VarString as Wire>::decode(tail(data, n3)) {
            Some(x) => x,
            None => {
                return None;
            },
        };
        proof {
            VarString::lemma_decoded_bounds(data@.skip(n3 as int));
        }
        let n4 = n3 + k4;
        Some(
            (
                UpdateSignServerbound {
                    location: f_location,
                    line_1: f_line_1,
                    line_2: f_line_2,
                    line_3: f_line_3,
                    line_4: f_line_4,
                },
                n4,
            ),
        )
    }

    fn encode(&self, out: &mut Vec<u8>) {
        self.location.encode(out);
        self.line_1.encode(out);
        self.line_2.encode(out);
        self.line_3.encode(out);
        self.line_4.encode(out);
        assert(out@ =~= old(out)@ + Self::wire(self@));
    }

    fn check(&self) -> (b: bool) {
        self.location.check()
            && self.line_1.check()
            && self.line_2.check()
            && self.line_3.check()
            && self.line_4.check()
    }

    proof fn lemma_decoded_bounds(s: Seq<u8>) {
        let r0 = Position::decoded(s);
        Position::lemma_decoded_bounds(s);
        let n0 = taken(r0);
        let f_location = read(r0);
        let r1 = VarString::decoded(s.skip(n0));
        VarString::lemma_decoded_bounds(s.skip(n0));
        let n1 = n0 + taken(r1);
        let f_line_1 = read(r1);
        let r2 = VarString::decoded(s.skip(n1));
        VarString::lemma_decoded_bounds(s.skip(n1));
        let n2 = n1 + taken(r2);
        let f_line_2 = read(r2);
        let r3 = VarString::decoded(s.skip(n2));
        VarString::lemma_decoded_bounds(s.skip(n2));
        let n3 = n2 + taken(r3);
        let f_line_3 = read(r3);
        let r4 = VarString::decoded(s.skip(n3));
        VarString::lemma_decoded_bounds(s.skip(n3));
        let n4 = n3 + taken(r4);
        let f_line_4 = read(r4);
    }

    proof fn lemma_decoded_wire(m: UpdateSignServerboundModel, rest: Seq<u8>) {
        let s = Self::wire(m) + rest;
        let w0 = Position::wire(m.location);
        let w1 = VarString::wire(m.line_1);
        let w2 = VarString::wire(m.line_2);
        let w3 = VarString::wire(m.line_3);
        let w4 = VarString::wire(m.line_4);
        let p0 = w0;
        let p1 = p0 + w1;
        let p2 = p1 + w2;
        let p3 = p2 + w3;
        let p4 = p3 + w4;
        let t4 = rest;
        let t3 = w4 + t4;
        let t2 = w3 + t3;
        let t1 = w2 + t2;
        let t0 = w1 + t1;
        assert(s == p4 + t4);
        lemma_join(p3, w4, t4);
        lemma_join(p2, w3, t3);
        lemma_join(p1, w2, t2);
        lemma_join(p0, w1, t1);
        assert(s.skip(0) =~= s);
        let a0 = 0int;
        lemma_field_read::<Position>(s, a0, m.location, t0);
        let a1 = a0 + w0.len();
        lemma_field_read::<VarString>(s, a1, m.line_1, t1);
        let a2 = a1 + w1.len();
        lemma_field_read::<VarString>(s, a2, m.line_2, t2);
        let a3 = a2 + w2.len();
        lemma_field_read::<VarString>(s, a3, m.line_3, t3);
        let a4 = a3 + w3.len();
        lemma_field_read::<VarString>(s, a4, m.line_4, t4);
    }
}

impl ServerboundPacket for UpdateSignServerbound {
    open spec fn packet_id(&self) -> IDS {
        IDS::UpdateSignServerbound
    }

    open spec fn sendable(m: UpdateSignServerboundModel) -> bool {
        Self::valid(m)
    }

    open spec fn payload(m: UpdateSignServerboundModel) -> Seq<u8> {
        Self::wire(m)
    }

    fn to_bytes(&self) -> (r: Result<Vec<u8>, String>) {
        if !self.check() {
            return Err(unsendable("UpdateSignServerbound"));
        }
        let mut buf = Vec::new();
        self.encode(&mut buf);
        Ok(buf)
    }

    fn id(&self) -> (r: IDS) {
        IDS::UpdateSignServerbound
    }
}

/// What the player does of what it is able to do.
#[derive(Debug, Clone, Copy, PartialEq, Eq, Structural)]
pub struct PlayerAbilitiesServerbound {
    pub flags: Byte,
    pub flying_speed: Float,
    pub walking_speed: Float,
}

impl View for PlayerAbilitiesServerbound {
    type V = PlayerAbilitiesServerbound;

    open spec fn view(&self) -> PlayerAbilitiesServerbound {
        *self
    }
}

impl PlayerAbilitiesServerbound {
    /// A packet of the given fields.
    pub fn new(flags: Byte, flying_speed: Float, walking_speed: Float) -> (r: Self)
        ensures
            r == (PlayerAbilitiesServerbound { flags, flying_speed, walking_speed }),
    {
        PlayerAbilitiesServerbound { flags, flying_speed, walking_speed }
    }
}

impl Wire for PlayerAbilitiesServerbound {
    open spec fn valid(m: PlayerAbilitiesServerbound) -> bool {
        &&& Byte::valid(m.flags)
        &&& Float::valid(m.flying_speed)
        &&& Float::valid(m.walking_speed)
    }

    open spec fn wire(m: PlayerAbilitiesServerbound) -> Seq<u8> {
        Byte::wire(m.flags)
            + Float::wire(m.flying_speed)
            + Float::wire(m.walking_speed)
    }

    open spec fn decoded(s: Seq<u8>) -> Option<(PlayerAbilitiesServerbound, int)> {
        let r0 = Byte::decoded(s);
        let n0 = taken(r0);
        let f_flags = read(r0);
        let r1 = Float::decoded(s.skip(n0));
        let n1 = n0 + taken(r1);
        let f_flying_speed = read(r1);
        let r2 = Float::decoded(s.skip(n1));
        let n2 = n1 + taken(r2);
        let f_walking_speed = read(r2);
        if r0 is Some && r1 is Some && r2 is Some {
            Some(
                (
                    PlayerAbilitiesServerbound {
                        flags: f_flags,
                        flying_speed: f_flying_speed,
                        walking_speed: f_walking_speed,
                    },
                    n2,
                ),
            )
        } else {
            None
        }
    }

    fn decode(data: &[u8]) -> (r: Option<(Self, usize)>) {
        let (f_flags, k0) = match <Byte as Wire>::decode(data) {
            Some(x) => x,
            None => {
                return None;
            },
        };
        proof {
            Byte::lemma_decoded_bounds(data@);
        }
        let n0 = k0;
        let (f_flying_speed, k1) = match <Float as Wire>::decode(tail(data, n0)) {
            Some(x) => x,
            None => {
                return None;
            },
        };
        proof {
            Float::lemma_decoded_bounds(data@.skip(n0 as int));
        }
        let n1 = n0 + k1;
        let (f_walking_speed, k2) = match <Float as Wire>::decode(tail(data, n1)) {
            Some(x) => x,
            None => {
                return None;
            },
        };
        proof {
            Float::lemma_decoded_bounds(data@.skip(n1 as int));
        }
        let n2 = n1 + k2;
        Some(
            (
                PlayerAbilitiesServerbound {
                    flags: f_flags,
                    flying_speed: f_flying_speed,
                    walking_speed: f_walking_speed,
                },
                n2,
            ),
        )
    }

    fn encode(&self, out: &mut Vec<u8>) {
        self.flags.encode(out);
        self.flying_speed.encode(out);
        self.walking_speed.encode(out);
        assert(out@ =~= old(out)@ + Self::wire(self@));
    }

    fn check(&self) -> (b: bool) {
        self.flags.check()
            && self.flying_speed.check()
            && self.walking_speed.check()
    }

    proof fn lemma_decoded_bounds(s: Seq<u8>) {
        let r0 = Byte::decoded(s);
        Byte::lemma_decoded_bounds(s);
        let n0 = taken(r0);
        let f_flags = read(r0);
        let r1 = Float::decoded(s.skip(n0));
        Float::lemma_decoded_bounds(s.skip(n0));
        let n1 = n0 + taken(r1);
        let f_flying_speed = read(r1);
        let r2 = Float::decoded(s.skip(n1));
        Float::lemma_decoded_bounds(s.skip(n1));
        let n2 = n1 + taken(r2);
        let f_walking_speed = read(r2);
    }

    proof fn lemma_decoded_wire(m: PlayerAbilitiesServerbound, rest: Seq<u8>) {
        let s = Self::wire(m) + rest;
        let w0 = Byte::wire(m.flags);
        let w1 = Float::wire(m.flying_speed);
        let w2 = Float::wire(m.walking_speed);
        let p0 = w0;
        let p1 = p0 + w1;
        let p2 = p1 + w2;
        let t2 = rest;
        let t1 = w2 + t2;
        let t0 = w1 + t1;
        assert(s == p2 + t2);
        lemma_join(p1, w2, t2);
        lemma_join(p0, w1, t1);
        assert(s.skip(0) =~= s);
        let a0 = 0int;
        lemma_field_read::<Byte>(s, a0, m.flags, t0);
        let a1 = a0 + w0.len();
        lemma_field_read::<Float>(s, a1, m.flying_speed, t1);
        let a2 = a1 + w1.len();
        lemma_field_read::<Float>(s, a2, m.walking_speed, t2);
    }
}

impl ServerboundPacket for PlayerAbilitiesServerbound {
    open spec fn packet_id(&self) -> IDS {
        IDS::PlayerAbilitiesServerbound
    }

    open spec fn sendable(m: PlayerAbilitiesServerbound) -> bool {
        Self::valid(m)
    }

    open spec fn payload(m: PlayerAbilitiesServerbound) -> Seq<u8> {
        Self::wire(m)
    }

    fn to_bytes(&self) -> (r: Result<Vec<u8>, String>) {
        if !self.check() {
            return Err(unsendable("PlayerAbilitiesServerbound"));
        }
        let mut buf = Vec::new();
        self.encode(&mut buf);
        Ok(buf)
    }

    fn id(&self) -> (r: IDS) {
        IDS::PlayerAbilitiesServerbound
    }
}

/// Asks for completions of what the player has typed. The block is written
/// exactly when `has_position` is set.
#[derive(Debug, Clone, PartialEq, Eq)]
pub struct TabCompleteServerbound {
    pub text: VarString,
    pub has_position: Boolean,
    pub looked_at_block: Position,
}

/// What a `TabCompleteServerbound` holds.
pub struct TabCompleteServerboundModel {
    pub text: Seq<char>,
    pub has_position: Boolean,
    pub looked_at_block: Position,
}

impl View for TabCompleteServerbound {
    type V = TabCompleteServerboundModel;

    open spec fn view(&self) -> TabCompleteServerboundModel {
        TabCompleteServerboundModel {
            text: self.text@,
            has_position: self.has_position@,
            looked_at_block: self.looked_at_block@,
        }
    }
}

impl TabCompleteServerbound {
    /// A packet of the given fields.
    pub fn new(text: VarString, has_position: Boolean, looked_at_block: Position) -> (r: Self)
        ensures
            r == (TabCompleteServerbound { text, has_position, looked_at_block }),
    {
        TabCompleteServerbound { text, has_position, looked_at_block }
    }

    /// Whether the packet can be written: every field that is written can.
    pub open spec fn writable(m: TabCompleteServerboundModel) -> bool {
        VarString::valid(m.text)
            && Boolean::valid(m.has_position)
            && (m.has_position.0 ==> Position::valid(m.looked_at_block))
    }

    /// Whether the packet can be written.
    pub fn is_writable(&self) -> (b: bool)
        ensures
            b == Self::writable(self@),
    {
        self.text.check()
            && self.has_position.check()
            && (!(self.has_position.0) || self.looked_at_block.check())
    }

    /// Appends the fields that are written to `out`. A field whose condition
    /// does not hold is left out, whatever it holds.
    pub fn write(&self, out: &mut Vec<u8>)
        requires
            Self::writable(self@),
        ensures
            final(out)@ == old(out)@ + Self::wire(self@),
    {
        self.text.encode(out);
        self.has_position.encode(out);
        if self.has_position.0 {
            self.looked_at_block.encode(out);
        }
        assert(out@ =~= old(out)@ + Self::wire(self@));
    }
}

impl Wire for TabCompleteServerbound {
    open spec fn valid(m: TabCompleteServerboundModel) -> bool {
        &&& VarString::valid(m.text)
        &&& Boolean::valid(m.has_position)
        &&& if m.has_position.0 {
            Position::valid(m.looked_at_block)
        } else {
            m.looked_at_block == (Position { x: 0, y: 0, z: 0 })
        }
    }

    open spec fn wire(m: TabCompleteServerboundModel) -> Seq<u8> {
        VarString::wire(m.text)
            + Boolean::wire(m.has_position)
            + only_if(m.has_position.0, Position::wire(m.looked_at_block))
    }

    open spec fn decoded(s: Seq<u8>) -> Option<(TabCompleteServerboundModel, int)> {
        let r0 = VarString::decoded(s);
        let n0 = taken(r0);
        let f_text = read(r0);
        let r1 = Boolean::decoded(s.skip(n0));
        let n1 = n0 + taken(r1);
        let f_has_position = read(r1);
        let r2 = if f_has_position.0 {
            Position::decoded(s.skip(n1))
        } else {
            Some(((Position { x: 0, y: 0, z: 0 }), 0))
        };
        let n2 = n1 + taken(r2);
        let f_looked_at_block = read(r2);
        if r0 is Some && r1 is Some && r2 is Some {
            Some(
                (
                    TabCompleteServerboundModel {
                        text: f_text,
                        has_position: f_has_position,
                        looked_at_block: f_looked_at_block,
                    },
                    n2,
                ),
            )
        } else {
            None
        }
    }

    fn decode(data: &[u8]) -> (r: Option<(Self, usize)>) {
        let (f_text, k0) = match <VarString as Wire>::decode(data) {
            Some(x) => x,
            None => {
                return None;
            },
        };
        proof {
            VarString::lemma_decoded_bounds(data@);
        }
        let n0 = k0;
        let (f_has_position, k1) = match <Boolean as Wire>::decode(tail(data, n0)) {
            Some(x) => x,
            None => {
                return None;
            },
        };
        proof {
            Boolean::lemma_decoded_bounds(data@.skip(n0 as int));
        }
        let n1 = n0 + k1;
        let (f_looked_at_block, k2) = if f_has_position.0 {
            match <Position as Wire>::decode(tail(data, n1)) {
                Some(x) => x,
                None => {
                    return None;
                },
            }
        } else {
            ((Position { x: 0, y: 0, z: 0 }), 0)
        };
        proof {
            Position::lemma_decoded_bounds(data@.skip(n1 as int));
        }
        let n2 = n1 + k2;
        Some(
            (
                TabCompleteServerbound {
                    text: f_text,
                    has_position: f_has_position,
                    looked_at_block: f_looked_at_block,
                },
                n2,
            ),
        )
    }

    fn encode(&self, out: &mut Vec<u8>) {
        self.write(out)
    }

    fn check(&self) -> (b: bool) {
        self.text.check()
            && self.has_position.check()
            && (if self.has_position.0 {
            self.looked_at_block.check()
        } else {
            self.looked_at_block == (Position { x: 0, y: 0, z: 0 })
        })
    }

    proof fn lemma_decoded_bounds(s: Seq<u8>) {
        let r0 = VarString::decoded(s);
        VarString::lemma_decoded_bounds(s);
        let n0 = taken(r0);
        let f_text = read(r0);
        let r1 = Boolean::decoded(s.skip(n0));
        Boolean::lemma_decoded_bounds(s.skip(n0));
        let n1 = n0 + taken(r1);
        let f_has_position = read(r1);
        let r2 = if f_has_position.0 {
            (Position::decoded(s.skip(n1)))
        } else {
            Some(((Position { x: 0, y: 0, z: 0 }), 0))
        };
        Position::lemma_decoded_bounds(s.skip(n1));
        let n2 = n1 + taken(r2);
        let f_looked_at_block = read(r2);
    }

    proof fn lemma_decoded_wire(m: TabCompleteServerboundModel, rest: Seq<u8>) {
        let s = Self::wire(m) + rest;
        let w0 = VarString::wire(m.text);
        let w1 = Boolean::wire(m.has_position);
        let w2 = only_if(m.has_position.0, Position::wire(m.looked_at_block));
        let p0 = w0;
        let p1 = p0 + w1;
        let p2 = p1 + w2;
        let t2 = rest;
        let t1 = w2 + t2;
        let t0 = w1 + t1;
        assert(s == p2 + t2);
        lemma_join(p1, w2, t2);
        lemma_join(p0, w1, t1);
        assert(s.skip(0) =~= s);
        let a0 = 0int;
        lemma_field_read::<VarString>(s, a0, m.text, t0);
        let a1 = a0 + w0.len();
        lemma_field_read::<Boolean>(s, a1, m.has_position, t1);
        let a2 = a1 + w1.len();
        if m.has_position.0 {
            lemma_field_read::<Position>(s, a2, m.looked_at_block, t2);
        } else {
            assert(w2 + t2 =~= t2);
        }
    }
}

impl ServerboundPacket for TabCompleteServerbound {
    open spec fn packet_id(&self) -> IDS {
        IDS::TabCompleteServerbound
    }

    open spec fn sendable(m: TabCompleteServerboundModel) -> bool {
        Self::writable(m)
    }

    open spec fn payload(m: TabCompleteServerboundModel) -> Seq<u8> {
        Self::wire(m)
    }

    fn to_bytes(&self) -> (r: Result<Vec<u8>, String>) {
        if !self.is_writable() {
            return Err(unsendable("TabCompleteServerbound"));
        }
        let mut buf = Vec::new();
        self.write(&mut buf);
        Ok(buf)
    }

    fn id(&self) -> (r: IDS) {
        IDS::TabCompleteServerbound
    }
}

/// The settings of the client.
#[derive(Debug, Clone, PartialEq, Eq)]
pub struct ClientSettings {
    pub locale: VarString,
    pub view_distance: Byte,
    pub chat_mode: Byte,
    pub chat_colors: Boolean,
    pub displayed_skin_parts: UnsignedByte,
}

/// What a `ClientSettings` holds.
pub struct ClientSettingsModel {
    pub locale: Seq<char>,
    pub view_distance: Byte,
    pub chat_mode: Byte,
    pub chat_colors: Boolean,
    pub displayed_skin_parts: UnsignedByte,
}

impl View for ClientSettings {
    type V = ClientSettingsModel;

    open spec fn view(&self) -> ClientSettingsModel {
        ClientSettingsModel {
            locale: self.locale@,
            view_distance: self.view_distance@,
            chat_mode: self.chat_mode@,
            chat_colors: self.chat_colors@,
            displayed_skin_parts: self.displayed_skin_parts@,
        }
    }
}

impl ClientSettings {
    /// A packet of the given fields.
    pub fn new(
        locale: VarString,
        view_distance: Byte,
        chat_mode: Byte,
        chat_colors: Boolean,
        displayed_skin_parts: UnsignedByte,
    ) -> (r: Self)
        ensures
            r == (ClientSettings {
                locale,
                view_distance,
                chat_mode,
                chat_colors,
                displayed_skin_parts,
            }),
    {
        ClientSettings {
            locale,
            view_distance,
            chat_mode,
            chat_colors,
            displayed_skin_parts,
        }
    }
}

impl Wire for ClientSettings {
    open spec fn valid(m: ClientSettingsModel) -> bool {
        &&& VarString::valid(m.locale)
        &&& Byte::valid(m.view_distance)
        &&& Byte::valid(m.chat_mode)
        &&& Boolean::valid(m.chat_colors)
        &&& UnsignedByte::valid(m.displayed_skin_parts)
    }

    open spec fn wire(m: ClientSettingsModel) -> Seq<u8> {
        VarString::wire(m.locale)
            + Byte::wire(m.view_distance)
            + Byte::wire(m.chat_mode)
            + Boolean::wire(m.chat_colors)
            + UnsignedByte::wire(m.displayed_skin_parts)
    }

    open spec fn decoded(s: Seq<u8>) -> Option<(ClientSettingsModel, int)> {
        let r0 = VarString::decoded(s);
        let n0 = taken(r0);
        let f_locale = read(r0);
        let r1 = Byte::decoded(s.skip(n0));
        let n1 = n0 + taken(r1);
        let f_view_distance = read(r1);
        let r2 = Byte::decoded(s.skip(n1));
        let n2 = n1 + taken(r2);
        let f_chat_mode = read(r2);
        let r3 = Boolean::decoded(s.skip(n2));
        let n3 = n2 + taken(r3);
        let f_chat_colors = read(r3);
        let r4 = UnsignedByte::decoded(s.skip(n3));
        let n4 = n3 + taken(r4);
        let f_displayed_skin_parts = read(r4);
        if r0 is Some && r1 is Some && r2 is Some && r3 is Some && r4 is Some {
            Some(
                (
                    ClientSettingsModel {
                        locale: f_locale,
                        view_distance: f_view_distance,
                        chat_mode: f_chat_mode,
                        chat_colors: f_chat_colors,
                        displayed_skin_parts: f_displayed_skin_parts,
                    },
                    n4,
                ),
            )
        } else {
            None
        }
    }

    fn decode(data: &[u8]) -> (r: Option<(Self, usize)>) {
        let (f_locale, k0) = match <VarString as Wire>::decode(data) {
            Some(x) => x,
            None => {
                return None;
            },
        };
        proof {
            VarString::lemma_decoded_bounds(data@);
        }
        let n0 = k0;
        let (f_view_distance, k1) = match <Byte as Wire>::decode(tail(data, n0)) {
            Some(x) => x,
            None => {
                return None;
            },
        };
        proof {
            Byte::lemma_decoded_bounds(data@.skip(n0 as int));
        }
        let n1 = n0 + k1;
        let (f_chat_mode, k2) = match <Byte as Wire>::decode(tail(data, n1)) {
            Some(x) => x,
            None => {
                return None;
            },
        };
        proof {
            Byte::lemma_decoded_bounds(data@.skip(n1 as int));
        }
        let n2 = n1 + k2;
        let (f_chat_colors, k3) = match <Boolean as Wire>::decode(tail(data, n2)) {
            Some(x) => x,
            None => {
                return None;
            },
        };
        proof {
            Boolean::lemma_decoded_bounds(data@.skip(n2 as int));
        }
        let n3 = n2 + k3;
        let (f_displayed_skin_parts, k4) = match <UnsignedByte as Wire>::decode(tail(data, n3)) {
            Some(x) => x,
            None => {
                return None;
            },
        };
        proof {
            UnsignedByte::lemma_decoded_bounds(data@.skip(n3 as int));
        }
        let n4 = n3 + k4;
        Some(
            (
                ClientSettings {
                    locale: f_locale,
                    view_distance: f_view_distance,
                    chat_mode: f_chat_mode,
                    chat_colors: f_chat_colors,
                    displayed_skin_parts: f_displayed_skin_parts,
                },
                n4,
            ),
        )
    }

    fn encode(&self, out: &mut Vec<u8>) {
        self.locale.encode(out);
        self.view_distance.encode(out);
        self.chat_mode.encode(out);
        self.chat_colors.encode(out);
        self.displayed_skin_parts.encode(out);
        assert(out@ =~= old(out)@ + Self::wire(self@));
    }

    fn check(&self) -> (b: bool) {
        self.locale.check()
            && self.view_distance.check()
            && self.chat_mode.check()
            && self.chat_colors.check()
            && self.displayed_skin_parts.check()
    }

    proof fn lemma_decoded_bounds(s: Seq<u8>) {
        let r0 = VarString::decoded(s);
        VarString::lemma_decoded_bounds(s);
        let n0 = taken(r0);
        let f_locale = read(r0);
        let r1 = Byte::decoded(s.skip(n0));
        Byte::lemma_decoded_bounds(s.skip(n0));
        let n1 = n0 + taken(r1);
        let f_view_distance = read(r1);
        let r2 = Byte::decoded(s.skip(n1));
        Byte::lemma_decoded_bounds(s.skip(n1));
        let n2 = n1 + taken(r2);
        let f_chat_mode = read(r2);
        let r3 = Boolean::decoded(s.skip(n2));
        Boolean::lemma_decoded_bounds(s.skip(n2));
        let n3 = n2 + taken(r3);
        let f_chat_colors = read(r3);
        let r4 = UnsignedByte::decoded(s.skip(n3));
        UnsignedByte::lemma_decoded_bounds(s.skip(n3));
        let n4 = n3 + taken(r4);
        let f_displayed_skin_parts = read(r4);
    }

    proof fn lemma_decoded_wire(m: ClientSettingsModel, rest: Seq<u8>) {
        let s = Self::wire(m) + rest;
        let w0 = VarString::wire(m.locale);
        let w1 = Byte::wire(m.view_distance);
        let w2 = Byte::wire(m.chat_mode);
        let w3 = Boolean::wire(m.chat_colors);
        let w4 = UnsignedByte::wire(m.displayed_skin_parts);
        let p0 = w0;
        let p1 = p0 + w1;
        let p2 = p1 + w2;
        let p3 = p2 + w3;
        let p4 = p3 + w4;
        let t4 = rest;
        let t3 = w4 + t4;
        let t2 = w3 + t3;
        let t1 = w2 + t2;
        let t0 = w1 + t1;
        assert(s == p4 + t4);
        lemma_join(p3, w4, t4);
        lemma_join(p2, w3, t3);
        lemma_join(p1, w2, t2);
        lemma_join(p0, w1, t1);
        assert(s.skip(0) =~= s);
        let a0 = 0int;
        lemma_field_read::<VarString>(s, a0, m.locale, t0);
        let a1 = a0 + w0.len();
        lemma_field_read::<Byte>(s, a1, m.view_distance, t1);
        let a2 = a1 + w1.len();
        lemma_field_read::<Byte>(s, a2, m.chat_mode, t2);
        let a3 = a2 + w2.len();
        lemma_field_read::<Boolean>(s, a3, m.chat_colors, t3);
        let a4 = a3 + w3.len();
        lemma_field_read::<UnsignedByte>(s, a4, m.displayed_skin_parts, t4);
    }
}

impl ServerboundPacket for ClientSettings {
    open spec fn packet_id(&self) -> IDS {
        IDS::ClientSettings
    }

    open spec fn sendable(m: ClientSettingsModel) -> bool {
        Self::valid(m)
    }

    open spec fn payload(m: ClientSettingsModel) -> Seq<u8> {
        Self::wire(m)
    }

    fn to_bytes(&self) -> (r: Result<Vec<u8>, String>) {
        if !self.check() {
            return Err(unsendable("ClientSettings"));
        }
        let mut buf = Vec::new();
        self.encode(&mut buf);
        Ok(buf)
    }

    fn id(&self) -> (r: IDS) {
        IDS::ClientSettings
    }
}

/// The player respawns, asks for statistics or opens the inventory.
#[derive(Debug, Clone, Copy, PartialEq, Eq, Structural)]
pub struct ClientStatus {
    pub action_id: VarInt,
}

impl View for ClientStatus {
    type V = ClientStatus;

    open spec fn view(&self) -> ClientStatus {
        *self
    }
}

impl ClientStatus {
    /// A packet of the given fields.
    pub fn new(action_id: VarInt) -> (r: Self)
        ensures
            r == (ClientStatus { action_id }),
    {
        ClientStatus { action_id }
    }
}

impl Wire for ClientStatus {
    open spec fn valid(m: ClientStatus) -> bool {
        &&& VarInt::valid(m.action_id)
    }

    open spec fn wire(m: ClientStatus) -> Seq<u8> {
        VarInt::wire(m.action_id)
    }

    open spec fn decoded(s: Seq<u8>) -> Option<(ClientStatus, int)> {
        let r0 = VarInt::decoded(s);
        let n0 = taken(r0);
        let f_action_id = read(r0);
        if r0 is Some {
            Some((ClientStatus { action_id: f_action_id }, n0))
        } else {
            None
        }
    }

    fn decode(data: &[u8]) -> (r: Option<(Self, usize)>) {
        let (f_action_id, k0) = match <VarInt as Wire>::decode(data) {
            Some(x) => x,
            None => {
                return None;
            },
        };
        proof {
            VarInt::lemma_decoded_bounds(data@);
        }
        let n0 = k0;
        Some((ClientStatus { action_id: f_action_id }, n0))
    }

    fn encode(&self, out: &mut Vec<u8>) {
        self.action_id.encode(out);
        assert(out@ =~= old(out)@ + Self::wire(self@));
    }

    fn check(&self) -> (b: bool) {
        self.action_id.check()
    }

    proof fn lemma_decoded_bounds(s: Seq<u8>) {
        let r0 = VarInt::decoded(s);
        VarInt::lemma_decoded_bounds(s);
        let n0 = taken(r0);
        let f_action_id = read(r0);
    }

    proof fn lemma_decoded_wire(m: ClientStatus, rest: Seq<u8>) {
        let s = Self::wire(m) + rest;
        let w0 = VarInt::wire(m.action_id);
        let p0 = w0;
        let t0 = rest;
        assert(s == p0 + t0);
        assert(s.skip(0) =~= s);
        let a0 = 0int;
        lemma_field_read::<VarInt>(s, a0, m.action_id, t0);
    }
}

impl ServerboundPacket for ClientStatus {
    open spec fn packet_id(&self) -> IDS {
        IDS::ClientStatus
    }

    open spec fn sendable(m: ClientStatus) -> bool {
        Self::valid(m)
    }

    open spec fn payload(m: ClientStatus) -> Seq<u8> {
        Self::wire(m)
    }

    fn to_bytes(&self) -> (r: Result<Vec<u8>, String>) {
        if !self.check() {
            return Err(unsendable("ClientStatus"));
        }
        let mut buf = Vec::new();
        self.encode(&mut buf);
        Ok(buf)
    }

    fn id(&self) -> (r: IDS) {
        IDS::ClientStatus
    }
}

/// The player, as a spectator, moves to another player.
#[derive(Debug, Clone, PartialEq, Eq)]
pub struct Spectate {
    pub target_player: UUID,
}

/// What a `Spectate` holds.
pub struct SpectateModel {
    pub target_player: Seq<u8>,
}

impl View for Spectate {
    type V = SpectateModel;

    open spec fn view(&self) -> SpectateModel {
        SpectateModel {
            target_player: self.target_player@,
        }
    }
}

impl Spectate {
    /// A packet of the given fields.
    pub fn new(target_player: UUID) -> (r: Self)
        ensures
            r == (Spectate { target_player }),
    {
        Spectate { target_player }
    }
}

impl Wire for Spectate {
    open spec fn valid(m: SpectateModel) -> bool {
        &&& UUID::valid(m.target_player)
    }

    open spec fn wire(m: SpectateModel) -> Seq<u8> {
        UUID::wire(m.target_player)
    }

    open spec fn decoded(s: Seq<u8>) -> Option<(SpectateModel, int)> {
        let r0 = UUID::decoded(s);
        let n0 = taken(r0);
        let f_target_player = read(r0);
        if r0 is Some {
            Some((SpectateModel { target_player: f_target_player }, n0))
        } else {
            None
        }
    }

    fn decode(data: &[u8]) -> (r: Option<(Self, usize)>) {
        let (f_target_player, k0) = match <UUID as Wire>::decode(data) {
            Some(x) => x,
            None => {
                return None;
            },
        };
        proof {
            UUID::lemma_decoded_bounds(data@);
        }
        let n0 = k0;
        Some((Spectate { target_player: f_target_player }, n0))
    }

    fn encode(&self, out: &mut Vec<u8>) {
        self.target_player.encode(out);
        assert(out@ =~= old(out)@ + Self::wire(self@));
    }

    fn check(&self) -> (b: bool) {
        self.target_player.check()
    }

    proof fn lemma_decoded_bounds(s: Seq<u8>) {
        let r0 = UUID::decoded(s);
        UUID::lemma_decoded_bounds(s);
        let n0 = taken(r0);
        let f_target_player = read(r0);
    }

    proof fn lemma_decoded_wire(m: SpectateModel, rest: Seq<u8>) {
        let s = Self::wire(m) + rest;
        let w0 = UUID::wire(m.target_player);
        let p0 = w0;
        let t0 = rest;
        assert(s == p0 + t0);
        assert(s.skip(0) =~= s);
        let a0 = 0int;
        lemma_field_read::<UUID>(s, a0, m.target_player, t0);
    }
}

impl ServerboundPacket for Spectate {
    open spec fn packet_id(&self) -> IDS {
        IDS::Spectate
    }

    open spec fn sendable(m: SpectateModel) -> bool {
        Self::valid(m)
    }

    open spec fn payload(m: SpectateModel) -> Seq<u8> {
        Self::wire(m)
    }

    fn to_bytes(&self) -> (r: Result<Vec<u8>, String>) {
        if !self.check() {
            return Err(unsendable("Spectate"));
        }
        let mut buf = Vec::new();
        self.encode(&mut buf);
        Ok(buf)
    }

    fn id(&self) -> (r: IDS) {
        IDS::Spectate
    }
}

/// What the client has done with the resource pack that was offered.
#[derive(Debug, Clone, PartialEq, Eq)]
pub struct ResourcePackStatus {
    pub hash: VarString,
    pub result: VarInt,
}

/// What a `ResourcePackStatus` holds.
pub struct ResourcePackStatusModel {
    pub hash: Seq<char>,
    pub result: VarInt,
}

impl View for ResourcePackStatus {
    type V = ResourcePackStatusModel;

    open spec fn view(&self) -> ResourcePackStatusModel {
        ResourcePackStatusModel {
            hash: self.hash@,
            result: self.result@,
        }
    }
}

impl ResourcePackStatus {
    /// A packet of the given fields.
    pub fn new(hash: VarString, result: VarInt) -> (r: Self)
        ensures
            r == (ResourcePackStatus { hash, result }),
    {
        ResourcePackStatus { hash, result }
    }
}

impl Wire for ResourcePackStatus {
    open spec fn valid(m: ResourcePackStatusModel) -> bool {
        &&& VarString::valid(m.hash)
        &&& VarInt::valid(m.result)
    }

    open spec fn wire(m: ResourcePackStatusModel) -> Seq<u8> {
        VarString::wire(m.hash)
            + VarInt::wire(m.result)
    }

    open spec fn decoded(s: Seq<u8>) -> Option<(ResourcePackStatusModel, int)> {
        let r0 = VarString::decoded(s);
        let n0 = taken(r0);
        let f_hash = read(r0);
        let r1 = VarInt::decoded(s.skip(n0));
        let n1 = n0 + taken(r1);
        let f_result = read(r1);
        if r0 is Some && r1 is Some {
            Some((ResourcePackStatusModel { hash: f_hash, result: f_result }, n1))
        } else {
            None
        }
    }

    fn decode(data: &[u8]) -> (r: Option<(Self, usize)>) {
        let (f_hash, k0) = match <VarString as Wire>::decode(data) {
            Some(x) => x,
            None => {
                return None;
            },
        };
        proof {
            VarString::lemma_decoded_bounds(data@);
        }
        let n0 = k0;
        let (f_result, k1) = match <VarInt as Wire>::decode(tail(data, n0)) {
            Some(x) => x,
            None => {
                return None;
            },
        };
        proof {
            VarInt::lemma_decoded_bounds(data@.skip(n0 as int));
        }
        let n1 = n0 + k1;
        Some((ResourcePackStatus { hash: f_hash, result: f_result }, n1))
    }

    fn encode(&self, out: &mut Vec<u8>) {
        self.hash.encode(out);
        self.result.encode(out);
        assert(out@ =~= old(out)@ + Self::wire(self@));
    }

    fn check(&self) -> (b: bool) {
        self.hash.check()
            && self.result.check()
    }

    proof fn lemma_decoded_bounds(s: Seq<u8>) {
        let r0 = VarString::decoded(s);
        VarString::lemma_decoded_bounds(s);
        let n0 = taken(r0);
        let f_hash = read(r0);
        let r1 = VarInt::decoded(s.skip(n0));
        VarInt::lemma_decoded_bounds(s.skip(n0));
        let n1 = n0 + taken(r1);
        let f_result = read(r1);
    }

    proof fn lemma_decoded_wire(m: ResourcePackStatusModel, rest: Seq<u8>) {
        let s = Self::wire(m) + rest;
        let w0 = VarString::wire(m.hash);
        let w1 = VarInt::wire(m.result);
        let p0 = w0;
        let p1 = p0 + w1;
        let t1 = rest;
        let t0 = w1 + t1;
        assert(s == p1 + t1);
        lemma_join(p0, w1, t1);
        assert(s.skip(0) =~= s);
        let a0 = 0int;
        lemma_field_read::<VarString>(s, a0, m.hash, t0);
        let a1 = a0 + w0.len();
        lemma_field_read::<VarInt>(s, a1, m.result, t1);
    }
}

impl ServerboundPacket for ResourcePackStatus {
    open spec fn packet_id(&self) -> IDS {
        IDS::ResourcePackStatus
    }

    open spec fn sendable(m: ResourcePackStatusModel) -> bool {
        Self::valid(m)
    }

    open spec fn payload(m: ResourcePackStatusModel) -> Seq<u8> {
        Self::wire(m)
    }

    fn to_bytes(&self) -> (r: Result<Vec<u8>, String>) {
        if !self.check() {
            return Err(unsendable("ResourcePackStatus"));
        }
        let mut buf = Vec::new();
        self.encode(&mut buf);
        Ok(buf)
    }

    fn id(&self) -> (r: IDS) {
        IDS::ResourcePackStatus
    }
}

} // verus!
