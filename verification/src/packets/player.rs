//! The packets by which the server tells of the player, the scoreboard and the
//! screen.

use vstd::prelude::*;
use crate::arrays::CountedArray;
use crate::basic::{Boolean, UUID};
use crate::fixed::{Byte, Double, Float, Int, UnsignedByte};
use crate::ids::IDS;
use crate::optional::Optional;
use crate::packets::{malformed, ClientboundPacket};
use crate::text::VarString;
use crate::varint::VarInt;
use crate::wire::{lemma_field_read, lemma_join, present, read, tail, only_if, taken, Wire};

verus! {

/// Asks whether the client is still there. The client answers with the same
/// number.
#[derive(Debug, Clone, Copy, PartialEq, Eq, Structural)]
pub struct KeepAliveClientbound {
    pub keep_alive_id: VarInt,
}

impl View for KeepAliveClientbound {
    type V = KeepAliveClientbound;

    open spec fn view(&self) -> KeepAliveClientbound {
        *self
    }
}

impl KeepAliveClientbound {
    /// A packet of the given fields.
    pub fn new(keep_alive_id: VarInt) -> (r: Self)
        ensures
            r == (KeepAliveClientbound { keep_alive_id }),
    {
        KeepAliveClientbound { keep_alive_id }
    }
}

impl Wire for KeepAliveClientbound {
    open spec fn valid(m: KeepAliveClientbound) -> bool {
        &&& VarInt::valid(m.keep_alive_id)
    }

    open spec fn wire(m: KeepAliveClientbound) -> Seq<u8> {
        VarInt::wire(m.keep_alive_id)
    }

    open spec fn decoded(s: Seq<u8>) -> Option<(KeepAliveClientbound, int)> {
        let r0 = VarInt::decoded(s);
        let n0 = taken(r0);
        let f_keep_alive_id = read(r0);
        if r0 is Some {
            Some((KeepAliveClientbound { keep_alive_id: f_keep_alive_id }, n0))
        } else {
            None
        }
    }

    fn decode(data: &[u8]) -> (r: Option<(Self, usize)>) {
        let (f_keep_alive_id, k0) = match <VarInt as Wire>::decode(data) {
            Some(x) => x,
            None => {
                return None;
            },
        };
        proof {
            VarInt::lemma_decoded_bounds(data@);
        }
        let n0 = k0;
        Some((KeepAliveClientbound { keep_alive_id: f_keep_alive_id }, n0))
    }

    fn encode(&self, out: &mut Vec<u8>) {
        self.keep_alive_id.encode(out);
        assert(out@ =~= old(out)@ + Self::wire(self@));
    }

    fn check(&self) -> (b: bool) {
        self.keep_alive_id.check()
    }

    proof fn lemma_decoded_bounds(s: Seq<u8>) {
        let r0 = VarInt::decoded(s);
        VarInt::lemma_decoded_bounds(s);
        let n0 = taken(r0);
        let f_keep_alive_id = read(r0);
    }

    proof fn lemma_decoded_wire(m: KeepAliveClientbound, rest: Seq<u8>) {
        let s = Self::wire(m) + rest;
        let w0 = VarInt::wire(m.keep_alive_id);
        let p0 = w0;
        let t0 = rest;
        assert(s == p0 + t0);
        assert(s.skip(0) =~= s);
        let a0 = 0int;
        lemma_field_read::<VarInt>(s, a0, m.keep_alive_id, t0);
    }
}

impl ClientboundPacket for KeepAliveClientbound {
    open spec fn listed() -> IDS {
        IDS::KeepAliveClientbound
    }

    open spec fn parsed(s: Seq<u8>) -> Option<KeepAliveClientbound> {
        match Self::decoded(s) {
            Some((m, _)) => Some(m),
            None => None,
        }
    }

    fn parse(data: &[u8]) -> (r: Result<Self, String>) {
        match Self::decode(data) {
            Some((p, _)) => Ok(p),
            None => Err(malformed("KeepAliveClientbound")),
        }
    }

    fn id() -> (r: IDS) {
        IDS::KeepAliveClientbound
    }
}

/// The player has joined the game.
#[derive(Debug, Clone, PartialEq, Eq)]
pub struct JoinGame {
    pub entity_id: Int,
    pub game_mode: UnsignedByte,
    pub dimension: Byte,
    pub difficulty: UnsignedByte,
    pub max_players: UnsignedByte,
    pub level_type: VarString,
    pub reduced_debug_info: Boolean,
}

/// What a `JoinGame` holds.
pub struct JoinGameModel {
    pub entity_id: Int,
    pub game_mode: UnsignedByte,
    pub dimension: Byte,
    pub difficulty: UnsignedByte,
    pub max_players: UnsignedByte,
    pub level_type: Seq<char>,
    pub reduced_debug_info: Boolean,
}

impl View for JoinGame {
    type V = JoinGameModel;

    open spec fn view(&self) -> JoinGameModel {
        JoinGameModel {
            entity_id: self.entity_id@,
            game_mode: self.game_mode@,
            dimension: self.dimension@,
            difficulty: self.difficulty@,
            max_players: self.max_players@,
            level_type: self.level_type@,
            reduced_debug_info: self.reduced_debug_info@,
        }
    }
}

impl JoinGame {
    /// A packet of the given fields.
    pub fn new(
        entity_id: Int,
        game_mode: UnsignedByte,
        dimension: Byte,
        difficulty: UnsignedByte,
        max_players: UnsignedByte,
        level_type: VarString,
        reduced_debug_info: Boolean,
    ) -> (r: Self)
        ensures
            r == (JoinGame {
                entity_id,
                game_mode,
                dimension,
                difficulty,
                max_players,
                level_type,
                reduced_debug_info,
            }),
    {
        JoinGame {
            entity_id,
            game_mode,
            dimension,
            difficulty,
            max_players,
            level_type,
            reduced_debug_info,
        }
    }
}

impl Wire for JoinGame {
    open spec fn valid(m: JoinGameModel) -> bool {
        &&& Int::valid(m.entity_id)
        &&& UnsignedByte::valid(m.game_mode)
        &&& Byte::valid(m.dimension)
        &&& UnsignedByte::valid(m.difficulty)
        &&& UnsignedByte::valid(m.max_players)
        &&& VarString::valid(m.level_type)
        &&& Boolean::valid(m.reduced_debug_info)
    }

    open spec fn wire(m: JoinGameModel) -> Seq<u8> {
        Int::wire(m.entity_id)
            + UnsignedByte::wire(m.game_mode)
            + Byte::wire(m.dimension)
            + UnsignedByte::wire(m.difficulty)
            + UnsignedByte::wire(m.max_players)
            + VarString::wire(m.level_type)
            + Boolean::wire(m.reduced_debug_info)
    }

    open spec fn decoded(s: Seq<u8>) -> Option<(JoinGameModel, int)> {
        let r0 = Int::decoded(s);
        let n0 = taken(r0);
        let f_entity_id = read(r0);
        let r1 = UnsignedByte::decoded(s.skip(n0));
        let n1 = n0 + taken(r1);
        let f_game_mode = read(r1);
        let r2 = Byte::decoded(s.skip(n1));
        let n2 = n1 + taken(r2);
        let f_dimension = read(r2);
        let r3 = UnsignedByte::decoded(s.skip(n2));
        let n3 = n2 + taken(r3);
        let f_difficulty = read(r3);
        let r4 = UnsignedByte::decoded(s.skip(n3));
        let n4 = n3 + taken(r4);
        let f_max_players = read(r4);
        let r5 = VarString::decoded(s.skip(n4));
        let n5 = n4 + taken(r5);
        let f_level_type = read(r5);
        let r6 = Boolean::decoded(s.skip(n5));
        let n6 = n5 + taken(r6);
        let f_reduced_debug_info = read(r6);
        if r0 is Some && r1 is Some && r2 is Some && r3 is Some && r4 is Some && r5 is Some
            && r6 is Some {
            Some(
                (
                    JoinGameModel {
                        entity_id: f_entity_id,
                        game_mode: f_game_mode,
                        dimension: f_dimension,
                        difficulty: f_difficulty,
                        max_players: f_max_players,
                        level_type: f_level_type,
                        reduced_debug_info: f_reduced_debug_info,
                    },
                    n6,
                ),
            )
        } else {
            None
        }
    }

    fn decode(data: &[u8]) -> (r: Option<(Self, usize)>) {
        let (f_entity_id, k0) = match <Int as Wire>::decode(data) {
            Some(x) => x,
            None => {
                return None;
            },
        };
        proof {
            Int::lemma_decoded_bounds(data@);
        }
        let n0 = k0;
        let (f_game_mode, k1) = match <UnsignedByte as Wire>::decode(tail(data, n0)) {
            Some(x) => x,
            None => {
                return None;
            },
        };
        proof {
            UnsignedByte::lemma_decoded_bounds(data@.skip(n0 as int));
        }
        let n1 = n0 + k1;
        let (f_dimension, k2) = match <Byte as Wire>::decode(tail(data, n1)) {
            Some(x) => x,
            None => {
                return None;
            },
        };
        proof {
            Byte::lemma_decoded_bounds(data@.skip(n1 as int));
        }
        let n2 = n1 + k2;
        let (f_difficulty, k3) = match <UnsignedByte as Wire>::decode(tail(data, n2)) {
            Some(x) => x,
            None => {
                return None;
            },
        };
        proof {
            UnsignedByte::lemma_decoded_bounds(data@.skip(n2 as int));
        }
        let n3 = n2 + k3;
        let (f_max_players, k4) = match <UnsignedByte as Wire>::decode(tail(data, n3)) {
            Some(x) => x,
            None => {
                return None;
            },
        };
        proof {
            UnsignedByte::lemma_decoded_bounds(data@.skip(n3 as int));
        }
        let n4 = n3 + k4;
        let (f_level_type, k5) = match <VarString as Wire>::decode(tail(data, n4)) {
            Some(x) => x,
            None => {
                return None;
            },
        };
        proof {
            VarString::lemma_decoded_bounds(data@.skip(n4 as int));
        }
        let n5 = n4 + k5;
        let (f_reduced_debug_info, k6) = match <Boolean as Wire>::decode(tail(data, n5)) {
            Some(x) => x,
            None => {
                return None;
            },
        };
        proof {
            Boolean::lemma_decoded_bounds(data@.skip(n5 as int));
        }
        let n6 = n5 + k6;
        Some(
            (
                JoinGame {
                    entity_id: f_entity_id,
                    game_mode: f_game_mode,
                    dimension: f_dimension,
                    difficulty: f_difficulty,
                    max_players: f_max_players,
                    level_type: f_level_type,
                    reduced_debug_info: f_reduced_debug_info,
                },
                n6,
            ),
        )
    }

    fn encode(&self, out: &mut Vec<u8>) {
        self.entity_id.encode(out);
        self.game_mode.encode(out);
        self.dimension.encode(out);
        self.difficulty.encode(out);
        self.max_players.encode(out);
        self.level_type.encode(out);
        self.reduced_debug_info.encode(out);
        assert(out@ =~= old(out)@ + Self::wire(self@));
    }

    fn check(&self) -> (b: bool) {
        self.entity_id.check()
            && self.game_mode.check()
            && self.dimension.check()
            && self.difficulty.check()
            && self.max_players.check()
            && self.level_type.check()
            && self.reduced_debug_info.check()
    }

    proof fn lemma_decoded_bounds(s: Seq<u8>) {
        let r0 = Int::decoded(s);
        Int::lemma_decoded_bounds(s);
        let n0 = taken(r0);
        let f_entity_id = read(r0);
        let r1 = UnsignedByte::decoded(s.skip(n0));
        UnsignedByte::lemma_decoded_bounds(s.skip(n0));
        let n1 = n0 + taken(r1);
        let f_game_mode = read(r1);
        let r2 = Byte::decoded(s.skip(n1));
        Byte::lemma_decoded_bounds(s.skip(n1));
        let n2 = n1 + taken(r2);
        let f_dimension = read(r2);
        let r3 = UnsignedByte::decoded(s.skip(n2));
        UnsignedByte::lemma_decoded_bounds(s.skip(n2));
        let n3 = n2 + taken(r3);
        let f_difficulty = read(r3);
        let r4 = UnsignedByte::decoded(s.skip(n3));
        UnsignedByte::lemma_decoded_bounds(s.skip(n3));
        let n4 = n3 + taken(r4);
        let f_max_players = read(r4);
        let r5 = VarString::decoded(s.skip(n4));
        VarString::lemma_decoded_bounds(s.skip(n4));
        let n5 = n4 + taken(r5);
        let f_level_type = read(r5);
        let r6 = Boolean::decoded(s.skip(n5));
        Boolean::lemma_decoded_bounds(s.skip(n5));
        let n6 = n5 + taken(r6);
        let f_reduced_debug_info = read(r6);
    }

    proof fn lemma_decoded_wire(m: JoinGameModel, rest: Seq<u8>) {
        let s = Self::wire(m) + rest;
        let w0 = Int::wire(m.entity_id);
        let w1 = UnsignedByte::wire(m.game_mode);
        let w2 = Byte::wire(m.dimension);
        let w3 = UnsignedByte::wire(m.difficulty);
        let w4 = UnsignedByte::wire(m.max_players);
        let w5 = VarString::wire(m.level_type);
        let w6 = Boolean::wire(m.reduced_debug_info);
        let p0 = w0;
        let p1 = p0 + w1;
        let p2 = p1 + w2;
        let p3 = p2 + w3;
        let p4 = p3 + w4;
        let p5 = p4 + w5;
        let p6 = p5 + w6;
        let t6 = rest;
        let t5 = w6 + t6;
        let t4 = w5 + t5;
        let t3 = w4 + t4;
        let t2 = w3 + t3;
        let t1 = w2 + t2;
        let t0 = w1 + t1;
        assert(s == p6 + t6);
        lemma_join(p5, w6, t6);
        lemma_join(p4, w5, t5);
        lemma_join(p3, w4, t4);
        lemma_join(p2, w3, t3);
        lemma_join(p1, w2, t2);
        lemma_join(p0, w1, t1);
        assert(s.skip(0) =~= s);
        let a0 = 0int;
        lemma_field_read::<Int>(s, a0, m.entity_id, t0);
        let a1 = a0 + w0.len();
        lemma_field_read::<UnsignedByte>(s, a1, m.game_mode, t1);
        let a2 = a1 + w1.len();
        lemma_field_read::<Byte>(s, a2, m.dimension, t2);
        let a3 = a2 + w2.len();
        lemma_field_read::<UnsignedByte>(s, a3, m.difficulty, t3);
        let a4 = a3 + w3.len();
        lemma_field_read::<UnsignedByte>(s, a4, m.max_players, t4);
        let a5 = a4 + w4.len();
        lemma_field_read::<VarString>(s, a5, m.level_type, t5);
        let a6 = a5 + w5.len();
        lemma_field_read::<Boolean>(s, a6, m.reduced_debug_info, t6);
    }
}

impl ClientboundPacket for JoinGame {
    open spec fn listed() -> IDS {
        IDS::JoinGame
    }

    open spec fn parsed(s: Seq<u8>) -> Option<JoinGameModel> {
        match Self::decoded(s) {
            Some((m, _)) => Some(m),
            None => None,
        }
    }

    fn parse(data: &[u8]) -> (r: Result<Self, String>) {
        match Self::decode(data) {
            Some((p, _)) => Ok(p),
            None => Err(malformed("JoinGame")),
        }
    }

    fn id() -> (r: IDS) {
        IDS::JoinGame
    }
}

/// A chat message, as a chat component in JSON.
#[derive(Debug, Clone, PartialEq, Eq)]
pub struct ChatMessageClientbound {
    pub chat: VarString,
    pub position: Byte,
}

/// What a `ChatMessageClientbound` holds.
pub struct ChatMessageClientboundModel {
    pub chat: Seq<char>,
    pub position: Byte,
}

impl View for ChatMessageClientbound {
    type V = ChatMessageClientboundModel;

    open spec fn view(&self) -> ChatMessageClientboundModel {
        ChatMessageClientboundModel {
            chat: self.chat@,
            position: self.position@,
        }
    }
}

impl ChatMessageClientbound {
    /// A packet of the given fields.
    pub fn new(chat: VarString, position: Byte) -> (r: Self)
        ensures
            r == (ChatMessageClientbound { chat, position }),
    {
        ChatMessageClientbound { chat, position }
    }
}

impl Wire for ChatMessageClientbound {
    open spec fn valid(m: ChatMessageClientboundModel) -> bool {
        &&& VarString::valid(m.chat)
        &&& Byte::valid(m.position)
    }

    open spec fn wire(m: ChatMessageClientboundModel) -> Seq<u8> {
        VarString::wire(m.chat)
            + Byte::wire(m.position)
    }

    open spec fn decoded(s: Seq<u8>) -> Option<(ChatMessageClientboundModel, int)> {
        let r0 = VarString::decoded(s);
        let n0 = taken(r0);
        let f_chat = read(r0);
        let r1 = Byte::decoded(s.skip(n0));
        let n1 = n0 + taken(r1);
        let f_position = read(r1);
        if r0 is Some && r1 is Some {
            Some((ChatMessageClientboundModel { chat: f_chat, position: f_position }, n1))
        } else {
            None
        }
    }

    fn decode(data: &[u8]) -> (r: Option<(Self, usize)>) {
        let (f_chat, k0) = match <VarString as Wire>::decode(data) {
            Some(x) => x,
            None => {
                return None;
            },
        };
        proof {
            VarString::lemma_decoded_bounds(data@);
        }
        let n0 = k0;
        let (f_position, k1) = match <Byte as Wire>::decode(tail(data, n0)) {
            Some(x) => x,
            None => {
                return None;
            },
        };
        proof {
            Byte::lemma_decoded_bounds(data@.skip(n0 as int));
        }
        let n1 = n0 + k1;
        Some((ChatMessageClientbound { chat: f_chat, position: f_position }, n1))
    }

    fn encode(&self, out: &mut Vec<u8>) {
        self.chat.encode(out);
        self.position.encode(out);
        assert(out@ =~= old(out)@ + Self::wire(self@));
    }

    fn check(&self) -> (b: bool) {
        self.chat.check()
            && self.position.check()
    }

    proof fn lemma_decoded_bounds(s: Seq<u8>) {
        let r0 = VarString::decoded(s);
        VarString::lemma_decoded_bounds(s);
        let n0 = taken(r0);
        let f_chat = read(r0);
        let r1 = Byte::decoded(s.skip(n0));
        Byte::lemma_decoded_bounds(s.skip(n0));
        let n1 = n0 + taken(r1);
        let f_position = read(r1);
    }

    proof fn lemma_decoded_wire(m: ChatMessageClientboundModel, rest: Seq<u8>) {
        let s = Self::wire(m) + rest;
        let w0 = VarString::wire(m.chat);
        let w1 = Byte::wire(m.position);
        let p0 = w0;
        let p1 = p0 + w1;
        let t1 = rest;
        let t0 = w1 + t1;
        assert(s == p1 + t1);
        lemma_join(p0, w1, t1);
        assert(s.skip(0) =~= s);
        let a0 = 0int;
        lemma_field_read::<VarString>(s, a0, m.chat, t0);
        let a1 = a0 + w0.len();
        lemma_field_read::<Byte>(s, a1, m.position, t1);
    }
}

impl ClientboundPacket for ChatMessageClientbound {
    open spec fn listed() -> IDS {
        IDS::ChatMessageClientbound
    }

    open spec fn parsed(s: Seq<u8>) -> Option<ChatMessageClientboundModel> {
        match Self::decoded(s) {
            Some((m, _)) => Some(m),
            None => None,
        }
    }

    fn parse(data: &[u8]) -> (r: Result<Self, String>) {
        match Self::decode(data) {
            Some((p, _)) => Ok(p),
            None => Err(malformed("ChatMessageClientbound")),
        }
    }

    fn id() -> (r: IDS) {
        IDS::ChatMessageClientbound
    }
}

/// The health and hunger of the player.
#[derive(Debug, Clone, Copy, PartialEq, Eq, Structural)]
pub struct UpdateHealth {
    pub health: Float,
    pub food: VarInt,
    pub food_saturation: Float,
}

impl View for UpdateHealth {
    type V = UpdateHealth;

    open spec fn view(&self) -> UpdateHealth {
        *self
    }
}

impl UpdateHealth {
    /// A packet of the given fields.
    pub fn new(health: Float, food: VarInt, food_saturation: Float) -> (r: Self)
        ensures
            r == (UpdateHealth { health, food, food_saturation }),
    {
        UpdateHealth { health, food, food_saturation }
    }
}

impl Wire for UpdateHealth {
    open spec fn valid(m: UpdateHealth) -> bool {
        &&& Float::valid(m.health)
        &&& VarInt::valid(m.food)
        &&& Float::valid(m.food_saturation)
    }

    open spec fn wire(m: UpdateHealth) -> Seq<u8> {
        Float::wire(m.health)
            + VarInt::wire(m.food)
            + Float::wire(m.food_saturation)
    }

    open spec fn decoded(s: Seq<u8>) -> Option<(UpdateHealth, int)> {
        let r0 = Float::decoded(s);
        let n0 = taken(r0);
        let f_health = read(r0);
        let r1 = VarInt::decoded(s.skip(n0));
        let n1 = n0 + taken(r1);
        let f_food = read(r1);
        let r2 = Float::decoded(s.skip(n1));
        let n2 = n1 + taken(r2);
        let f_food_saturation = read(r2);
        if r0 is Some && r1 is Some && r2 is Some {
            Some(
                (
                    UpdateHealth {
                        health: f_health,
                        food: f_food,
                        food_saturation: f_food_saturation,
                    },
                    n2,
                ),
            )
        } else {
            None
        }
    }

    fn decode(data: &[u8]) -> (r: Option<(Self, usize)>) {
        let (f_health, k0) = match <Float as Wire>::decode(data) {
            Some(x) => x,
            None => {
                return None;
            },
        };
        proof {
            Float::lemma_decoded_bounds(data@);
        }
        let n0 = k0;
        let (f_food, k1) = match <VarInt as Wire>::decode(tail(data, n0)) {
            Some(x) => x,
            None => {
                return None;
            },
        };
        proof {
            VarInt::lemma_decoded_bounds(data@.skip(n0 as int));
        }
        let n1 = n0 + k1;
        let (f_food_saturation, k2) = match <Float as Wire>::decode(tail(data, n1)) {
            Some(x) => x,
            None => {
                return None;
            },
        };
        proof {
            Float::lemma_decoded_bounds(data@.skip(n1 as int));
        }
        let n2 = n1 + k2;
        Some(
            (
                UpdateHealth {
                    health: f_health,
                    food: f_food,
                    food_saturation: f_food_saturation,
                },
                n2,
            ),
        )
    }

    fn encode(&self, out: &mut Vec<u8>) {
        self.health.encode(out);
        self.food.encode(out);
        self.food_saturation.encode(out);
        assert(out@ =~= old(out)@ + Self::wire(self@));
    }

    fn check(&self) -> (b: bool) {
        self.health.check()
            && self.food.check()
            && self.food_saturation.check()
    }

    proof fn lemma_decoded_bounds(s: Seq<u8>) {
        let r0 = Float::decoded(s);
        Float::lemma_decoded_bounds(s);
        let n0 = taken(r0);
        let f_health = read(r0);
        let r1 = VarInt::decoded(s.skip(n0));
        VarInt::lemma_decoded_bounds(s.skip(n0));
        let n1 = n0 + taken(r1);
        let f_food = read(r1);
        let r2 = Float::decoded(s.skip(n1));
        Float::lemma_decoded_bounds(s.skip(n1));
        let n2 = n1 + taken(r2);
        let f_food_saturation = read(r2);
    }

    proof fn lemma_decoded_wire(m: UpdateHealth, rest: Seq<u8>) {
        let s = Self::wire(m) + rest;
        let w0 = Float::wire(m.health);
        let w1 = VarInt::wire(m.food);
        let w2 = Float::wire(m.food_saturation);
        let p0 = w0;
        let p1 = p0 + w1;
        let p2 = p1 + w2;
        let t2 = rest;
        let t1 = w2 + t2;
        let t0 = w1 + t1;
        assert(s == p2 + t2);
        lemma_join(p1, w2, t2);
        lemma_join(p0, w1, t1);
        assert(s.skip(0) =~= s);
        let a0 = 0int;
        lemma_field_read::<Float>(s, a0, m.health, t0);
        let a1 = a0 + w0.len();
        lemma_field_read::<VarInt>(s, a1, m.food, t1);
        let a2 = a1 + w1.len();
        lemma_field_read::<Float>(s, a2, m.food_saturation, t2);
    }
}

impl ClientboundPacket for UpdateHealth {
    open spec fn listed() -> IDS {
        IDS::UpdateHealth
    }

    open spec fn parsed(s: Seq<u8>) -> Option<UpdateHealth> {
        match Self::decoded(s) {
            Some((m, _)) => Some(m),
            None => None,
        }
    }

    fn parse(data: &[u8]) -> (r: Result<Self, String>) {
        match Self::decode(data) {
            Some((p, _)) => Ok(p),
            None => Err(malformed("UpdateHealth")),
        }
    }

    fn id() -> (r: IDS) {
        IDS::UpdateHealth
    }
}

/// The player has respawned or changed dimension.
#[derive(Debug, Clone, PartialEq, Eq)]
pub struct Respawn {
    pub dimension: Int,
    pub difficulty: UnsignedByte,
    pub gamemode: UnsignedByte,
    pub level_type: VarString,
}

/// What a `Respawn` holds.
pub struct RespawnModel {
    pub dimension: Int,
    pub difficulty: UnsignedByte,
    pub gamemode: UnsignedByte,
    pub level_type: Seq<char>,
}

impl View for Respawn {
    type V = RespawnModel;

    open spec fn view(&self) -> RespawnModel {
        RespawnModel {
            dimension: self.dimension@,
            difficulty: self.difficulty@,
            gamemode: self.gamemode@,
            level_type: self.level_type@,
        }
    }
}

impl Respawn {
    /// A packet of the given fields.
    pub fn new(
        dimension: Int,
        difficulty: UnsignedByte,
        gamemode: UnsignedByte,
        level_type: VarString,
    ) -> (r: Self)
        ensures
            r == (Respawn { dimension, difficulty, gamemode, level_type }),
    {
        Respawn { dimension, difficulty, gamemode, level_type }
    }
}

impl Wire for Respawn {
    open spec fn valid(m: RespawnModel) -> bool {
        &&& Int::valid(m.dimension)
        &&& UnsignedByte::valid(m.difficulty)
        &&& UnsignedByte::valid(m.gamemode)
        &&& VarString::valid(m.level_type)
    }

    open spec fn wire(m: RespawnModel) -> Seq<u8> {
        Int::wire(m.dimension)
            + UnsignedByte::wire(m.difficulty)
            + UnsignedByte::wire(m.gamemode)
            + VarString::wire(m.level_type)
    }

    open spec fn decoded(s: Seq<u8>) -> Option<(RespawnModel, int)> {
        let r0 = Int::decoded(s);
        let n0 = taken(r0);
        let f_dimension = read(r0);
        let r1 = UnsignedByte::decoded(s.skip(n0));
        let n1 = n0 + taken(r1);
        let f_difficulty = read(r1);
        let r2 = UnsignedByte::decoded(s.skip(n1));
        let n2 = n1 + taken(r2);
        let f_gamemode = read(r2);
        let r3 = VarString::decoded(s.skip(n2));
        let n3 = n2 + taken(r3);
        let f_level_type = read(r3);
        if r0 is Some && r1 is Some && r2 is Some && r3 is Some {
            Some(
                (
                    RespawnModel {
                        dimension: f_dimension,
                        difficulty: f_difficulty,
                        gamemode: f_gamemode,
                        level_type: f_level_type,
                    },
                    n3,
                ),
            )
        } else {
            None
        }
    }

    fn decode(data: &[u8]) -> (r: Option<(Self, usize)>) {
        let (f_dimension, k0) = match <Int as Wire>::decode(data) {
            Some(x) => x,
            None => {
                return None;
            },
        };
        proof {
            Int::lemma_decoded_bounds(data@);
        }
        let n0 = k0;
        let (f_difficulty, k1) = match <UnsignedByte as Wire>::decode(tail(data, n0)) {
            Some(x) => x,
            None => {
                return None;
            },
        };
        proof {
            UnsignedByte::lemma_decoded_bounds(data@.skip(n0 as int));
        }
        let n1 = n0 + k1;
        let (f_gamemode, k2) = match <UnsignedByte as Wire>::decode(tail(data, n1)) {
            Some(x) => x,
            None => {
                return None;
            },
        };
        proof {
            UnsignedByte::lemma_decoded_bounds(data@.skip(n1 as int));
        }
        let n2 = n1 + k2;
        let (f_level_type, k3) = match <VarString as Wire>::decode(tail(data, n2)) {
            Some(x) => x,
            None => {
                return None;
            },
        };
        proof {
            VarString::lemma_decoded_bounds(data@.skip(n2 as int));
        }
        let n3 = n2 + k3;
        Some(
            (
                Respawn {
                    dimension: f_dimension,
                    difficulty: f_difficulty,
                    gamemode: f_gamemode,
                    level_type: f_level_type,
                },
                n3,
            ),
        )
    }

    fn encode(&self, out: &mut Vec<u8>) {
        self.dimension.encode(out);
        self.difficulty.encode(out);
        self.gamemode.encode(out);
        self.level_type.encode(out);
        assert(out@ =~= old(out)@ + Self::wire(self@));
    }

    fn check(&self) -> (b: bool) {
        self.dimension.check()
            && self.difficulty.check()
            && self.gamemode.check()
            && self.level_type.check()
    }

    proof fn lemma_decoded_bounds(s: Seq<u8>) {
        let r0 = Int::decoded(s);
        Int::lemma_decoded_bounds(s);
        let n0 = taken(r0);
        let f_dimension = read(r0);
        let r1 = UnsignedByte::decoded(s.skip(n0));
        UnsignedByte::lemma_decoded_bounds(s.skip(n0));
        let n1 = n0 + taken(r1);
        let f_difficulty = read(r1);
        let r2 = UnsignedByte::decoded(s.skip(n1));
        UnsignedByte::lemma_decoded_bounds(s.skip(n1));
        let n2 = n1 + taken(r2);
        let f_gamemode = read(r2);
        let r3 = VarString::decoded(s.skip(n2));
        VarString::lemma_decoded_bounds(s.skip(n2));
        let n3 = n2 + taken(r3);
        let f_level_type = read(r3);
    }

    proof fn lemma_decoded_wire(m: RespawnModel, rest: Seq<u8>) {
        let s = Self::wire(m) + rest;
        let w0 = Int::wire(m.dimension);
        let w1 = UnsignedByte::wire(m.difficulty);
        let w2 = UnsignedByte::wire(m.gamemode);
        let w3 = VarString::wire(m.level_type);
        let p0 = w0;
        let p1 = p0 + w1;
        let p2 = p1 + w2;
        let p3 = p2 + w3;
        let t3 = rest;
        let t2 = w3 + t3;
        let t1 = w2 + t2;
        let t0 = w1 + t1;
        assert(s == p3 + t3);
        lemma_join(p2, w3, t3);
        lemma_join(p1, w2, t2);
        lemma_join(p0, w1, t1);
        assert(s.skip(0) =~= s);
        let a0 = 0int;
        lemma_field_read::<Int>(s, a0, m.dimension, t0);
        let a1 = a0 + w0.len();
        lemma_field_read::<UnsignedByte>(s, a1, m.difficulty, t1);
        let a2 = a1 + w1.len();
        lemma_field_read::<UnsignedByte>(s, a2, m.gamemode, t2);
        let a3 = a2 + w2.len();
        lemma_field_read::<VarString>(s, a3, m.level_type, t3);
    }
}

impl ClientboundPacket for Respawn {
    open spec fn listed() -> IDS {
        IDS::Respawn
    }

    open spec fn parsed(s: Seq<u8>) -> Option<RespawnModel> {
        match Self::decoded(s) {
            Some((m, _)) => Some(m),
            None => None,
        }
    }

    fn parse(data: &[u8]) -> (r: Result<Self, String>) {
        match Self::decode(data) {
            Some((p, _)) => Ok(p),
            None => Err(malformed("Respawn")),
        }
    }

    fn id() -> (r: IDS) {
        IDS::Respawn
    }
}

/// Where the player is and looks. The flags say which of the values are relative.
#[derive(Debug, Clone, Copy, PartialEq, Eq, Structural)]
pub struct PlayerPositionAndLookClientbound {
    pub x: Double,
    pub y: Double,
    pub z: Double,
    pub yaw: Float,
    pub pitch: Float,
    pub flags: Byte,
}

impl View for PlayerPositionAndLookClientbound {
    type V = PlayerPositionAndLookClientbound;

    open spec fn view(&self) -> PlayerPositionAndLookClientbound {
        *self
    }
}

impl PlayerPositionAndLookClientbound {
    /// A packet of the given fields.
    pub fn new(x: Double, y: Double, z: Double, yaw: Float, pitch: Float, flags: Byte) -> (r: Self)
        ensures
            r == (PlayerPositionAndLookClientbound { x, y, z, yaw, pitch, flags }),
    {
        PlayerPositionAndLookClientbound { x, y, z, yaw, pitch, flags }
    }
}

impl Wire for PlayerPositionAndLookClientbound {
    open spec fn valid(m: PlayerPositionAndLookClientbound) -> bool {
        &&& Double::valid(m.x)
        &&& Double::valid(m.y)
        &&& Double::valid(m.z)
        &&& Float::valid(m.yaw)
        &&& Float::valid(m.pitch)
        &&& Byte::valid(m.flags)
    }

    open spec fn wire(m: PlayerPositionAndLookClientbound) -> Seq<u8> {
        Double::wire(m.x)
            + Double::wire(m.y)
            + Double::wire(m.z)
            + Float::wire(m.yaw)
            + Float::wire(m.pitch)
            + Byte::wire(m.flags)
    }

    open spec fn decoded(s: Seq<u8>) -> Option<(PlayerPositionAndLookClientbound, int)> {
        let r0 = Double::decoded(s);
        let n0 = taken(r0);
        let f_x = read(r0);
        let r1 = Double::decoded(s.skip(n0));
        let n1 = n0 + taken(r1);
        let f_y = read(r1);
        let r2 = Double::decoded(s.skip(n1));
        let n2 = n1 + taken(r2);
        let f_z = read(r2);
        let r3 = Float::decoded(s.skip(n2));
        let n3 = n2 + taken(r3);
        let f_yaw = read(r3);
        let r4 = Float::decoded(s.skip(n3));
        let n4 = n3 + taken(r4);
        let f_pitch = read(r4);
        let r5 = Byte::decoded(s.skip(n4));
        let n5 = n4 + taken(r5);
        let f_flags = read(r5);
        if r0 is Some && r1 is Some && r2 is Some && r3 is Some && r4 is Some && r5 is Some {
            Some(
                (
                    PlayerPositionAndLookClientbound {
                        x: f_x,
                        y: f_y,
                        z: f_z,
                        yaw: f_yaw,
                        pitch: f_pitch,
                        flags: f_flags,
                    },
                    n5,
                ),
            )
        } else {
            None
        }
    }

    fn decode(data: &[u8]) -> (r: Option<(Self, usize)>) {
        let (f_x, k0) = match <Double as Wire>::decode(data) {
            Some(x) => x,
            None => {
                return None;
            },
        };
        proof {
            Double::lemma_decoded_bounds(data@);
        }
        let n0 = k0;
        let (f_y, k1) = match <Double as Wire>::decode(tail(data, n0)) {
            Some(x) => x,
            None => {
                return None;
            },
        };
        proof {
            Double::lemma_decoded_bounds(data@.skip(n0 as int));
        }
        let n1 = n0 + k1;
        let (f_z, k2) = match <Double as Wire>::decode(tail(data, n1)) {
            Some(x) => x,
            None => {
                return None;
            },
        };
        proof {
            Double::lemma_decoded_bounds(data@.skip(n1 as int));
        }
        let n2 = n1 + k2;
        let (f_yaw, k3) = match <Float as Wire>::decode(tail(data, n2)) {
            Some(x) => x,
            None => {
                return None;
            },
        };
        proof {
            Float::lemma_decoded_bounds(data@.skip(n2 as int));
        }
        let n3 = n2 + k3;
        let (f_pitch, k4) = match <Float as Wire>::decode(tail(data, n3)) {
            Some(x) => x,
            None => {
                return None;
            },
        };
        proof {
            Float::lemma_decoded_bounds(data@.skip(n3 as int));
        }
        let n4 = n3 + k4;
        let (f_flags, k5) = match <Byte as Wire>::decode(tail(data, n4)) {
            Some(x) => x,
            None => {
                return None;
            },
        };
        proof {
            Byte::lemma_decoded_bounds(data@.skip(n4 as int));
        }
        let n5 = n4 + k5;
        Some(
            (
                PlayerPositionAndLookClientbound {
                    x: f_x,
                    y: f_y,
                    z: f_z,
                    yaw: f_yaw,
                    pitch: f_pitch,
                    flags: f_flags,
                },
                n5,
            ),
        )
    }

    fn encode(&self, out: &mut Vec<u8>) {
        self.x.encode(out);
        self.y.encode(out);
        self.z.encode(out);
        self.yaw.encode(out);
        self.pitch.encode(out);
        self.flags.encode(out);
        assert(out@ =~= old(out)@ + Self::wire(self@));
    }

    fn check(&self) -> (b: bool) {
        self.x.check()
            && self.y.check()
            && self.z.check()
            && self.yaw.check()
            && self.pitch.check()
            && self.flags.check()
    }

    proof fn lemma_decoded_bounds(s: Seq<u8>) {
        let r0 = Double::decoded(s);
        Double::lemma_decoded_bounds(s);
        let n0 = taken(r0);
        let f_x = read(r0);
        let r1 = Double::decoded(s.skip(n0));
        Double::lemma_decoded_bounds(s.skip(n0));
        let n1 = n0 + taken(r1);
        let f_y = read(r1);
        let r2 = Double::decoded(s.skip(n1));
        Double::lemma_decoded_bounds(s.skip(n1));
        let n2 = n1 + taken(r2);
        let f_z = read(r2);
        let r3 = Float::decoded(s.skip(n2));
        Float::lemma_decoded_bounds(s.skip(n2));
        let n3 = n2 + taken(r3);
        let f_yaw = read(r3);
        let r4 = Float::decoded(s.skip(n3));
        Float::lemma_decoded_bounds(s.skip(n3));
        let n4 = n3 + taken(r4);
        let f_pitch = read(r4);
        let r5 = Byte::decoded(s.skip(n4));
        Byte::lemma_decoded_bounds(s.skip(n4));
        let n5 = n4 + taken(r5);
        let f_flags = read(r5);
    }

    proof fn lemma_decoded_wire(m: PlayerPositionAndLookClientbound, rest: Seq<u8>) {
        let s = Self::wire(m) + rest;
        let w0 = Double::wire(m.x);
        let w1 = Double::wire(m.y);
        let w2 = Double::wire(m.z);
        let w3 = Float::wire(m.yaw);
        let w4 = Float::wire(m.pitch);
        let w5 = Byte::wire(m.flags);
        let p0 = w0;
        let p1 = p0 + w1;
        let p2 = p1 + w2;
        let p3 = p2 + w3;
        let p4 = p3 + w4;
        let p5 = p4 + w5;
        let t5 = rest;
        let t4 = w5 + t5;
        let t3 = w4 + t4;
        let t2 = w3 + t3;
        let t1 = w2 + t2;
        let t0 = w1 + t1;
        assert(s == p5 + t5);
        lemma_join(p4, w5, t5);
        lemma_join(p3, w4, t4);
        lemma_join(p2, w3, t3);
        lemma_join(p1, w2, t2);
        lemma_join(p0, w1, t1);
        assert(s.skip(0) =~= s);
        let a0 = 0int;
        lemma_field_read::<Double>(s, a0, m.x, t0);
        let a1 = a0 + w0.len();
        lemma_field_read::<Double>(s, a1, m.y, t1);
        let a2 = a1 + w1.len();
        lemma_field_read::<Double>(s, a2, m.z, t2);
        let a3 = a2 + w2.len();
        lemma_field_read::<Float>(s, a3, m.yaw, t3);
        let a4 = a3 + w3.len();
        lemma_field_read::<Float>(s, a4, m.pitch, t4);
        let a5 = a4 + w4.len();
        lemma_field_read::<Byte>(s, a5, m.flags, t5);
    }
}

impl ClientboundPacket for PlayerPositionAndLookClientbound {
    open spec fn listed() -> IDS {
        IDS::PlayerPositionAndLookClientbound
    }

    open spec fn parsed(s: Seq<u8>) -> Option<PlayerPositionAndLookClientbound> {
        match Self::decoded(s) {
            Some((m, _)) => Some(m),
            None => None,
        }
    }

    fn parse(data: &[u8]) -> (r: Result<Self, String>) {
        match Self::decode(data) {
            Some((p, _)) => Ok(p),
            None => Err(malformed("PlayerPositionAndLookClientbound")),
        }
    }

    fn id() -> (r: IDS) {
        IDS::PlayerPositionAndLookClientbound
    }
}

/// The experience of the player.
#[derive(Debug, Clone, Copy, PartialEq, Eq, Structural)]
pub struct SetExperience {
    pub experience_bar: Float,
    pub level: VarInt,
    pub total_experience: VarInt,
}

impl View for SetExperience {
    type V = SetExperience;

    open spec fn view(&self) -> SetExperience {
        *self
    }
}

impl SetExperience {
    /// A packet of the given fields.
    pub fn new(experience_bar: Float, level: VarInt, total_experience: VarInt) -> (r: Self)
        ensures
            r == (SetExperience { experience_bar, level, total_experience }),
    {
        SetExperience { experience_bar, level, total_experience }
    }
}

impl Wire for SetExperience {
    open spec fn valid(m: SetExperience) -> bool {
        &&& Float::valid(m.experience_bar)
        &&& VarInt::valid(m.level)
        &&& VarInt::valid(m.total_experience)
    }

    open spec fn wire(m: SetExperience) -> Seq<u8> {
        Float::wire(m.experience_bar)
            + VarInt::wire(m.level)
            + VarInt::wire(m.total_experience)
    }

    open spec fn decoded(s: Seq<u8>) -> Option<(SetExperience, int)> {
        let r0 = Float::decoded(s);
        let n0 = taken(r0);
        let f_experience_bar = read(r0);
        let r1 = VarInt::decoded(s.skip(n0));
        let n1 = n0 + taken(r1);
        let f_level = read(r1);
        let r2 = VarInt::decoded(s.skip(n1));
        let n2 = n1 + taken(r2);
        let f_total_experience = read(r2);
        if r0 is Some && r1 is Some && r2 is Some {
            Some(
                (
                    SetExperience {
                        experience_bar: f_experience_bar,
                        level: f_level,
                        total_experience: f_total_experience,
                    },
                    n2,
                ),
            )
        } else {
            None
        }
    }

    fn decode(data: &[u8]) -> (r: Option<(Self, usize)>) {
        let (f_experience_bar, k0) = match <Float as Wire>::decode(data) {
            Some(x) => x,
            None => {
                return None;
            },
        };
        proof {
            Float::lemma_decoded_bounds(data@);
        }
        let n0 = k0;
        let (f_level, k1) = match <VarInt as Wire>::decode(tail(data, n0)) {
            Some(x) => x,
            None => {
                return None;
            },
        };
        proof {
            VarInt::lemma_decoded_bounds(data@.skip(n0 as int));
        }
        let n1 = n0 + k1;
        let (f_total_experience, k2) = match <VarInt as Wire>::decode(tail(data, n1)) {
            Some(x) => x,
            None => {
                return None;
            },
        };
        proof {
            VarInt::lemma_decoded_bounds(data@.skip(n1 as int));
        }
        let n2 = n1 + k2;
        Some(
            (
                SetExperience {
                    experience_bar: f_experience_bar,
                    level: f_level,
                    total_experience: f_total_experience,
                },
                n2,
            ),
        )
    }

    fn encode(&self, out: &mut Vec<u8>) {
        self.experience_bar.encode(out);
        self.level.encode(out);
        self.total_experience.encode(out);
        assert(out@ =~= old(out)@ + Self::wire(self@));
    }

    fn check(&self) -> (b: bool) {
        self.experience_bar.check()
            && self.level.check()
            && self.total_experience.check()
    }

    proof fn lemma_decoded_bounds(s: Seq<u8>) {
        let r0 = Float::decoded(s);
        Float::lemma_decoded_bounds(s);
        let n0 = taken(r0);
        let f_experience_bar = read(r0);
        let r1 = VarInt::decoded(s.skip(n0));
        VarInt::lemma_decoded_bounds(s.skip(n0));
        let n1 = n0 + taken(r1);
        let f_level = read(r1);
        let r2 = VarInt::decoded(s.skip(n1));
        VarInt::lemma_decoded_bounds(s.skip(n1));
        let n2 = n1 + taken(r2);
        let f_total_experience = read(r2);
    }

    proof fn lemma_decoded_wire(m: SetExperience, rest: Seq<u8>) {
        let s = Self::wire(m) + rest;
        let w0 = Float::wire(m.experience_bar);
        let w1 = VarInt::wire(m.level);
        let w2 = VarInt::wire(m.total_experience);
        let p0 = w0;
        let p1 = p0 + w1;
        let p2 = p1 + w2;
        let t2 = rest;
        let t1 = w2 + t2;
        let t0 = w1 + t1;
        assert(s == p2 + t2);
        lemma_join(p1, w2, t2);
        lemma_join(p0, w1, t1);
        assert(s.skip(0) =~= s);
        let a0 = 0int;
        lemma_field_read::<Float>(s, a0, m.experience_bar, t0);
        let a1 = a0 + w0.len();
        lemma_field_read::<VarInt>(s, a1, m.level, t1);
        let a2 = a1 + w1.len();
        lemma_field_read::<VarInt>(s, a2, m.total_experience, t2);
    }
}

impl ClientboundPacket for SetExperience {
    open spec fn listed() -> IDS {
        IDS::SetExperience
    }

    open spec fn parsed(s: Seq<u8>) -> Option<SetExperience> {
        match Self::decoded(s) {
            Some((m, _)) => Some(m),
            None => None,
        }
    }

    fn parse(data: &[u8]) -> (r: Result<Self, String>) {
        match Self::decode(data) {
            Some((p, _)) => Ok(p),
            None => Err(malformed("SetExperience")),
        }
    }

    fn id() -> (r: IDS) {
        IDS::SetExperience
    }
}

/// What the player is able to do.
#[derive(Debug, Clone, Copy, PartialEq, Eq, Structural)]
pub struct PlayerAbilitiesClientbound {
    pub flags: Byte,
    pub flying_speed: Float,
    pub field_of_view_modifier: Float,
}

impl View for PlayerAbilitiesClientbound {
    type V = PlayerAbilitiesClientbound;

    open spec fn view(&self) -> PlayerAbilitiesClientbound {
        *self
    }
}

impl PlayerAbilitiesClientbound {
    /// A packet of the given fields.
    pub fn new(flags: Byte, flying_speed: Float, field_of_view_modifier: Float) -> (r: Self)
        ensures
            r == (PlayerAbilitiesClientbound { flags, flying_speed, field_of_view_modifier }),
    {
        PlayerAbilitiesClientbound { flags, flying_speed, field_of_view_modifier }
    }
}

impl Wire for PlayerAbilitiesClientbound {
    open spec fn valid(m: PlayerAbilitiesClientbound) -> bool {
        &&& Byte::valid(m.flags)
        &&& Float::valid(m.flying_speed)
        &&& Float::valid(m.field_of_view_modifier)
    }

    open spec fn wire(m: PlayerAbilitiesClientbound) -> Seq<u8> {
        Byte::wire(m.flags)
            + Float::wire(m.flying_speed)
            + Float::wire(m.field_of_view_modifier)
    }

    open spec fn decoded(s: Seq<u8>) -> Option<(PlayerAbilitiesClientbound, int)> {
        let r0 = Byte::decoded(s);
        let n0 = taken(r0);
        let f_flags = read(r0);
        let r1 = Float::decoded(s.skip(n0));
        let n1 = n0 + taken(r1);
        let f_flying_speed = read(r1);
        let r2 = Float::decoded(s.skip(n1));
        let n2 = n1 + taken(r2);
        let f_field_of_view_modifier = read(r2);
        if r0 is Some && r1 is Some && r2 is Some {
            Some(
                (
                    PlayerAbilitiesClientbound {
                        flags: f_flags,
                        flying_speed: f_flying_speed,
                        field_of_view_modifier: f_field_of_view_modifier,
                    },
                    n2,
                ),
            )
        } else {
            None
        }
    }

    fn decode(data: &[u8]) -> (r: Option<(Self, usize)>) {
        let (f_flags, k0) = match <Byte as Wire>::decode(data) {
            Some(x) => x,
            None => {
                return None;
            },
        };
        proof {
            Byte::lemma_decoded_bounds(data@);
        }
        let n0 = k0;
        let (f_flying_speed, k1) = match <Float as Wire>::decode(tail(data, n0)) {
            Some(x) => x,
            None => {
                return None;
            },
        };
        proof {
            Float::lemma_decoded_bounds(data@.skip(n0 as int));
        }
        let n1 = n0 + k1;
        let (f_field_of_view_modifier, k2) = match <Float as Wire>::decode(tail(data, n1)) {
            Some(x) => x,
            None => {
                return None;
            },
        };
        proof {
            Float::lemma_decoded_bounds(data@.skip(n1 as int));
        }
        let n2 = n1 + k2;
        Some(
            (
                PlayerAbilitiesClientbound {
                    flags: f_flags,
                    flying_speed: f_flying_speed,
                    field_of_view_modifier: f_field_of_view_modifier,
                },
                n2,
            ),
        )
    }

    fn encode(&self, out: &mut Vec<u8>) {
        self.flags.encode(out);
        self.flying_speed.encode(out);
        self.field_of_view_modifier.encode(out);
        assert(out@ =~= old(out)@ + Self::wire(self@));
    }

    fn check(&self) -> (b: bool) {
        self.flags.check()
            && self.flying_speed.check()
            && self.field_of_view_modifier.check()
    }

    proof fn lemma_decoded_bounds(s: Seq<u8>) {
        let r0 = Byte::decoded(s);
        Byte::lemma_decoded_bounds(s);
        let n0 = taken(r0);
        let f_flags = read(r0);
        let r1 = Float::decoded(s.skip(n0));
        Float::lemma_decoded_bounds(s.skip(n0));
        let n1 = n0 + taken(r1);
        let f_flying_speed = read(r1);
        let r2 = Float::decoded(s.skip(n1));
        Float::lemma_decoded_bounds(s.skip(n1));
        let n2 = n1 + taken(r2);
        let f_field_of_view_modifier = read(r2);
    }

    proof fn lemma_decoded_wire(m: PlayerAbilitiesClientbound, rest: Seq<u8>) {
        let s = Self::wire(m) + rest;
        let w0 = Byte::wire(m.flags);
        let w1 = Float::wire(m.flying_speed);
        let w2 = Float::wire(m.field_of_view_modifier);
        let p0 = w0;
        let p1 = p0 + w1;
        let p2 = p1 + w2;
        let t2 = rest;
        let t1 = w2 + t2;
        let t0 = w1 + t1;
        assert(s == p2 + t2);
        lemma_join(p1, w2, t2);
        lemma_join(p0, w1, t1);
        assert(s.skip(0) =~= s);
        let a0 = 0int;
        lemma_field_read::<Byte>(s, a0, m.flags, t0);
        let a1 = a0 + w0.len();
        lemma_field_read::<Float>(s, a1, m.flying_speed, t1);
        let a2 = a1 + w1.len();
        lemma_field_read::<Float>(s, a2, m.field_of_view_modifier, t2);
    }
}

impl ClientboundPacket for PlayerAbilitiesClientbound {
    open spec fn listed() -> IDS {
        IDS::PlayerAbilitiesClientbound
    }

    open spec fn parsed(s: Seq<u8>) -> Option<PlayerAbilitiesClientbound> {
        match Self::decoded(s) {
            Some((m, _)) => Some(m),
            None => None,
        }
    }

    fn parse(data: &[u8]) -> (r: Result<Self, String>) {
        match Self::decode(data) {
            Some((p, _)) => Ok(p),
            None => Err(malformed("PlayerAbilitiesClientbound")),
        }
    }

    fn id() -> (r: IDS) {
        IDS::PlayerAbilitiesClientbound
    }
}

/// One statistic and its value.
#[derive(Debug, Clone, PartialEq, Eq)]
pub struct Statistic {
    pub name: VarString,
    pub value: VarInt,
}

/// What a `Statistic` holds.
pub struct StatisticModel {
    pub name: Seq<char>,
    pub value: VarInt,
}

impl View for Statistic {
    type V = StatisticModel;

    open spec fn view(&self) -> StatisticModel {
        StatisticModel {
            name: self.name@,
            value: self.value@,
        }
    }
}

impl Statistic {
    /// A packet of the given fields.
    pub fn new(name: VarString, value: VarInt) -> (r: Self)
        ensures
            r == (Statistic { name, value }),
    {
        Statistic { name, value }
    }
}

impl Wire for Statistic {
    open spec fn valid(m: StatisticModel) -> bool {
        &&& VarString::valid(m.name)
        &&& VarInt::valid(m.value)
    }

    open spec fn wire(m: StatisticModel) -> Seq<u8> {
        VarString::wire(m.name)
            + VarInt::wire(m.value)
    }

    open spec fn decoded(s: Seq<u8>) -> Option<(StatisticModel, int)> {
        let r0 = VarString::decoded(s);
        let n0 = taken(r0);
        let f_name = read(r0);
        let r1 = VarInt::decoded(s.skip(n0));
        let n1 = n0 + taken(r1);
        let f_value = read(r1);
        if r0 is Some && r1 is Some {
            Some((StatisticModel { name: f_name, value: f_value }, n1))
        } else {
            None
        }
    }

    fn decode(data: &[u8]) -> (r: Option<(Self, usize)>) {
        let (f_name, k0) = match <VarString as Wire>::decode(data) {
            Some(x) => x,
            None => {
                return None;
            },
        };
        proof {
            VarString::lemma_decoded_bounds(data@);
        }
        let n0 = k0;
        let (f_value, k1) = match <VarInt as Wire>::decode(tail(data, n0)) {
            Some(x) => x,
            None => {
                return None;
            },
        };
        proof {
            VarInt::lemma_decoded_bounds(data@.skip(n0 as int));
        }
        let n1 = n0 + k1;
        Some((Statistic { name: f_name, value: f_value }, n1))
    }

    fn encode(&self, out: &mut Vec<u8>) {
        self.name.encode(out);
        self.value.encode(out);
        assert(out@ =~= old(out)@ + Self::wire(self@));
    }

    fn check(&self) -> (b: bool) {
        self.name.check()
            && self.value.check()
    }

    proof fn lemma_decoded_bounds(s: Seq<u8>) {
        let r0 = VarString::decoded(s);
        VarString::lemma_decoded_bounds(s);
        let n0 = taken(r0);
        let f_name = read(r0);
        let r1 = VarInt::decoded(s.skip(n0));
        VarInt::lemma_decoded_bounds(s.skip(n0));
        let n1 = n0 + taken(r1);
        let f_value = read(r1);
    }

    proof fn lemma_decoded_wire(m: StatisticModel, rest: Seq<u8>) {
        let s = Self::wire(m) + rest;
        let w0 = VarString::wire(m.name);
        let w1 = VarInt::wire(m.value);
        let p0 = w0;
        let p1 = p0 + w1;
        let t1 = rest;
        let t0 = w1 + t1;
        assert(s == p1 + t1);
        lemma_join(p0, w1, t1);
        assert(s.skip(0) =~= s);
        let a0 = 0int;
        lemma_field_read::<VarString>(s, a0, m.name, t0);
        let a1 = a0 + w0.len();
        lemma_field_read::<VarInt>(s, a1, m.value, t1);
    }
}

/// The statistics of the player.
#[derive(Debug, Clone, PartialEq, Eq)]
pub struct Statistics {
    pub statistics: CountedArray<Statistic>,
}

/// What a `Statistics` holds.
pub struct StatisticsModel {
    pub statistics: Seq<StatisticModel>,
}

impl View for Statistics {
    type V = StatisticsModel;

    open spec fn view(&self) -> StatisticsModel {
        StatisticsModel {
            statistics: self.statistics@,
        }
    }
}

impl Statistics {
    /// A packet of the given fields.
    pub fn new(statistics: CountedArray<Statistic>) -> (r: Self)
        ensures
            r == (Statistics { statistics }),
    {
        Statistics { statistics }
    }
}

impl Wire for Statistics {
    open spec fn valid(m: StatisticsModel) -> bool {
        &&& CountedArray::<Statistic>::valid(m.statistics)
    }

    open spec fn wire(m: StatisticsModel) -> Seq<u8> {
        CountedArray::<Statistic>::wire(m.statistics)
    }

    open spec fn decoded(s: Seq<u8>) -> Option<(StatisticsModel, int)> {
        let r0 = CountedArray::<Statistic>::decoded(s);
        let n0 = taken(r0);
        let f_statistics = read(r0);
        if r0 is Some {
            Some((StatisticsModel { statistics: f_statistics }, n0))
        } else {
            None
        }
    }

    fn decode(data: &[u8]) -> (r: Option<(Self, usize)>) {
        let (f_statistics, k0) = match <CountedArray<Statistic> as Wire>::decode(data) {
            Some(x) => x,
            None => {
                return None;
            },
        };
        proof {
            CountedArray::<Statistic>::lemma_decoded_bounds(data@);
        }
        let n0 = k0;
        Some((Statistics { statistics: f_statistics }, n0))
    }

    fn encode(&self, out: &mut Vec<u8>) {
        self.statistics.encode(out);
        assert(out@ =~= old(out)@ + Self::wire(self@));
    }

    fn check(&self) -> (b: bool) {
        self.statistics.check()
    }

    proof fn lemma_decoded_bounds(s: Seq<u8>) {
        let r0 = CountedArray::<Statistic>::decoded(s);
        CountedArray::<Statistic>::lemma_decoded_bounds(s);
        let n0 = taken(r0);
        let f_statistics = read(r0);
    }

    proof fn lemma_decoded_wire(m: StatisticsModel, rest: Seq<u8>) {
        let s = Self::wire(m) + rest;
        let w0 = CountedArray::<Statistic>::wire(m.statistics);
        let p0 = w0;
        let t0 = rest;
        assert(s == p0 + t0);
        assert(s.skip(0) =~= s);
        let a0 = 0int;
        lemma_field_read::<CountedArray<Statistic>>(s, a0, m.statistics, t0);
    }
}

impl ClientboundPacket for Statistics {
    open spec fn listed() -> IDS {
        IDS::Statistics
    }

    open spec fn parsed(s: Seq<u8>) -> Option<StatisticsModel> {
        match Self::decoded(s) {
            Some((m, _)) => Some(m),
            None => None,
        }
    }

    fn parse(data: &[u8]) -> (r: Result<Self, String>) {
        match Self::decode(data) {
            Some((p, _)) => Ok(p),
            None => Err(malformed("Statistics")),
        }
    }

    fn id() -> (r: IDS) {
        IDS::Statistics
    }
}

/// A property of a player's profile, signed or not.
#[derive(Debug, Clone, PartialEq, Eq)]
pub struct PlayerProperty {
    pub name: VarString,
    pub value: VarString,
    pub signature: Optional<VarString>,
}

/// What a `PlayerProperty` holds.
pub struct PlayerPropertyModel {
    pub name: Seq<char>,
    pub value: Seq<char>,
    pub signature: Option<Seq<char>>,
}

impl View for PlayerProperty {
    type V = PlayerPropertyModel;

    open spec fn view(&self) -> PlayerPropertyModel {
        PlayerPropertyModel {
            name: self.name@,
            value: self.value@,
            signature: self.signature@,
        }
    }
}

impl PlayerProperty {
    /// A packet of the given fields.
    pub fn new(name: VarString, value: VarString, signature: Optional<VarString>) -> (r: Self)
        ensures
            r == (PlayerProperty { name, value, signature }),
    {
        PlayerProperty { name, value, signature }
    }
}

impl Wire for PlayerProperty {
    open spec fn valid(m: PlayerPropertyModel) -> bool {
        &&& VarString::valid(m.name)
        &&& VarString::valid(m.value)
        &&& Optional::<VarString>::valid(m.signature)
    }

    open spec fn wire(m: PlayerPropertyModel) -> Seq<u8> {
        VarString::wire(m.name)
            + VarString::wire(m.value)
            + Optional::<VarString>::wire(m.signature)
    }

    open spec fn decoded(s: Seq<u8>) -> Option<(PlayerPropertyModel, int)> {
        let r0 = VarString::decoded(s);
        let n0 = taken(r0);
        let f_name = read(r0);
        let r1 = VarString::decoded(s.skip(n0));
        let n1 = n0 + taken(r1);
        let f_value = read(r1);
        let r2 = Optional::<VarString>::decoded(s.skip(n1));
        let n2 = n1 + taken(r2);
        let f_signature = read(r2);
        if r0 is Some && r1 is Some && r2 is Some {
            Some((PlayerPropertyModel { name: f_name, value: f_value, signature: f_signature }, n2))
        } else {
            None
        }
    }

    fn decode(data: &[u8]) -> (r: Option<(Self, usize)>) {
        let (f_name, k0) = match <VarString as Wire>::decode(data) {
            Some(x) => x,
            None => {
                return None;
            },
        };
        proof {
            VarString::lemma_decoded_bounds(data@);
        }
        let n0 = k0;
        let (f_value, k1) = match <VarString as Wire>::decode(tail(data, n0)) {
            Some(x) => x,
            None => {
                return None;
            },
        };
        proof {
            VarString::lemma_decoded_bounds(data@.skip(n0 as int));
        }
        let n1 = n0 + k1;
        let (f_signature, k2) = match <Optional<VarString> as Wire>::decode(tail(data, n1)) {
            Some(x) => x,
            None => {
                return None;
            },
        };
        proof {
            Optional::<VarString>::lemma_decoded_bounds(data@.skip(n1 as int));
        }
        let n2 = n1 + k2;
        Some((PlayerProperty { name: f_name, value: f_value, signature: f_signature }, n2))
    }

    fn encode(&self, out: &mut Vec<u8>) {
        self.name.encode(out);
        self.value.encode(out);
        self.signature.encode(out);
        assert(out@ =~= old(out)@ + Self::wire(self@));
    }

    fn check(&self) -> (b: bool) {
        self.name.check()
            && self.value.check()
            && self.signature.check()
    }

    proof fn lemma_decoded_bounds(s: Seq<u8>) {
        let r0 = VarString::decoded(s);
        VarString::lemma_decoded_bounds(s);
        let n0 = taken(r0);
        let f_name = read(r0);
        let r1 = VarString::decoded(s.skip(n0));
        VarString::lemma_decoded_bounds(s.skip(n0));
        let n1 = n0 + taken(r1);
        let f_value = read(r1);
        let r2 = Optional::<VarString>::decoded(s.skip(n1));
        Optional::<VarString>::lemma_decoded_bounds(s.skip(n1));
        let n2 = n1 + taken(r2);
        let f_signature = read(r2);
    }

    proof fn lemma_decoded_wire(m: PlayerPropertyModel, rest: Seq<u8>) {
        let s = Self::wire(m) + rest;
        let w0 = VarString::wire(m.name);
        let w1 = VarString::wire(m.value);
        let w2 = Optional::<VarString>::wire(m.signature);
        let p0 = w0;
        let p1 = p0 + w1;
        let p2 = p1 + w2;
        let t2 = rest;
        let t1 = w2 + t2;
        let t0 = w1 + t1;
        assert(s == p2 + t2);
        lemma_join(p1, w2, t2);
        lemma_join(p0, w1, t1);
        assert(s.skip(0) =~= s);
        let a0 = 0int;
        lemma_field_read::<VarString>(s, a0, m.name, t0);
        let a1 = a0 + w0.len();
        lemma_field_read::<VarString>(s, a1, m.value, t1);
        let a2 = a1 + w1.len();
        lemma_field_read::<Optional<VarString>>(s, a2, m.signature, t2);
    }
}

/// A player that is added to the list.
#[derive(Debug, Clone, PartialEq, Eq)]
pub struct PlayerListAdd {
    pub uuid: UUID,
    pub name: VarString,
    pub properties: CountedArray<PlayerProperty>,
    pub gamemode: VarInt,
    pub ping: VarInt,
    pub display_name: Optional<VarString>,
}

/// What a `PlayerListAdd` holds.
pub struct PlayerListAddModel {
    pub uuid: Seq<u8>,
    pub name: Seq<char>,
    pub properties: Seq<PlayerPropertyModel>,
    pub gamemode: VarInt,
    pub ping: VarInt,
    pub display_name: Option<Seq<char>>,
}

impl View for PlayerListAdd {
    type V = PlayerListAddModel;

    open spec fn view(&self) -> PlayerListAddModel {
        PlayerListAddModel {
            uuid: self.uuid@,
            name: self.name@,
            properties: self.properties@,
            gamemode: self.gamemode@,
            ping: self.ping@,
            display_name: self.display_name@,
        }
    }
}

impl PlayerListAdd {
    /// A packet of the given fields.
    pub fn new(
        uuid: UUID,
        name: VarString,
        properties: CountedArray<PlayerProperty>,
        gamemode: VarInt,
        ping: VarInt,
        display_name: Optional<VarString>,
    ) -> (r: Self)
        ensures
            r == (PlayerListAdd { uuid, name, properties, gamemode, ping, display_name }),
    {
        PlayerListAdd { uuid, name, properties, gamemode, ping, display_name }
    }
}

impl Wire for PlayerListAdd {
    open spec fn valid(m: PlayerListAddModel) -> bool {
        &&& UUID::valid(m.uuid)
        &&& VarString::valid(m.name)
        &&& CountedArray::<PlayerProperty>::valid(m.properties)
        &&& VarInt::valid(m.gamemode)
        &&& VarInt::valid(m.ping)
        &&& Optional::<VarString>::valid(m.display_name)
    }

    open spec fn wire(m: PlayerListAddModel) -> Seq<u8> {
        UUID::wire(m.uuid)
            + VarString::wire(m.name)
            + CountedArray::<PlayerProperty>::wire(m.properties)
            + VarInt::wire(m.gamemode)
            + VarInt::wire(m.ping)
            + Optional::<VarString>::wire(m.display_name)
    }

    open spec fn decoded(s: Seq<u8>) -> Option<(PlayerListAddModel, int)> {
        let r0 = UUID::decoded(s);
        let n0 = taken(r0);
        let f_uuid = read(r0);
        let r1 = VarString::decoded(s.skip(n0));
        let n1 = n0 + taken(r1);
        let f_name = read(r1);
        let r2 = CountedArray::<PlayerProperty>::decoded(s.skip(n1));
        let n2 = n1 + taken(r2);
        let f_properties = read(r2);
        let r3 = VarInt::decoded(s.skip(n2));
        let n3 = n2 + taken(r3);
        let f_gamemode = read(r3);
        let r4 = VarInt::decoded(s.skip(n3));
        let n4 = n3 + taken(r4);
        let f_ping = read(r4);
        let r5 = Optional::<VarString>::decoded(s.skip(n4));
        let n5 = n4 + taken(r5);
        let f_display_name = read(r5);
        if r0 is Some && r1 is Some && r2 is Some && r3 is Some && r4 is Some && r5 is Some {
            Some(
                (
                    PlayerListAddModel {
                        uuid: f_uuid,
                        name: f_name,
                        properties: f_properties,
                        gamemode: f_gamemode,
                        ping: f_ping,
                        display_name: f_display_name,
                    },
                    n5,
                ),
            )
        } else {
            None
        }
    }

    fn decode(data: &[u8]) -> (r: Option<(Self, usize)>) {
        let (f_uuid, k0) = match <UUID as Wire>::decode(data) {
            Some(x) => x,
            None => {
                return None;
            },
        };
        proof {
            UUID::lemma_decoded_bounds(data@);
        }
        let n0 = k0;
        let (f_name, k1) = match <VarString as Wire>::decode(tail(data, n0)) {
            Some(x) => x,
            None => {
                return None;
            },
        };
        proof {
            VarString::lemma_decoded_bounds(data@.skip(n0 as int));
        }
        let n1 = n0 + k1;
        let (f_properties, k2) = match <CountedArray<PlayerProperty> as Wire>::decode(
            tail(data, n1),
        ) {
            Some(x) => x,
            None => {
                return None;
            },
        };
        proof {
            CountedArray::<PlayerProperty>::lemma_decoded_bounds(data@.skip(n1 as int));
        }
        let n2 = n1 + k2;
        let (f_gamemode, k3) = match <VarInt as Wire>::decode(tail(data, n2)) {
            Some(x) => x,
            None => {
                return None;
            },
        };
        proof {
            VarInt::lemma_decoded_bounds(data@.skip(n2 as int));
        }
        let n3 = n2 + k3;
        let (f_ping, k4) = match <VarInt as Wire>::decode(tail(data, n3)) {
            Some(x) => x,
            None => {
                return None;
            },
        };
        proof {
            VarInt::lemma_decoded_bounds(data@.skip(n3 as int));
        }
        let n4 = n3 + k4;
        let (f_display_name, k5) = match <Optional<VarString> as Wire>::decode(tail(data, n4)) {
            Some(x) => x,
            None => {
                return None;
            },
        };
        proof {
            Optional::<VarString>::lemma_decoded_bounds(data@.skip(n4 as int));
        }
        let n5 = n4 + k5;
        Some(
            (
                PlayerListAdd {
                    uuid: f_uuid,
                    name: f_name,
                    properties: f_properties,
                    gamemode: f_gamemode,
                    ping: f_ping,
                    display_name: f_display_name,
                },
                n5,
            ),
        )
    }

    fn encode(&self, out: &mut Vec<u8>) {
        self.uuid.encode(out);
        self.name.encode(out);
        self.properties.encode(out);
        self.gamemode.encode(out);
        self.ping.encode(out);
        self.display_name.encode(out);
        assert(out@ =~= old(out)@ + Self::wire(self@));
    }

    fn check(&self) -> (b: bool) {
        self.uuid.check()
            && self.name.check()
            && self.properties.check()
            && self.gamemode.check()
            && self.ping.check()
            && self.display_name.check()
    }

    proof fn lemma_decoded_bounds(s: Seq<u8>) {
        let r0 = UUID::decoded(s);
        UUID::lemma_decoded_bounds(s);
        let n0 = taken(r0);
        let f_uuid = read(r0);
        let r1 = VarString::decoded(s.skip(n0));
        VarString::lemma_decoded_bounds(s.skip(n0));
        let n1 = n0 + taken(r1);
        let f_name = read(r1);
        let r2 = CountedArray::<PlayerProperty>::decoded(s.skip(n1));
        CountedArray::<PlayerProperty>::lemma_decoded_bounds(s.skip(n1));
        let n2 = n1 + taken(r2);
        let f_properties = read(r2);
        let r3 = VarInt::decoded(s.skip(n2));
        VarInt::lemma_decoded_bounds(s.skip(n2));
        let n3 = n2 + taken(r3);
        let f_gamemode = read(r3);
        let r4 = VarInt::decoded(s.skip(n3));
        VarInt::lemma_decoded_bounds(s.skip(n3));
        let n4 = n3 + taken(r4);
        let f_ping = read(r4);
        let r5 = Optional::<VarString>::decoded(s.skip(n4));
        Optional::<VarString>::lemma_decoded_bounds(s.skip(n4));
        let n5 = n4 + taken(r5);
        let f_display_name = read(r5);
    }

    proof fn lemma_decoded_wire(m: PlayerListAddModel, rest: Seq<u8>) {
        let s = Self::wire(m) + rest;
        let w0 = UUID::wire(m.uuid);
        let w1 = VarString::wire(m.name);
        let w2 = CountedArray::<PlayerProperty>::wire(m.properties);
        let w3 = VarInt::wire(m.gamemode);
        let w4 = VarInt::wire(m.ping);
        let w5 = Optional::<VarString>::wire(m.display_name);
        let p0 = w0;
        let p1 = p0 + w1;
        let p2 = p1 + w2;
        let p3 = p2 + w3;
        let p4 = p3 + w4;
        let p5 = p4 + w5;
        let t5 = rest;
        let t4 = w5 + t5;
        let t3 = w4 + t4;
        let t2 = w3 + t3;
        let t1 = w2 + t2;
        let t0 = w1 + t1;
        assert(s == p5 + t5);
        lemma_join(p4, w5, t5);
        lemma_join(p3, w4, t4);
        lemma_join(p2, w3, t3);
        lemma_join(p1, w2, t2);
        lemma_join(p0, w1, t1);
        assert(s.skip(0) =~= s);
        let a0 = 0int;
        lemma_field_read::<UUID>(s, a0, m.uuid, t0);
        let a1 = a0 + w0.len();
        lemma_field_read::<VarString>(s, a1, m.name, t1);
        let a2 = a1 + w1.len();
        lemma_field_read::<CountedArray<PlayerProperty>>(s, a2, m.properties, t2);
        let a3 = a2 + w2.len();
        lemma_field_read::<VarInt>(s, a3, m.gamemode, t3);
        let a4 = a3 + w3.len();
        lemma_field_read::<VarInt>(s, a4, m.ping, t4);
        let a5 = a4 + w4.len();
        lemma_field_read::<Optional<VarString>>(s, a5, m.display_name, t5);
    }
}

/// A new game mode of a player on the list.
#[derive(Debug, Clone, PartialEq, Eq)]
pub struct PlayerListGamemode {
    pub uuid: UUID,
    pub gamemode: VarInt,
}

/// What a `PlayerListGamemode` holds.
pub struct PlayerListGamemodeModel {
    pub uuid: Seq<u8>,
    pub gamemode: VarInt,
}

impl View for PlayerListGamemode {
    type V = PlayerListGamemodeModel;

    open spec fn view(&self) -> PlayerListGamemodeModel {
        PlayerListGamemodeModel {
            uuid: self.uuid@,
            gamemode: self.gamemode@,
        }
    }
}

impl PlayerListGamemode {
    /// A packet of the given fields.
    pub fn new(uuid: UUID, gamemode: VarInt) -> (r: Self)
        ensures
            r == (PlayerListGamemode { uuid, gamemode }),
    {
        PlayerListGamemode { uuid, gamemode }
    }
}

impl Wire for PlayerListGamemode {
    open spec fn valid(m: PlayerListGamemodeModel) -> bool {
        &&& UUID::valid(m.uuid)
        &&& VarInt::valid(m.gamemode)
    }

    open spec fn wire(m: PlayerListGamemodeModel) -> Seq<u8> {
        UUID::wire(m.uuid)
            + VarInt::wire(m.gamemode)
    }

    open spec fn decoded(s: Seq<u8>) -> Option<(PlayerListGamemodeModel, int)> {
        let r0 = UUID::decoded(s);
        let n0 = taken(r0);
        let f_uuid = read(r0);
        let r1 = VarInt::decoded(s.skip(n0));
        let n1 = n0 + taken(r1);
        let f_gamemode = read(r1);
        if r0 is Some && r1 is Some {
            Some((PlayerListGamemodeModel { uuid: f_uuid, gamemode: f_gamemode }, n1))
        } else {
            None
        }
    }

    fn decode(data: &[u8]) -> (r: Option<(Self, usize)>) {
        let (f_uuid, k0) = match <UUID as Wire>::decode(data) {
            Some(x) => x,
            None => {
                return None;
            },
        };
        proof {
            UUID::lemma_decoded_bounds(data@);
        }
        let n0 = k0;
        let (f_gamemode, k1) = match <VarInt as Wire>::decode(tail(data, n0)) {
            Some(x) => x,
            None => {
                return None;
            },
        };
        proof {
            VarInt::lemma_decoded_bounds(data@.skip(n0 as int));
        }
        let n1 = n0 + k1;
        Some((PlayerListGamemode { uuid: f_uuid, gamemode: f_gamemode }, n1))
    }

    fn encode(&self, out: &mut Vec<u8>) {
        self.uuid.encode(out);
        self.gamemode.encode(out);
        assert(out@ =~= old(out)@ + Self::wire(self@));
    }

    fn check(&self) -> (b: bool) {
        self.uuid.check()
            && self.gamemode.check()
    }

    proof fn lemma_decoded_bounds(s: Seq<u8>) {
        let r0 = UUID::decoded(s);
        UUID::lemma_decoded_bounds(s);
        let n0 = taken(r0);
        let f_uuid = read(r0);
        let r1 = VarInt::decoded(s.skip(n0));
        VarInt::lemma_decoded_bounds(s.skip(n0));
        let n1 = n0 + taken(r1);
        let f_gamemode = read(r1);
    }

    proof fn lemma_decoded_wire(m: PlayerListGamemodeModel, rest: Seq<u8>) {
        let s = Self::wire(m) + rest;
        let w0 = UUID::wire(m.uuid);
        let w1 = VarInt::wire(m.gamemode);
        let p0 = w0;
        let p1 = p0 + w1;
        let t1 = rest;
        let t0 = w1 + t1;
        assert(s == p1 + t1);
        lemma_join(p0, w1, t1);
        assert(s.skip(0) =~= s);
        let a0 = 0int;
        lemma_field_read::<UUID>(s, a0, m.uuid, t0);
        let a1 = a0 + w0.len();
        lemma_field_read::<VarInt>(s, a1, m.gamemode, t1);
    }
}

/// A new latency of a player on the list.
#[derive(Debug, Clone, PartialEq, Eq)]
pub struct PlayerListLatency {
    pub uuid: UUID,
    pub ping: VarInt,
}

/// What a `PlayerListLatency` holds.
pub struct PlayerListLatencyModel {
    pub uuid: Seq<u8>,
    pub ping: VarInt,
}

impl View for PlayerListLatency {
    type V = PlayerListLatencyModel;

    open spec fn view(&self) -> PlayerListLatencyModel {
        PlayerListLatencyModel {
            uuid: self.uuid@,
            ping: self.ping@,
        }
    }
}

impl PlayerListLatency {
    /// A packet of the given fields.
    pub fn new(uuid: UUID, ping: VarInt) -> (r: Self)
        ensures
            r == (PlayerListLatency { uuid, ping }),
    {
        PlayerListLatency { uuid, ping }
    }
}

impl Wire for PlayerListLatency {
    open spec fn valid(m: PlayerListLatencyModel) -> bool {
        &&& UUID::valid(m.uuid)
        &&& VarInt::valid(m.ping)
    }

    open spec fn wire(m: PlayerListLatencyModel) -> Seq<u8> {
        UUID::wire(m.uuid)
            + VarInt::wire(m.ping)
    }

    open spec fn decoded(s: Seq<u8>) -> Option<(PlayerListLatencyModel, int)> {
        let r0 = UUID::decoded(s);
        let n0 = taken(r0);
        let f_uuid = read(r0);
        let r1 = VarInt::decoded(s.skip(n0));
        let n1 = n0 + taken(r1);
        let f_ping = read(r1);
        if r0 is Some && r1 is Some {
            Some((PlayerListLatencyModel { uuid: f_uuid, ping: f_ping }, n1))
        } else {
            None
        }
    }

    fn decode(data: &[u8]) -> (r: Option<(Self, usize)>) {
        let (f_uuid, k0) = match <UUID as Wire>::decode(data) {
            Some(x) => x,
            None => {
                return None;
            },
        };
        proof {
            UUID::lemma_decoded_bounds(data@);
        }
        let n0 = k0;
        let (f_ping, k1) = match <VarInt as Wire>::decode(tail(data, n0)) {
            Some(x) => x,
            None => {
                return None;
            },
        };
        proof {
            VarInt::lemma_decoded_bounds(data@.skip(n0 as int));
        }
        let n1 = n0 + k1;
        Some((PlayerListLatency { uuid: f_uuid, ping: f_ping }, n1))
    }

    fn encode(&self, out: &mut Vec<u8>) {
        self.uuid.encode(out);
        self.ping.encode(out);
        assert(out@ =~= old(out)@ + Self::wire(self@));
    }

    fn check(&self) -> (b: bool) {
        self.uuid.check()
            && self.ping.check()
    }

    proof fn lemma_decoded_bounds(s: Seq<u8>) {
        let r0 = UUID::decoded(s);
        UUID::lemma_decoded_bounds(s);
        let n0 = taken(r0);
        let f_uuid = read(r0);
        let r1 = VarInt::decoded(s.skip(n0));
        VarInt::lemma_decoded_bounds(s.skip(n0));
        let n1 = n0 + taken(r1);
        let f_ping = read(r1);
    }

    proof fn lemma_decoded_wire(m: PlayerListLatencyModel, rest: Seq<u8>) {
        let s = Self::wire(m) + rest;
        let w0 = UUID::wire(m.uuid);
        let w1 = VarInt::wire(m.ping);
        let p0 = w0;
        let p1 = p0 + w1;
        let t1 = rest;
        let t0 = w1 + t1;
        assert(s == p1 + t1);
        lemma_join(p0, w1, t1);
        assert(s.skip(0) =~= s);
        let a0 = 0int;
        lemma_field_read::<UUID>(s, a0, m.uuid, t0);
        let a1 = a0 + w0.len();
        lemma_field_read::<VarInt>(s, a1, m.ping, t1);
    }
}

/// A new display name of a player on the list, or none.
#[derive(Debug, Clone, PartialEq, Eq)]
pub struct PlayerListDisplayName {
    pub uuid: UUID,
    pub display_name: Optional<VarString>,
}

/// What a `PlayerListDisplayName` holds.
pub struct PlayerListDisplayNameModel {
    pub uuid: Seq<u8>,
    pub display_name: Option<Seq<char>>,
}

impl View for PlayerListDisplayName {
    type V = PlayerListDisplayNameModel;

    open spec fn view(&self) -> PlayerListDisplayNameModel {
        PlayerListDisplayNameModel {
            uuid: self.uuid@,
            display_name: self.display_name@,
        }
    }
}

impl PlayerListDisplayName {
    /// A packet of the given fields.
    pub fn new(uuid: UUID, display_name: Optional<VarString>) -> (r: Self)
        ensures
            r == (PlayerListDisplayName { uuid, display_name }),
    {
        PlayerListDisplayName { uuid, display_name }
    }
}

impl Wire for PlayerListDisplayName {
    open spec fn valid(m: PlayerListDisplayNameModel) -> bool {
        &&& UUID::valid(m.uuid)
        &&& Optional::<VarString>::valid(m.display_name)
    }

    open spec fn wire(m: PlayerListDisplayNameModel) -> Seq<u8> {
        UUID::wire(m.uuid)
            + Optional::<VarString>::wire(m.display_name)
    }

    open spec fn decoded(s: Seq<u8>) -> Option<(PlayerListDisplayNameModel, int)> {
        let r0 = UUID::decoded(s);
        let n0 = taken(r0);
        let f_uuid = read(r0);
        let r1 = Optional::<VarString>::decoded(s.skip(n0));
        let n1 = n0 + taken(r1);
        let f_display_name = read(r1);
        if r0 is Some && r1 is Some {
            Some((PlayerListDisplayNameModel { uuid: f_uuid, display_name: f_display_name }, n1))
        } else {
            None
        }
    }

    fn decode(data: &[u8]) -> (r: Option<(Self, usize)>) {
        let (f_uuid, k0) = match <UUID as Wire>::decode(data) {
            Some(x) => x,
            None => {
                return None;
            },
        };
        proof {
            UUID::lemma_decoded_bounds(data@);
        }
        let n0 = k0;
        let (f_display_name, k1) = match <Optional<VarString> as Wire>::decode(tail(data, n0)) {
            Some(x) => x,
            None => {
                return None;
            },
        };
        proof {
            Optional::<VarString>::lemma_decoded_bounds(data@.skip(n0 as int));
        }
        let n1 = n0 + k1;
        Some((PlayerListDisplayName { uuid: f_uuid, display_name: f_display_name }, n1))
    }

    fn encode(&self, out: &mut Vec<u8>) {
        self.uuid.encode(out);
        self.display_name.encode(out);
        assert(out@ =~= old(out)@ + Self::wire(self@));
    }

    fn check(&self) -> (b: bool) {
        self.uuid.check()
            && self.display_name.check()
    }

    proof fn lemma_decoded_bounds(s: Seq<u8>) {
        let r0 = UUID::decoded(s);
        UUID::lemma_decoded_bounds(s);
        let n0 = taken(r0);
        let f_uuid = read(r0);
        let r1 = Optional::<VarString>::decoded(s.skip(n0));
        Optional::<VarString>::lemma_decoded_bounds(s.skip(n0));
        let n1 = n0 + taken(r1);
        let f_display_name = read(r1);
    }

    proof fn lemma_decoded_wire(m: PlayerListDisplayNameModel, rest: Seq<u8>) {
        let s = Self::wire(m) + rest;
        let w0 = UUID::wire(m.uuid);
        let w1 = Optional::<VarString>::wire(m.display_name);
        let p0 = w0;
        let p1 = p0 + w1;
        let t1 = rest;
        let t0 = w1 + t1;
        assert(s == p1 + t1);
        lemma_join(p0, w1, t1);
        assert(s.skip(0) =~= s);
        let a0 = 0int;
        lemma_field_read::<UUID>(s, a0, m.uuid, t0);
        let a1 = a0 + w0.len();
        lemma_field_read::<Optional<VarString>>(s, a1, m.display_name, t1);
    }
}

/// What is done to the list of players, with the players it is done to. The
/// number of the action comes first on the wire, as a `VarInt`; a number above
/// four is malformed.
#[derive(Debug, Clone, PartialEq, Eq)]
pub enum PlayerListAction {
    AddPlayer(CountedArray<PlayerListAdd>),
    UpdateGamemode(CountedArray<PlayerListGamemode>),
    UpdateLatency(CountedArray<PlayerListLatency>),
    UpdateDisplayName(CountedArray<PlayerListDisplayName>),
    RemovePlayer(CountedArray<UUID>),
}

/// What a `PlayerListAction` holds.
pub enum PlayerListActionModel {
    AddPlayer(Seq<PlayerListAddModel>),
    UpdateGamemode(Seq<PlayerListGamemodeModel>),
    UpdateLatency(Seq<PlayerListLatencyModel>),
    UpdateDisplayName(Seq<PlayerListDisplayNameModel>),
    RemovePlayer(Seq<Seq<u8>>),
}

impl View for PlayerListAction {
    type V = PlayerListActionModel;

    open spec fn view(&self) -> PlayerListActionModel {
        match self {
            PlayerListAction::AddPlayer(p) => PlayerListActionModel::AddPlayer(p@),
            PlayerListAction::UpdateGamemode(p) => PlayerListActionModel::UpdateGamemode(p@),
            PlayerListAction::UpdateLatency(p) => PlayerListActionModel::UpdateLatency(p@),
            PlayerListAction::UpdateDisplayName(p) => PlayerListActionModel::UpdateDisplayName(p@),
            PlayerListAction::RemovePlayer(p) => PlayerListActionModel::RemovePlayer(p@),
        }
    }
}

impl Wire for PlayerListAction {
    open spec fn valid(m: PlayerListActionModel) -> bool {
        match m {
            PlayerListActionModel::AddPlayer(p) => CountedArray::<PlayerListAdd>::valid(p),
            PlayerListActionModel::UpdateGamemode(p) => {
                CountedArray::<PlayerListGamemode>::valid(p)
            },
            PlayerListActionModel::UpdateLatency(p) => CountedArray::<PlayerListLatency>::valid(p),
            PlayerListActionModel::UpdateDisplayName(p) => {
                CountedArray::<PlayerListDisplayName>::valid(p)
            },
            PlayerListActionModel::RemovePlayer(p) => CountedArray::<UUID>::valid(p),
        }
    }

    open spec fn wire(m: PlayerListActionModel) -> Seq<u8> {
        match m {
            PlayerListActionModel::AddPlayer(p) => {
                VarInt::wire(VarInt(0)) + CountedArray::<PlayerListAdd>::wire(p)
            },
            PlayerListActionModel::UpdateGamemode(p) => {
                VarInt::wire(VarInt(1)) + CountedArray::<PlayerListGamemode>::wire(p)
            },
            PlayerListActionModel::UpdateLatency(p) => {
                VarInt::wire(VarInt(2)) + CountedArray::<PlayerListLatency>::wire(p)
            },
            PlayerListActionModel::UpdateDisplayName(p) => {
                VarInt::wire(VarInt(3)) + CountedArray::<PlayerListDisplayName>::wire(p)
            },
            PlayerListActionModel::RemovePlayer(p) => {
                VarInt::wire(VarInt(4)) + CountedArray::<UUID>::wire(p)
            },
        }
    }

    open spec fn decoded(s: Seq<u8>) -> Option<(PlayerListActionModel, int)> {
        match VarInt::decoded(s) {
            Some((tag, n)) => match tag.0 {
                0 => match CountedArray::<PlayerListAdd>::decoded(s.skip(n)) {
                    Some((p, k)) => Some((PlayerListActionModel::AddPlayer(p), n + k)),
                    None => None,
                },
                1 => match CountedArray::<PlayerListGamemode>::decoded(s.skip(n)) {
                    Some((p, k)) => Some((PlayerListActionModel::UpdateGamemode(p), n + k)),
                    None => None,
                },
                2 => match CountedArray::<PlayerListLatency>::decoded(s.skip(n)) {
                    Some((p, k)) => Some((PlayerListActionModel::UpdateLatency(p), n + k)),
                    None => None,
                },
                3 => match CountedArray::<PlayerListDisplayName>::decoded(s.skip(n)) {
                    Some((p, k)) => Some((PlayerListActionModel::UpdateDisplayName(p), n + k)),
                    None => None,
                },
                4 => match CountedArray::<UUID>::decoded(s.skip(n)) {
                    Some((p, k)) => Some((PlayerListActionModel::RemovePlayer(p), n + k)),
                    None => None,
                },
                _ => None,
            },
            None => None,
        }
    }

    fn decode(data: &[u8]) -> (r: Option<(Self, usize)>) {
        let (tag, n) = match VarInt::parse(data) {
            Some(x) => x,
            None => {
                return None;
            },
        };
        proof {
            VarInt::lemma_decoded_bounds(data@);
        }
        match tag.0 {
            0 => match <CountedArray<PlayerListAdd> as Wire>::decode(tail(data, n)) {
                Some((p, k)) => {
                    proof {
                        CountedArray::<PlayerListAdd>::lemma_decoded_bounds(data@.skip(n as int));
                    }
                    Some((PlayerListAction::AddPlayer(p), n + k))
                },
                None => None,
            },
            1 => match <CountedArray<PlayerListGamemode> as Wire>::decode(tail(data, n)) {
                Some((p, k)) => {
                    proof {
                        CountedArray::<PlayerListGamemode>::lemma_decoded_bounds(
                            data@.skip(n as int),
                        );
                    }
                    Some((PlayerListAction::UpdateGamemode(p), n + k))
                },
                None => None,
            },
            2 => match <CountedArray<PlayerListLatency> as Wire>::decode(tail(data, n)) {
                Some((p, k)) => {
                    proof {
                        CountedArray::<PlayerListLatency>::lemma_decoded_bounds(
                            data@.skip(n as int),
                        );
                    }
                    Some((PlayerListAction::UpdateLatency(p), n + k))
                },
                None => None,
            },
            3 => match <CountedArray<PlayerListDisplayName> as Wire>::decode(tail(data, n)) {
                Some((p, k)) => {
                    proof {
                        CountedArray::<PlayerListDisplayName>::lemma_decoded_bounds(
                            data@.skip(n as int),
                        );
                    }
                    Some((PlayerListAction::UpdateDisplayName(p), n + k))
                },
                None => None,
            },
            4 => match <CountedArray<UUID> as Wire>::decode(tail(data, n)) {
                Some((p, k)) => {
                    proof {
                        CountedArray::<UUID>::lemma_decoded_bounds(data@.skip(n as int));
                    }
                    Some((PlayerListAction::RemovePlayer(p), n + k))
                },
                None => None,
            },
            _ => None,
        }
    }

    fn encode(&self, out: &mut Vec<u8>) {
        match self {
            PlayerListAction::AddPlayer(p) => {
                VarInt(0).write(out);
                p.encode(out);
            },
            PlayerListAction::UpdateGamemode(p) => {
                VarInt(1).write(out);
                p.encode(out);
            },
            PlayerListAction::UpdateLatency(p) => {
                VarInt(2).write(out);
                p.encode(out);
            },
            PlayerListAction::UpdateDisplayName(p) => {
                VarInt(3).write(out);
                p.encode(out);
            },
            PlayerListAction::RemovePlayer(p) => {
                VarInt(4).write(out);
                p.encode(out);
            },
        }
        assert(out@ =~= old(out)@ + Self::wire(self@));
    }

    fn check(&self) -> (b: bool) {
        match self {
            PlayerListAction::AddPlayer(p) => p.check(),
            PlayerListAction::UpdateGamemode(p) => p.check(),
            PlayerListAction::UpdateLatency(p) => p.check(),
            PlayerListAction::UpdateDisplayName(p) => p.check(),
            PlayerListAction::RemovePlayer(p) => p.check(),
        }
    }

    proof fn lemma_decoded_bounds(s: Seq<u8>) {
        VarInt::lemma_decoded_bounds(s);
        if let Some((tag, n)) = VarInt::decoded(s) {
            CountedArray::<PlayerListAdd>::lemma_decoded_bounds(s.skip(n));
            CountedArray::<PlayerListGamemode>::lemma_decoded_bounds(s.skip(n));
            CountedArray::<PlayerListLatency>::lemma_decoded_bounds(s.skip(n));
            CountedArray::<PlayerListDisplayName>::lemma_decoded_bounds(s.skip(n));
            CountedArray::<UUID>::lemma_decoded_bounds(s.skip(n));
        }
    }

    proof fn lemma_decoded_wire(m: PlayerListActionModel, rest: Seq<u8>) {
        let s = Self::wire(m) + rest;
        match m {
            PlayerListActionModel::AddPlayer(p) => {
                let head = VarInt::wire(VarInt(0));
                let body = CountedArray::<PlayerListAdd>::wire(p);
                lemma_join(head, body, rest);
                assert(s.skip(0) =~= s);
                lemma_field_read::<VarInt>(s, 0, VarInt(0), body + rest);
                lemma_field_read::<CountedArray<PlayerListAdd>>(s, head.len() as int, p, rest);
            },
            PlayerListActionModel::UpdateGamemode(p) => {
                let head = VarInt::wire(VarInt(1));
                let body = CountedArray::<PlayerListGamemode>::wire(p);
                lemma_join(head, body, rest);
                assert(s.skip(0) =~= s);
                lemma_field_read::<VarInt>(s, 0, VarInt(1), body + rest);
                lemma_field_read::<CountedArray<PlayerListGamemode>>(s, head.len() as int, p, rest);
            },
            PlayerListActionModel::UpdateLatency(p) => {
                let head = VarInt::wire(VarInt(2));
                let body = CountedArray::<PlayerListLatency>::wire(p);
                lemma_join(head, body, rest);
                assert(s.skip(0) =~= s);
                lemma_field_read::<VarInt>(s, 0, VarInt(2), body + rest);
                lemma_field_read::<CountedArray<PlayerListLatency>>(s, head.len() as int, p, rest);
            },
            PlayerListActionModel::UpdateDisplayName(p) => {
                let head = VarInt::wire(VarInt(3));
                let body = CountedArray::<PlayerListDisplayName>::wire(p);
                lemma_join(head, body, rest);
                assert(s.skip(0) =~= s);
                lemma_field_read::<VarInt>(s, 0, VarInt(3), body + rest);
                lemma_field_read::<CountedArray<PlayerListDisplayName>>(
                    s,
                    head.len() as int,
                    p,
                    rest,
                );
            },
            PlayerListActionModel::RemovePlayer(p) => {
                let head = VarInt::wire(VarInt(4));
                let body = CountedArray::<UUID>::wire(p);
                lemma_join(head, body, rest);
                assert(s.skip(0) =~= s);
                lemma_field_read::<VarInt>(s, 0, VarInt(4), body + rest);
                lemma_field_read::<CountedArray<UUID>>(s, head.len() as int, p, rest);
            },
        }
    }
}

/// A change of the list of players.
#[derive(Debug, Clone, PartialEq, Eq)]
pub struct PlayerListItem {
    pub action: PlayerListAction,
}

/// What a `PlayerListItem` holds.
pub struct PlayerListItemModel {
    pub action: PlayerListActionModel,
}

impl View for PlayerListItem {
    type V = PlayerListItemModel;

    open spec fn view(&self) -> PlayerListItemModel {
        PlayerListItemModel {
            action: self.action@,
        }
    }
}

impl PlayerListItem {
    /// A packet of the given fields.
    pub fn new(action: PlayerListAction) -> (r: Self)
        ensures
            r == (PlayerListItem { action }),
    {
        PlayerListItem { action }
    }
}

impl Wire for PlayerListItem {
    open spec fn valid(m: PlayerListItemModel) -> bool {
        &&& PlayerListAction::valid(m.action)
    }

    open spec fn wire(m: PlayerListItemModel) -> Seq<u8> {
        PlayerListAction::wire(m.action)
    }

    open spec fn decoded(s: Seq<u8>) -> Option<(PlayerListItemModel, int)> {
        let r0 = PlayerListAction::decoded(s);
        let n0 = taken(r0);
        let f_action = read(r0);
        if r0 is Some {
            Some((PlayerListItemModel { action: f_action }, n0))
        } else {
            None
        }
    }

    fn decode(data: &[u8]) -> (r: Option<(Self, usize)>) {
        let (f_action, k0) = match <PlayerListAction as Wire>::decode(data) {
            Some(x) => x,
            None => {
                return None;
            },
        };
        proof {
            PlayerListAction::lemma_decoded_bounds(data@);
        }
        let n0 = k0;
        Some((PlayerListItem { action: f_action }, n0))
    }

    fn encode(&self, out: &mut Vec<u8>) {
        self.action.encode(out);
        assert(out@ =~= old(out)@ + Self::wire(self@));
    }

    fn check(&self) -> (b: bool) {
        self.action.check()
    }

    proof fn lemma_decoded_bounds(s: Seq<u8>) {
        let r0 = PlayerListAction::decoded(s);
        PlayerListAction::lemma_decoded_bounds(s);
        let n0 = taken(r0);
        let f_action = read(r0);
    }

    proof fn lemma_decoded_wire(m: PlayerListItemModel, rest: Seq<u8>) {
        let s = Self::wire(m) + rest;
        let w0 = PlayerListAction::wire(m.action);
        let p0 = w0;
        let t0 = rest;
        assert(s == p0 + t0);
        assert(s.skip(0) =~= s);
        let a0 = 0int;
        lemma_field_read::<PlayerListAction>(s, a0, m.action, t0);
    }
}

impl ClientboundPacket for PlayerListItem {
    open spec fn listed() -> IDS {
        IDS::PlayerListItem
    }

    open spec fn parsed(s: Seq<u8>) -> Option<PlayerListItemModel> {
        match Self::decoded(s) {
            Some((m, _)) => Some(m),
            None => None,
        }
    }

    fn parse(data: &[u8]) -> (r: Result<Self, String>) {
        match Self::decode(data) {
            Some((p, _)) => Ok(p),
            None => Err(malformed("PlayerListItem")),
        }
    }

    fn id() -> (r: IDS) {
        IDS::PlayerListItem
    }
}

/// The completions that the server offers for what the player has typed.
#[derive(Debug, Clone, PartialEq, Eq)]
pub struct TabCompleteClientbound {
    pub matches: CountedArray<VarString>,
}

/// What a `TabCompleteClientbound` holds.
pub struct TabCompleteClientboundModel {
    pub matches: Seq<Seq<char>>,
}

impl View for TabCompleteClientbound {
    type V = TabCompleteClientboundModel;

    open spec fn view(&self) -> TabCompleteClientboundModel {
        TabCompleteClientboundModel {
            matches: self.matches@,
        }
    }
}

impl TabCompleteClientbound {
    /// A packet of the given fields.
    pub fn new(matches: CountedArray<VarString>) -> (r: Self)
        ensures
            r == (TabCompleteClientbound { matches }),
    {
        TabCompleteClientbound { matches }
    }
}

impl Wire for TabCompleteClientbound {
    open spec fn valid(m: TabCompleteClientboundModel) -> bool {
        &&& CountedArray::<VarString>::valid(m.matches)
    }

    open spec fn wire(m: TabCompleteClientboundModel) -> Seq<u8> {
        CountedArray::<VarString>::wire(m.matches)
    }

    open spec fn decoded(s: Seq<u8>) -> Option<(TabCompleteClientboundModel, int)> {
        let r0 = CountedArray::<VarString>::decoded(s);
        let n0 = taken(r0);
        let f_matches = read(r0);
        if r0 is Some {
            Some((TabCompleteClientboundModel { matches: f_matches }, n0))
        } else {
            None
        }
    }

    fn decode(data: &[u8]) -> (r: Option<(Self, usize)>) {
        let (f_matches, k0) = match <CountedArray<VarString> as Wire>::decode(data) {
            Some(x) => x,
            None => {
                return None;
            },
        };
        proof {
            CountedArray::<VarString>::lemma_decoded_bounds(data@);
        }
        let n0 = k0;
        Some((TabCompleteClientbound { matches: f_matches }, n0))
    }

    fn encode(&self, out: &mut Vec<u8>) {
        self.matches.encode(out);
        assert(out@ =~= old(out)@ + Self::wire(self@));
    }

    fn check(&self) -> (b: bool) {
        self.matches.check()
    }

    proof fn lemma_decoded_bounds(s: Seq<u8>) {
        let r0 = CountedArray::<VarString>::decoded(s);
        CountedArray::<VarString>::lemma_decoded_bounds(s);
        let n0 = taken(r0);
        let f_matches = read(r0);
    }

    proof fn lemma_decoded_wire(m: TabCompleteClientboundModel, rest: Seq<u8>) {
        let s = Self::wire(m) + rest;
        let w0 = CountedArray::<VarString>::wire(m.matches);
        let p0 = w0;
        let t0 = rest;
        assert(s == p0 + t0);
        assert(s.skip(0) =~= s);
        let a0 = 0int;
        lemma_field_read::<CountedArray<VarString>>(s, a0, m.matches, t0);
    }
}

impl ClientboundPacket for TabCompleteClientbound {
    open spec fn listed() -> IDS {
        IDS::TabCompleteClientbound
    }

    open spec fn parsed(s: Seq<u8>) -> Option<TabCompleteClientboundModel> {
        match Self::decoded(s) {
            Some((m, _)) => Some(m),
            None => None,
        }
    }

    fn parse(data: &[u8]) -> (r: Result<Self, String>) {
        match Self::decode(data) {
            Some((p, _)) => Ok(p),
            None => Err(malformed("TabCompleteClientbound")),
        }
    }

    fn id() -> (r: IDS) {
        IDS::TabCompleteClientbound
    }
}

/// How an objective is shown.
#[derive(Debug, Clone, PartialEq, Eq)]
pub struct ObjectiveInfo {
    pub objective_value: VarString,
    pub _type: VarString,
}

/// What a `ObjectiveInfo` holds.
pub struct ObjectiveInfoModel {
    pub objective_value: Seq<char>,
    pub _type: Seq<char>,
}

impl View for ObjectiveInfo {
    type V = ObjectiveInfoModel;

    open spec fn view(&self) -> ObjectiveInfoModel {
        ObjectiveInfoModel {
            objective_value: self.objective_value@,
            _type: self._type@,
        }
    }
}

impl ObjectiveInfo {
    /// A packet of the given fields.
    pub fn new(objective_value: VarString, _type: VarString) -> (r: Self)
        ensures
            r == (ObjectiveInfo { objective_value, _type }),
    {
        ObjectiveInfo { objective_value, _type }
    }
}

impl Wire for ObjectiveInfo {
    open spec fn valid(m: ObjectiveInfoModel) -> bool {
        &&& VarString::valid(m.objective_value)
        &&& VarString::valid(m._type)
    }

    open spec fn wire(m: ObjectiveInfoModel) -> Seq<u8> {
        VarString::wire(m.objective_value)
            + VarString::wire(m._type)
    }

    open spec fn decoded(s: Seq<u8>) -> Option<(ObjectiveInfoModel, int)> {
        let r0 = VarString::decoded(s);
        let n0 = taken(r0);
        let f_objective_value = read(r0);
        let r1 = VarString::decoded(s.skip(n0));
        let n1 = n0 + taken(r1);
        let f__type = read(r1);
        if r0 is Some && r1 is Some {
            Some((ObjectiveInfoModel { objective_value: f_objective_value, _type: f__type }, n1))
        } else {
            None
        }
    }

    fn decode(data: &[u8]) -> (r: Option<(Self, usize)>) {
        let (f_objective_value, k0) = match <VarString as Wire>::decode(data) {
            Some(x) => x,
            None => {
                return None;
            },
        };
        proof {
            VarString::lemma_decoded_bounds(data@);
        }
        let n0 = k0;
        let (f__type, k1) = match <VarString as Wire>::decode(tail(data, n0)) {
            Some(x) => x,
            None => {
                return None;
            },
        };
        proof {
            VarString::lemma_decoded_bounds(data@.skip(n0 as int));
        }
        let n1 = n0 + k1;
        Some((ObjectiveInfo { objective_value: f_objective_value, _type: f__type }, n1))
    }

    fn encode(&self, out: &mut Vec<u8>) {
        self.objective_value.encode(out);
        self._type.encode(out);
        assert(out@ =~= old(out)@ + Self::wire(self@));
    }

    fn check(&self) -> (b: bool) {
        self.objective_value.check()
            && self._type.check()
    }

    proof fn lemma_decoded_bounds(s: Seq<u8>) {
        let r0 = VarString::decoded(s);
        VarString::lemma_decoded_bounds(s);
        let n0 = taken(r0);
        let f_objective_value = read(r0);
        let r1 = VarString::decoded(s.skip(n0));
        VarString::lemma_decoded_bounds(s.skip(n0));
        let n1 = n0 + taken(r1);
        let f__type = read(r1);
    }

    proof fn lemma_decoded_wire(m: ObjectiveInfoModel, rest: Seq<u8>) {
        let s = Self::wire(m) + rest;
        let w0 = VarString::wire(m.objective_value);
        let w1 = VarString::wire(m._type);
        let p0 = w0;
        let p1 = p0 + w1;
        let t1 = rest;
        let t0 = w1 + t1;
        assert(s == p1 + t1);
        lemma_join(p0, w1, t1);
        assert(s.skip(0) =~= s);
        let a0 = 0int;
        lemma_field_read::<VarString>(s, a0, m.objective_value, t0);
        let a1 = a0 + w0.len();
        lemma_field_read::<VarString>(s, a1, m._type, t1);
    }
}

/// What is done to an objective. The number of the mode comes first on the
/// wire, as a `Byte`; a number above two is malformed.
#[derive(Debug, Clone, PartialEq, Eq)]
pub enum ObjectiveMode {
    Create(ObjectiveInfo),
    Remove,
    Update(ObjectiveInfo),
}

/// What a `ObjectiveMode` holds.
pub enum ObjectiveModeModel {
    Create(ObjectiveInfoModel),
    Remove,
    Update(ObjectiveInfoModel),
}

impl View for ObjectiveMode {
    type V = ObjectiveModeModel;

    open spec fn view(&self) -> ObjectiveModeModel {
        match self {
            ObjectiveMode::Create(p) => ObjectiveModeModel::Create(p@),
            ObjectiveMode::Remove => ObjectiveModeModel::Remove,
            ObjectiveMode::Update(p) => ObjectiveModeModel::Update(p@),
        }
    }
}

impl Wire for ObjectiveMode {
    open spec fn valid(m: ObjectiveModeModel) -> bool {
        match m {
            ObjectiveModeModel::Create(p) => ObjectiveInfo::valid(p),
            ObjectiveModeModel::Remove => true,
            ObjectiveModeModel::Update(p) => ObjectiveInfo::valid(p),
        }
    }

    open spec fn wire(m: ObjectiveModeModel) -> Seq<u8> {
        match m {
            ObjectiveModeModel::Create(p) => Byte::wire(Byte(0)) + ObjectiveInfo::wire(p),
            ObjectiveModeModel::Remove => Byte::wire(Byte(1)),
            ObjectiveModeModel::Update(p) => Byte::wire(Byte(2)) + ObjectiveInfo::wire(p),
        }
    }

    open spec fn decoded(s: Seq<u8>) -> Option<(ObjectiveModeModel, int)> {
        match Byte::decoded(s) {
            Some((tag, n)) => match tag.0 {
                0 => match ObjectiveInfo::decoded(s.skip(n)) {
                    Some((p, k)) => Some((ObjectiveModeModel::Create(p), n + k)),
                    None => None,
                },
                1 => Some((ObjectiveModeModel::Remove, n)),
                2 => match ObjectiveInfo::decoded(s.skip(n)) {
                    Some((p, k)) => Some((ObjectiveModeModel::Update(p), n + k)),
                    None => None,
                },
                _ => None,
            },
            None => None,
        }
    }

    fn decode(data: &[u8]) -> (r: Option<(Self, usize)>) {
        let (tag, n) = match Byte::parse(data) {
            Some(x) => x,
            None => {
                return None;
            },
        };
        proof {
            Byte::lemma_decoded_bounds(data@);
        }
        match tag.0 {
            0 => match <ObjectiveInfo as Wire>::decode(tail(data, n)) {
                Some((p, k)) => {
                    proof {
                        ObjectiveInfo::lemma_decoded_bounds(data@.skip(n as int));
                    }
                    Some((ObjectiveMode::Create(p), n + k))
                },
                None => None,
            },
            1 => Some((ObjectiveMode::Remove, n)),
            2 => match <ObjectiveInfo as Wire>::decode(tail(data, n)) {
                Some((p, k)) => {
                    proof {
                        ObjectiveInfo::lemma_decoded_bounds(data@.skip(n as int));
                    }
                    Some((ObjectiveMode::Update(p), n + k))
                },
                None => None,
            },
            _ => None,
        }
    }

    fn encode(&self, out: &mut Vec<u8>) {
        match self {
            ObjectiveMode::Create(p) => {
                Byte(0).write(out);
                p.encode(out);
            },
            ObjectiveMode::Remove => {
                Byte(1).write(out);
            },
            ObjectiveMode::Update(p) => {
                Byte(2).write(out);
                p.encode(out);
            },
        }
        assert(out@ =~= old(out)@ + Self::wire(self@));
    }

    fn check(&self) -> (b: bool) {
        match self {
            ObjectiveMode::Create(p) => p.check(),
            ObjectiveMode::Remove => true,
            ObjectiveMode::Update(p) => p.check(),
        }
    }

    proof fn lemma_decoded_bounds(s: Seq<u8>) {
        Byte::lemma_decoded_bounds(s);
        if let Some((tag, n)) = Byte::decoded(s) {
            ObjectiveInfo::lemma_decoded_bounds(s.skip(n));
            ObjectiveInfo::lemma_decoded_bounds(s.skip(n));
        }
    }

    proof fn lemma_decoded_wire(m: ObjectiveModeModel, rest: Seq<u8>) {
        let s = Self::wire(m) + rest;
        match m {
            ObjectiveModeModel::Create(p) => {
                let head = Byte::wire(Byte(0));
                let body = ObjectiveInfo::wire(p);
                lemma_join(head, body, rest);
                assert(s.skip(0) =~= s);
                lemma_field_read::<Byte>(s, 0, Byte(0), body + rest);
                lemma_field_read::<ObjectiveInfo>(s, head.len() as int, p, rest);
            },
            ObjectiveModeModel::Remove => {
                Byte::lemma_decoded_wire(Byte(1), rest);
            },
            ObjectiveModeModel::Update(p) => {
                let head = Byte::wire(Byte(2));
                let body = ObjectiveInfo::wire(p);
                lemma_join(head, body, rest);
                assert(s.skip(0) =~= s);
                lemma_field_read::<Byte>(s, 0, Byte(2), body + rest);
                lemma_field_read::<ObjectiveInfo>(s, head.len() as int, p, rest);
            },
        }
    }
}

/// An objective of the scoreboard is made, removed or changed.
#[derive(Debug, Clone, PartialEq, Eq)]
pub struct ScoreboardObjective {
    pub objective_name: VarString,
    pub mode: ObjectiveMode,
}

/// What a `ScoreboardObjective` holds.
pub struct ScoreboardObjectiveModel {
    pub objective_name: Seq<char>,
    pub mode: ObjectiveModeModel,
}

impl View for ScoreboardObjective {
    type V = ScoreboardObjectiveModel;

    open spec fn view(&self) -> ScoreboardObjectiveModel {
        ScoreboardObjectiveModel {
            objective_name: self.objective_name@,
            mode: self.mode@,
        }
    }
}

impl ScoreboardObjective {
    /// A packet of the given fields.
    pub fn new(objective_name: VarString, mode: ObjectiveMode) -> (r: Self)
        ensures
            r == (ScoreboardObjective { objective_name, mode }),
    {
        ScoreboardObjective { objective_name, mode }
    }
}

impl Wire for ScoreboardObjective {
    open spec fn valid(m: ScoreboardObjectiveModel) -> bool {
        &&& VarString::valid(m.objective_name)
        &&& ObjectiveMode::valid(m.mode)
    }

    open spec fn wire(m: ScoreboardObjectiveModel) -> Seq<u8> {
        VarString::wire(m.objective_name)
            + ObjectiveMode::wire(m.mode)
    }

    open spec fn decoded(s: Seq<u8>) -> Option<(ScoreboardObjectiveModel, int)> {
        let r0 = VarString::decoded(s);
        let n0 = taken(r0);
        let f_objective_name = read(r0);
        let r1 = ObjectiveMode::decoded(s.skip(n0));
        let n1 = n0 + taken(r1);
        let f_mode = read(r1);
        if r0 is Some && r1 is Some {
            Some((ScoreboardObjectiveModel { objective_name: f_objective_name, mode: f_mode }, n1))
        } else {
            None
        }
    }

    fn decode(data: &[u8]) -> (r: Option<(Self, usize)>) {
        let (f_objective_name, k0) = match <VarString as Wire>::decode(data) {
            Some(x) => x,
            None => {
                return None;
            },
        };
        proof {
            VarString::lemma_decoded_bounds(data@);
        }
        let n0 = k0;
        let (f_mode, k1) = match <ObjectiveMode as Wire>::decode(tail(data, n0)) {
            Some(x) => x,
            None => {
                return None;
            },
        };
        proof {
            ObjectiveMode::lemma_decoded_bounds(data@.skip(n0 as int));
        }
        let n1 = n0 + k1;
        Some((ScoreboardObjective { objective_name: f_objective_name, mode: f_mode }, n1))
    }

    fn encode(&self, out: &mut Vec<u8>) {
        self.objective_name.encode(out);
        self.mode.encode(out);
        assert(out@ =~= old(out)@ + Self::wire(self@));
    }

    fn check(&self) -> (b: bool) {
        self.objective_name.check()
            && self.mode.check()
    }

    proof fn lemma_decoded_bounds(s: Seq<u8>) {
        let r0 = VarString::decoded(s);
        VarString::lemma_decoded_bounds(s);
        let n0 = taken(r0);
        let f_objective_name = read(r0);
        let r1 = ObjectiveMode::decoded(s.skip(n0));
        ObjectiveMode::lemma_decoded_bounds(s.skip(n0));
        let n1 = n0 + taken(r1);
        let f_mode = read(r1);
    }

    proof fn lemma_decoded_wire(m: ScoreboardObjectiveModel, rest: Seq<u8>) {
        let s = Self::wire(m) + rest;
        let w0 = VarString::wire(m.objective_name);
        let w1 = ObjectiveMode::wire(m.mode);
        let p0 = w0;
        let p1 = p0 + w1;
        let t1 = rest;
        let t0 = w1 + t1;
        assert(s == p1 + t1);
        lemma_join(p0, w1, t1);
        assert(s.skip(0) =~= s);
        let a0 = 0int;
        lemma_field_read::<VarString>(s, a0, m.objective_name, t0);
        let a1 = a0 + w0.len();
        lemma_field_read::<ObjectiveMode>(s, a1, m.mode, t1);
    }
}

impl ClientboundPacket for ScoreboardObjective {
    open spec fn listed() -> IDS {
        IDS::ScoreboardObjective
    }

    open spec fn parsed(s: Seq<u8>) -> Option<ScoreboardObjectiveModel> {
        match Self::decoded(s) {
            Some((m, _)) => Some(m),
            None => None,
        }
    }

    fn parse(data: &[u8]) -> (r: Result<Self, String>) {
        match Self::decode(data) {
            Some((p, _)) => Ok(p),
            None => Err(malformed("ScoreboardObjective")),
        }
    }

    fn id() -> (r: IDS) {
        IDS::ScoreboardObjective
    }
}

/// A score is set or removed. The value is there exactly when the action is not
/// the removal (1).
#[derive(Debug, Clone, PartialEq, Eq)]
pub struct UpdateScore {
    pub score_name: VarString,
    pub action: Byte,
    pub objective_name: VarString,
    pub value: Option<VarInt>,
}

/// What a `UpdateScore` holds.
pub struct UpdateScoreModel {
    pub score_name: Seq<char>,
    pub action: Byte,
    pub objective_name: Seq<char>,
    pub value: Option<VarInt>,
}

impl View for UpdateScore {
    type V = UpdateScoreModel;

    open spec fn view(&self) -> UpdateScoreModel {
        UpdateScoreModel {
            score_name: self.score_name@,
            action: self.action@,
            objective_name: self.objective_name@,
            value: match self.value {
                Some(v) => Some(v@),
                None => None,
            },
        }
    }
}

impl UpdateScore {
    /// A packet of the given fields.
    pub fn new(
        score_name: VarString,
        action: Byte,
        objective_name: VarString,
        value: Option<VarInt>,
    ) -> (r: Self)
        ensures
            r == (UpdateScore { score_name, action, objective_name, value }),
    {
        UpdateScore { score_name, action, objective_name, value }
    }
}

impl Wire for UpdateScore {
    open spec fn valid(m: UpdateScoreModel) -> bool {
        &&& VarString::valid(m.score_name)
        &&& Byte::valid(m.action)
        &&& VarString::valid(m.objective_name)
        &&& (m.action.0 != 1) == (m.value is Some)
        &&& m.value matches Some(v) ==> VarInt::valid(v)
    }

    open spec fn wire(m: UpdateScoreModel) -> Seq<u8> {
        VarString::wire(m.score_name)
            + Byte::wire(m.action)
            + VarString::wire(m.objective_name)
            + only_if(m.value is Some, VarInt::wire(m.value.unwrap()))
    }

    open spec fn decoded(s: Seq<u8>) -> Option<(UpdateScoreModel, int)> {
        let r0 = VarString::decoded(s);
        let n0 = taken(r0);
        let f_score_name = read(r0);
        let r1 = Byte::decoded(s.skip(n0));
        let n1 = n0 + taken(r1);
        let f_action = read(r1);
        let r2 = VarString::decoded(s.skip(n1));
        let n2 = n1 + taken(r2);
        let f_objective_name = read(r2);
        let r3 = if f_action.0 != 1 {
            present(VarInt::decoded(s.skip(n2)))
        } else {
            Some((None, 0))
        };
        let n3 = n2 + taken(r3);
        let f_value = read(r3);
        if r0 is Some && r1 is Some && r2 is Some && r3 is Some {
            Some(
                (
                    UpdateScoreModel {
                        score_name: f_score_name,
                        action: f_action,
                        objective_name: f_objective_name,
                        value: f_value,
                    },
                    n3,
                ),
            )
        } else {
            None
        }
    }

    fn decode(data: &[u8]) -> (r: Option<(Self, usize)>) {
        let (f_score_name, k0) = match <VarString as Wire>::decode(data) {
            Some(x) => x,
            None => {
                return None;
            },
        };
        proof {
            VarString::lemma_decoded_bounds(data@);
        }
        let n0 = k0;
        let (f_action, k1) = match <Byte as Wire>::decode(tail(data, n0)) {
            Some(x) => x,
            None => {
                return None;
            },
        };
        proof {
            Byte::lemma_decoded_bounds(data@.skip(n0 as int));
        }
        let n1 = n0 + k1;
        let (f_objective_name, k2) = match <VarString as Wire>::decode(tail(data, n1)) {
            Some(x) => x,
            None => {
                return None;
            },
        };
        proof {
            VarString::lemma_decoded_bounds(data@.skip(n1 as int));
        }
        let n2 = n1 + k2;
        let (f_value, k3) = if f_action.0 != 1 {
            match <VarInt as Wire>::decode(tail(data, n2)) {
                Some((v, k)) => (Some(v), k),
                None => {
                    return None;
                },
            }
        } else {
            (None, 0)
        };
        proof {
            VarInt::lemma_decoded_bounds(data@.skip(n2 as int));
        }
        let n3 = n2 + k3;
        Some(
            (
                UpdateScore {
                    score_name: f_score_name,
                    action: f_action,
                    objective_name: f_objective_name,
                    value: f_value,
                },
                n3,
            ),
        )
    }

    fn encode(&self, out: &mut Vec<u8>) {
        self.score_name.encode(out);
        self.action.encode(out);
        self.objective_name.encode(out);
        match &self.value {
            Some(v) => {
                v.encode(out);
            },
            None => {},
        }
        assert(out@ =~= old(out)@ + Self::wire(self@));
    }

    fn check(&self) -> (b: bool) {
        self.score_name.check()
            && self.action.check()
            && self.objective_name.check()
            && ((self.action.0 != 1) == self.value.is_some())
            && (match &self.value {
            Some(v) => v.check(),
            None => true,
        })
    }

    proof fn lemma_decoded_bounds(s: Seq<u8>) {
        let r0 = VarString::decoded(s);
        VarString::lemma_decoded_bounds(s);
        let n0 = taken(r0);
        let f_score_name = read(r0);
        let r1 = Byte::decoded(s.skip(n0));
        Byte::lemma_decoded_bounds(s.skip(n0));
        let n1 = n0 + taken(r1);
        let f_action = read(r1);
        let r2 = VarString::decoded(s.skip(n1));
        VarString::lemma_decoded_bounds(s.skip(n1));
        let n2 = n1 + taken(r2);
        let f_objective_name = read(r2);
        let r3 = if f_action.0 != 1 {
            present(VarInt::decoded(s.skip(n2)))
        } else {
            Some((None, 0))
        };
        VarInt::lemma_decoded_bounds(s.skip(n2));
        let n3 = n2 + taken(r3);
        let f_value = read(r3);
    }

    proof fn lemma_decoded_wire(m: UpdateScoreModel, rest: Seq<u8>) {
        let s = Self::wire(m) + rest;
        let w0 = VarString::wire(m.score_name);
        let w1 = Byte::wire(m.action);
        let w2 = VarString::wire(m.objective_name);
        let w3 = only_if(m.value is Some, VarInt::wire(m.value.unwrap()));
        let p0 = w0;
        let p1 = p0 + w1;
        let p2 = p1 + w2;
        let p3 = p2 + w3;
        let t3 = rest;
        let t2 = w3 + t3;
        let t1 = w2 + t2;
        let t0 = w1 + t1;
        assert(s == p3 + t3);
        lemma_join(p2, w3, t3);
        lemma_join(p1, w2, t2);
        lemma_join(p0, w1, t1);
        assert(s.skip(0) =~= s);
        let a0 = 0int;
        lemma_field_read::<VarString>(s, a0, m.score_name, t0);
        let a1 = a0 + w0.len();
        lemma_field_read::<Byte>(s, a1, m.action, t1);
        let a2 = a1 + w1.len();
        lemma_field_read::<VarString>(s, a2, m.objective_name, t2);
        let a3 = a2 + w2.len();
        match m.value {
            Some(v) => {
                lemma_field_read::<VarInt>(s, a3, v, t3);
            },
            None => {
                assert(w3 + t3 =~= t3);
            },
        }
    }
}

impl ClientboundPacket for UpdateScore {
    open spec fn listed() -> IDS {
        IDS::UpdateScore
    }

    open spec fn parsed(s: Seq<u8>) -> Option<UpdateScoreModel> {
        match Self::decoded(s) {
            Some((m, _)) => Some(m),
            None => None,
        }
    }

    fn parse(data: &[u8]) -> (r: Result<Self, String>) {
        match Self::decode(data) {
            Some((p, _)) => Ok(p),
            None => Err(malformed("UpdateScore")),
        }
    }

    fn id() -> (r: IDS) {
        IDS::UpdateScore
    }
}

/// Where a scoreboard is shown.
#[derive(Debug, Clone, PartialEq, Eq)]
pub struct DisplayScoreboard {
    pub position: Byte,
    pub score_name: VarString,
}

/// What a `DisplayScoreboard` holds.
pub struct DisplayScoreboardModel {
    pub position: Byte,
    pub score_name: Seq<char>,
}

impl View for DisplayScoreboard {
    type V = DisplayScoreboardModel;

    open spec fn view(&self) -> DisplayScoreboardModel {
        DisplayScoreboardModel {
            position: self.position@,
            score_name: self.score_name@,
        }
    }
}

impl DisplayScoreboard {
    /// A packet of the given fields.
    pub fn new(position: Byte, score_name: VarString) -> (r: Self)
        ensures
            r == (DisplayScoreboard { position, score_name }),
    {
        DisplayScoreboard { position, score_name }
    }
}

impl Wire for DisplayScoreboard {
    open spec fn valid(m: DisplayScoreboardModel) -> bool {
        &&& Byte::valid(m.position)
        &&& VarString::valid(m.score_name)
    }

    open spec fn wire(m: DisplayScoreboardModel) -> Seq<u8> {
        Byte::wire(m.position)
            + VarString::wire(m.score_name)
    }

    open spec fn decoded(s: Seq<u8>) -> Option<(DisplayScoreboardModel, int)> {
        let r0 = Byte::decoded(s);
        let n0 = taken(r0);
        let f_position = read(r0);
        let r1 = VarString::decoded(s.skip(n0));
        let n1 = n0 + taken(r1);
        let f_score_name = read(r1);
        if r0 is Some && r1 is Some {
            Some((DisplayScoreboardModel { position: f_position, score_name: f_score_name }, n1))
        } else {
            None
        }
    }

    fn decode(data: &[u8]) -> (r: Option<(Self, usize)>) {
        let (f_position, k0) = match <Byte as Wire>::decode(data) {
            Some(x) => x,
            None => {
                return None;
            },
        };
        proof {
            Byte::lemma_decoded_bounds(data@);
        }
        let n0 = k0;
        let (f_score_name, k1) = match <VarString as Wire>::decode(tail(data, n0)) {
            Some(x) => x,
            None => {
                return None;
            },
        };
        proof {
            VarString::lemma_decoded_bounds(data@.skip(n0 as int));
        }
        let n1 = n0 + k1;
        Some((DisplayScoreboard { position: f_position, score_name: f_score_name }, n1))
    }

    fn encode(&self, out: &mut Vec<u8>) {
        self.position.encode(out);
        self.score_name.encode(out);
        assert(out@ =~= old(out)@ + Self::wire(self@));
    }

    fn check(&self) -> (b: bool) {
        self.position.check()
            && self.score_name.check()
    }

    proof fn lemma_decoded_bounds(s: Seq<u8>) {
        let r0 = Byte::decoded(s);
        Byte::lemma_decoded_bounds(s);
        let n0 = taken(r0);
        let f_position = read(r0);
        let r1 = VarString::decoded(s.skip(n0));
        VarString::lemma_decoded_bounds(s.skip(n0));
        let n1 = n0 + taken(r1);
        let f_score_name = read(r1);
    }

    proof fn lemma_decoded_wire(m: DisplayScoreboardModel, rest: Seq<u8>) {
        let s = Self::wire(m) + rest;
        let w0 = Byte::wire(m.position);
        let w1 = VarString::wire(m.score_name);
        let p0 = w0;
        let p1 = p0 + w1;
        let t1 = rest;
        let t0 = w1 + t1;
        assert(s == p1 + t1);
        lemma_join(p0, w1, t1);
        assert(s.skip(0) =~= s);
        let a0 = 0int;
        lemma_field_read::<Byte>(s, a0, m.position, t0);
        let a1 = a0 + w0.len();
        lemma_field_read::<VarString>(s, a1, m.score_name, t1);
    }
}

impl ClientboundPacket for DisplayScoreboard {
    open spec fn listed() -> IDS {
        IDS::DisplayScoreboard
    }

    open spec fn parsed(s: Seq<u8>) -> Option<DisplayScoreboardModel> {
        match Self::decoded(s) {
            Some((m, _)) => Some(m),
            None => None,
        }
    }

    fn parse(data: &[u8]) -> (r: Result<Self, String>) {
        match Self::decode(data) {
            Some((p, _)) => Ok(p),
            None => Err(malformed("DisplayScoreboard")),
        }
    }

    fn id() -> (r: IDS) {
        IDS::DisplayScoreboard
    }
}

/// How a team is shown and what its members may do.
#[derive(Debug, Clone, PartialEq, Eq)]
pub struct TeamInfo {
    pub team_display_name: VarString,
    pub team_prefix: VarString,
    pub team_suffix: VarString,
    pub friendly_fire: Byte,
    pub name_tag_visibility: VarString,
    pub color: Byte,
}

/// What a `TeamInfo` holds.
pub struct TeamInfoModel {
    pub team_display_name: Seq<char>,
    pub team_prefix: Seq<char>,
    pub team_suffix: Seq<char>,
    pub friendly_fire: Byte,
    pub name_tag_visibility: Seq<char>,
    pub color: Byte,
}

impl View for TeamInfo {
    type V = TeamInfoModel;

    open spec fn view(&self) -> TeamInfoModel {
        TeamInfoModel {
            team_display_name: self.team_display_name@,
            team_prefix: self.team_prefix@,
            team_suffix: self.team_suffix@,
            friendly_fire: self.friendly_fire@,
            name_tag_visibility: self.name_tag_visibility@,
            color: self.color@,
        }
    }
}

impl TeamInfo {
    /// A packet of the given fields.
    pub fn new(
        team_display_name: VarString,
        team_prefix: VarString,
        team_suffix: VarString,
        friendly_fire: Byte,
        name_tag_visibility: VarString,
        color: Byte,
    ) -> (r: Self)
        ensures
            r == (TeamInfo {
                team_display_name,
                team_prefix,
                team_suffix,
                friendly_fire,
                name_tag_visibility,
                color,
            }),
    {
        TeamInfo {
            team_display_name,
            team_prefix,
            team_suffix,
            friendly_fire,
            name_tag_visibility,
            color,
        }
    }
}

impl Wire for TeamInfo {
    open spec fn valid(m: TeamInfoModel) -> bool {
        &&& VarString::valid(m.team_display_name)
        &&& VarString::valid(m.team_prefix)
        &&& VarString::valid(m.team_suffix)
        &&& Byte::valid(m.friendly_fire)
        &&& VarString::valid(m.name_tag_visibility)
        &&& Byte::valid(m.color)
    }

    open spec fn wire(m: TeamInfoModel) -> Seq<u8> {
        VarString::wire(m.team_display_name)
            + VarString::wire(m.team_prefix)
            + VarString::wire(m.team_suffix)
            + Byte::wire(m.friendly_fire)
            + VarString::wire(m.name_tag_visibility)
            + Byte::wire(m.color)
    }

    open spec fn decoded(s: Seq<u8>) -> Option<(TeamInfoModel, int)> {
        let r0 = VarString::decoded(s);
        let n0 = taken(r0);
        let f_team_display_name = read(r0);
        let r1 = VarString::decoded(s.skip(n0));
        let n1 = n0 + taken(r1);
        let f_team_prefix = read(r1);
        let r2 = VarString::decoded(s.skip(n1));
        let n2 = n1 + taken(r2);
        let f_team_suffix = read(r2);
        let r3 = Byte::decoded(s.skip(n2));
        let n3 = n2 + taken(r3);
        let f_friendly_fire = read(r3);
        let r4 = VarString::decoded(s.skip(n3));
        let n4 = n3 + taken(r4);
        let f_name_tag_visibility = read(r4);
        let r5 = Byte::decoded(s.skip(n4));
        let n5 = n4 + taken(r5);
        let f_color = read(r5);
        if r0 is Some && r1 is Some && r2 is Some && r3 is Some && r4 is Some && r5 is Some {
            Some(
                (
                    TeamInfoModel {
                        team_display_name: f_team_display_name,
                        team_prefix: f_team_prefix,
                        team_suffix: f_team_suffix,
                        friendly_fire: f_friendly_fire,
                        name_tag_visibility: f_name_tag_visibility,
                        color: f_color,
                    },
                    n5,
                ),
            )
        } else {
            None
        }
    }

    fn decode(data: &[u8]) -> (r: Option<(Self, usize)>) {
        let (f_team_display_name, k0) = match <VarString as Wire>::decode(data) {
            Some(x) => x,
            None => {
                return None;
            },
        };
        proof {
            VarString::lemma_decoded_bounds(data@);
        }
        let n0 = k0;
        let (f_team_prefix, k1) = match <VarString as Wire>::decode(tail(data, n0)) {
            Some(x) => x,
            None => {
                return None;
            },
        };
        proof {
            VarString::lemma_decoded_bounds(data@.skip(n0 as int));
        }
        let n1 = n0 + k1;
        let (f_team_suffix, k2) = match <VarString as Wire>::decode(tail(data, n1)) {
            Some(x) => x,
            None => {
                return None;
            },
        };
        proof {
            VarString::lemma_decoded_bounds(data@.skip(n1 as int));
        }
        let n2 = n1 + k2;
        let (f_friendly_fire, k3) = match <Byte as Wire>::decode(tail(data, n2)) {
            Some(x) => x,
            None => {
                return None;
            },
        };
        proof {
            Byte::lemma_decoded_bounds(data@.skip(n2 as int));
        }
        let n3 = n2 + k3;
        let (f_name_tag_visibility, k4) = match <VarString as Wire>::decode(tail(data, n3)) {
            Some(x) => x,
            None => {
                return None;
            },
        };
        proof {
            VarString::lemma_decoded_bounds(data@.skip(n3 as int));
        }
        let n4 = n3 + k4;
        let (f_color, k5) = match <Byte as Wire>::decode(tail(data, n4)) {
            Some(x) => x,
            None => {
                return None;
            },
        };
        proof {
            Byte::lemma_decoded_bounds(data@.skip(n4 as int));
        }
        let n5 = n4 + k5;
        Some(
            (
                TeamInfo {
                    team_display_name: f_team_display_name,
                    team_prefix: f_team_prefix,
                    team_suffix: f_team_suffix,
                    friendly_fire: f_friendly_fire,
                    name_tag_visibility: f_name_tag_visibility,
                    color: f_color,
                },
                n5,
            ),
        )
    }

    fn encode(&self, out: &mut Vec<u8>) {
        self.team_display_name.encode(out);
        self.team_prefix.encode(out);
        self.team_suffix.encode(out);
        self.friendly_fire.encode(out);
        self.name_tag_visibility.encode(out);
        self.color.encode(out);
        assert(out@ =~= old(out)@ + Self::wire(self@));
    }

    fn check(&self) -> (b: bool) {
        self.team_display_name.check()
            && self.team_prefix.check()
            && self.team_suffix.check()
            && self.friendly_fire.check()
            && self.name_tag_visibility.check()
            && self.color.check()
    }

    proof fn lemma_decoded_bounds(s: Seq<u8>) {
        let r0 = VarString::decoded(s);
        VarString::lemma_decoded_bounds(s);
        let n0 = taken(r0);
        let f_team_display_name = read(r0);
        let r1 = VarString::decoded(s.skip(n0));
        VarString::lemma_decoded_bounds(s.skip(n0));
        let n1 = n0 + taken(r1);
        let f_team_prefix = read(r1);
        let r2 = VarString::decoded(s.skip(n1));
        VarString::lemma_decoded_bounds(s.skip(n1));
        let n2 = n1 + taken(r2);
        let f_team_suffix = read(r2);
        let r3 = Byte::decoded(s.skip(n2));
        Byte::lemma_decoded_bounds(s.skip(n2));
        let n3 = n2 + taken(r3);
        let f_friendly_fire = read(r3);
        let r4 = VarString::decoded(s.skip(n3));
        VarString::lemma_decoded_bounds(s.skip(n3));
        let n4 = n3 + taken(r4);
        let f_name_tag_visibility = read(r4);
        let r5 = Byte::decoded(s.skip(n4));
        Byte::lemma_decoded_bounds(s.skip(n4));
        let n5 = n4 + taken(r5);
        let f_color = read(r5);
    }

    proof fn lemma_decoded_wire(m: TeamInfoModel, rest: Seq<u8>) {
        let s = Self::wire(m) + rest;
        let w0 = VarString::wire(m.team_display_name);
        let w1 = VarString::wire(m.team_prefix);
        let w2 = VarString::wire(m.team_suffix);
        let w3 = Byte::wire(m.friendly_fire);
        let w4 = VarString::wire(m.name_tag_visibility);
        let w5 = Byte::wire(m.color);
        let p0 = w0;
        let p1 = p0 + w1;
        let p2 = p1 + w2;
        let p3 = p2 + w3;
        let p4 = p3 + w4;
        let p5 = p4 + w5;
        let t5 = rest;
        let t4 = w5 + t5;
        let t3 = w4 + t4;
        let t2 = w3 + t3;
        let t1 = w2 + t2;
        let t0 = w1 + t1;
        assert(s == p5 + t5);
        lemma_join(p4, w5, t5);
        lemma_join(p3, w4, t4);
        lemma_join(p2, w3, t3);
        lemma_join(p1, w2, t2);
        lemma_join(p0, w1, t1);
        assert(s.skip(0) =~= s);
        let a0 = 0int;
        lemma_field_read::<VarString>(s, a0, m.team_display_name, t0);
        let a1 = a0 + w0.len();
        lemma_field_read::<VarString>(s, a1, m.team_prefix, t1);
        let a2 = a1 + w1.len();
        lemma_field_read::<VarString>(s, a2, m.team_suffix, t2);
        let a3 = a2 + w2.len();
        lemma_field_read::<Byte>(s, a3, m.friendly_fire, t3);
        let a4 = a3 + w3.len();
        lemma_field_read::<VarString>(s, a4, m.name_tag_visibility, t4);
        let a5 = a4 + w4.len();
        lemma_field_read::<Byte>(s, a5, m.color, t5);
    }
}

/// A new team and its first members.
#[derive(Debug, Clone, PartialEq, Eq)]
pub struct TeamCreation {
    pub info: TeamInfo,
    pub players: CountedArray<VarString>,
}

/// What a `TeamCreation` holds.
pub struct TeamCreationModel {
    pub info: TeamInfoModel,
    pub players: Seq<Seq<char>>,
}

impl View for TeamCreation {
    type V = TeamCreationModel;

    open spec fn view(&self) -> TeamCreationModel {
        TeamCreationModel {
            info: self.info@,
            players: self.players@,
        }
    }
}

impl TeamCreation {
    /// A packet of the given fields.
    pub fn new(info: TeamInfo, players: CountedArray<VarString>) -> (r: Self)
        ensures
            r == (TeamCreation { info, players }),
    {
        TeamCreation { info, players }
    }
}

impl Wire for TeamCreation {
    open spec fn valid(m: TeamCreationModel) -> bool {
        &&& TeamInfo::valid(m.info)
        &&& CountedArray::<VarString>::valid(m.players)
    }

    open spec fn wire(m: TeamCreationModel) -> Seq<u8> {
        TeamInfo::wire(m.info)
            + CountedArray::<VarString>::wire(m.players)
    }

    open spec fn decoded(s: Seq<u8>) -> Option<(TeamCreationModel, int)> {
        let r0 = TeamInfo::decoded(s);
        let n0 = taken(r0);
        let f_info = read(r0);
        let r1 = CountedArray::<VarString>::decoded(s.skip(n0));
        let n1 = n0 + taken(r1);
        let f_players = read(r1);
        if r0 is Some && r1 is Some {
            Some((TeamCreationModel { info: f_info, players: f_players }, n1))
        } else {
            None
        }
    }

    fn decode(data: &[u8]) -> (r: Option<(Self, usize)>) {
        let (f_info, k0) = match <TeamInfo as Wire>::decode(data) {
            Some(x) => x,
            None => {
                return None;
            },
        };
        proof {
            TeamInfo::lemma_decoded_bounds(data@);
        }
        let n0 = k0;
        let (f_players, k1) = match <CountedArray<VarString> as Wire>::decode(tail(data, n0)) {
            Some(x) => x,
            None => {
                return None;
            },
        };
        proof {
            CountedArray::<VarString>::lemma_decoded_bounds(data@.skip(n0 as int));
        }
        let n1 = n0 + k1;
        Some((TeamCreation { info: f_info, players: f_players }, n1))
    }

    fn encode(&self, out: &mut Vec<u8>) {
        self.info.encode(out);
        self.players.encode(out);
        assert(out@ =~= old(out)@ + Self::wire(self@));
    }

    fn check(&self) -> (b: bool) {
        self.info.check()
            && self.players.check()
    }

    proof fn lemma_decoded_bounds(s: Seq<u8>) {
        let r0 = TeamInfo::decoded(s);
        TeamInfo::lemma_decoded_bounds(s);
        let n0 = taken(r0);
        let f_info = read(r0);
        let r1 = CountedArray::<VarString>::decoded(s.skip(n0));
        CountedArray::<VarString>::lemma_decoded_bounds(s.skip(n0));
        let n1 = n0 + taken(r1);
        let f_players = read(r1);
    }

    proof fn lemma_decoded_wire(m: TeamCreationModel, rest: Seq<u8>) {
        let s = Self::wire(m) + rest;
        let w0 = TeamInfo::wire(m.info);
        let w1 = CountedArray::<VarString>::wire(m.players);
        let p0 = w0;
        let p1 = p0 + w1;
        let t1 = rest;
        let t0 = w1 + t1;
        assert(s == p1 + t1);
        lemma_join(p0, w1, t1);
        assert(s.skip(0) =~= s);
        let a0 = 0int;
        lemma_field_read::<TeamInfo>(s, a0, m.info, t0);
        let a1 = a0 + w0.len();
        lemma_field_read::<CountedArray<VarString>>(s, a1, m.players, t1);
    }
}

/// What is done to a team. The number of the mode comes first on the wire, as a
/// `Byte`; a number above four is malformed.
#[derive(Debug, Clone, PartialEq, Eq)]
pub enum TeamsMode {
    Create(TeamCreation),
    Remove,
    Update(TeamInfo),
    AddPlayers(CountedArray<VarString>),
    RemovePlayers(CountedArray<VarString>),
}

/// What a `TeamsMode` holds.
pub enum TeamsModeModel {
    Create(TeamCreationModel),
    Remove,
    Update(TeamInfoModel),
    AddPlayers(Seq<Seq<char>>),
    RemovePlayers(Seq<Seq<char>>),
}

impl View for TeamsMode {
    type V = TeamsModeModel;

    open spec fn view(&self) -> TeamsModeModel {
        match self {
            TeamsMode::Create(p) => TeamsModeModel::Create(p@),
            TeamsMode::Remove => TeamsModeModel::Remove,
            TeamsMode::Update(p) => TeamsModeModel::Update(p@),
            TeamsMode::AddPlayers(p) => TeamsModeModel::AddPlayers(p@),
            TeamsMode::RemovePlayers(p) => TeamsModeModel::RemovePlayers(p@),
        }
    }
}

impl Wire for TeamsMode {
    open spec fn valid(m: TeamsModeModel) -> bool {
        match m {
            TeamsModeModel::Create(p) => TeamCreation::valid(p),
            TeamsModeModel::Remove => true,
            TeamsModeModel::Update(p) => TeamInfo::valid(p),
            TeamsModeModel::AddPlayers(p) => CountedArray::<VarString>::valid(p),
            TeamsModeModel::RemovePlayers(p) => CountedArray::<VarString>::valid(p),
        }
    }

    open spec fn wire(m: TeamsModeModel) -> Seq<u8> {
        match m {
            TeamsModeModel::Create(p) => Byte::wire(Byte(0)) + TeamCreation::wire(p),
            TeamsModeModel::Remove => Byte::wire(Byte(1)),
            TeamsModeModel::Update(p) => Byte::wire(Byte(2)) + TeamInfo::wire(p),
            TeamsModeModel::AddPlayers(p) => {
                Byte::wire(Byte(3)) + CountedArray::<VarString>::wire(p)
            },
            TeamsModeModel::RemovePlayers(p) => {
                Byte::wire(Byte(4)) + CountedArray::<VarString>::wire(p)
            },
        }
    }

    open spec fn decoded(s: Seq<u8>) -> Option<(TeamsModeModel, int)> {
        match Byte::decoded(s) {
            Some((tag, n)) => match tag.0 {
                0 => match TeamCreation::decoded(s.skip(n)) {
                    Some((p, k)) => Some((TeamsModeModel::Create(p), n + k)),
                    None => None,
                },
                1 => Some((TeamsModeModel::Remove, n)),
                2 => match TeamInfo::decoded(s.skip(n)) {
                    Some((p, k)) => Some((TeamsModeModel::Update(p), n + k)),
                    None => None,
                },
                3 => match CountedArray::<VarString>::decoded(s.skip(n)) {
                    Some((p, k)) => Some((TeamsModeModel::AddPlayers(p), n + k)),
                    None => None,
                },
                4 => match CountedArray::<VarString>::decoded(s.skip(n)) {
                    Some((p, k)) => Some((TeamsModeModel::RemovePlayers(p), n + k)),
                    None => None,
                },
                _ => None,
            },
            None => None,
        }
    }

    fn decode(data: &[u8]) -> (r: Option<(Self, usize)>) {
        let (tag, n) = match Byte::parse(data) {
            Some(x) => x,
            None => {
                return None;
            },
        };
        proof {
            Byte::lemma_decoded_bounds(data@);
        }
        match tag.0 {
            0 => match <TeamCreation as Wire>::decode(tail(data, n)) {
                Some((p, k)) => {
                    proof {
                        TeamCreation::lemma_decoded_bounds(data@.skip(n as int));
                    }
                    Some((TeamsMode::Create(p), n + k))
                },
                None => None,
            },
            1 => Some((TeamsMode::Remove, n)),
            2 => match <TeamInfo as Wire>::decode(tail(data, n)) {
                Some((p, k)) => {
                    proof {
                        TeamInfo::lemma_decoded_bounds(data@.skip(n as int));
                    }
                    Some((TeamsMode::Update(p), n + k))
                },
                None => None,
            },
            3 => match <CountedArray<VarString> as Wire>::decode(tail(data, n)) {
                Some((p, k)) => {
                    proof {
                        CountedArray::<VarString>::lemma_decoded_bounds(data@.skip(n as int));
                    }
                    Some((TeamsMode::AddPlayers(p), n + k))
                },
                None => None,
            },
            4 => match <CountedArray<VarString> as Wire>::decode(tail(data, n)) {
                Some((p, k)) => {
                    proof {
                        CountedArray::<VarString>::lemma_decoded_bounds(data@.skip(n as int));
                    }
                    Some((TeamsMode::RemovePlayers(p), n + k))
                },
                None => None,
            },
            _ => None,
        }
    }

    fn encode(&self, out: &mut Vec<u8>) {
        match self {
            TeamsMode::Create(p) => {
                Byte(0).write(out);
                p.encode(out);
            },
            TeamsMode::Remove => {
                Byte(1).write(out);
            },
            TeamsMode::Update(p) => {
                Byte(2).write(out);
                p.encode(out);
            },
            TeamsMode::AddPlayers(p) => {
                Byte(3).write(out);
                p.encode(out);
            },
            TeamsMode::RemovePlayers(p) => {
                Byte(4).write(out);
                p.encode(out);
            },
        }
        assert(out@ =~= old(out)@ + Self::wire(self@));
    }

    fn check(&self) -> (b: bool) {
        match self {
            TeamsMode::Create(p) => p.check(),
            TeamsMode::Remove => true,
            TeamsMode::Update(p) => p.check(),
            TeamsMode::AddPlayers(p) => p.check(),
            TeamsMode::RemovePlayers(p) => p.check(),
        }
    }

    proof fn lemma_decoded_bounds(s: Seq<u8>) {
        Byte::lemma_decoded_bounds(s);
        if let Some((tag, n)) = Byte::decoded(s) {
            TeamCreation::lemma_decoded_bounds(s.skip(n));
            TeamInfo::lemma_decoded_bounds(s.skip(n));
            CountedArray::<VarString>::lemma_decoded_bounds(s.skip(n));
            CountedArray::<VarString>::lemma_decoded_bounds(s.skip(n));
        }
    }

    proof fn lemma_decoded_wire(m: TeamsModeModel, rest: Seq<u8>) {
        let s = Self::wire(m) + rest;
        match m {
            TeamsModeModel::Create(p) => {
                let head = Byte::wire(Byte(0));
                let body = TeamCreation::wire(p);
                lemma_join(head, body, rest);
                assert(s.skip(0) =~= s);
                lemma_field_read::<Byte>(s, 0, Byte(0), body + rest);
                lemma_field_read::<TeamCreation>(s, head.len() as int, p, rest);
            },
            TeamsModeModel::Remove => {
                Byte::lemma_decoded_wire(Byte(1), rest);
            },
            TeamsModeModel::Update(p) => {
                let head = Byte::wire(Byte(2));
                let body = TeamInfo::wire(p);
                lemma_join(head, body, rest);
                assert(s.skip(0) =~= s);
                lemma_field_read::<Byte>(s, 0, Byte(2), body + rest);
                lemma_field_read::<TeamInfo>(s, head.len() as int, p, rest);
            },
            TeamsModeModel::AddPlayers(p) => {
                let head = Byte::wire(Byte(3));
                let body = CountedArray::<VarString>::wire(p);
                lemma_join(head, body, rest);
                assert(s.skip(0) =~= s);
                lemma_field_read::<Byte>(s, 0, Byte(3), body + rest);
                lemma_field_read::<CountedArray<VarString>>(s, head.len() as int, p, rest);
            },
            TeamsModeModel::RemovePlayers(p) => {
                let head = Byte::wire(Byte(4));
                let body = CountedArray::<VarString>::wire(p);
                lemma_join(head, body, rest);
                assert(s.skip(0) =~= s);
                lemma_field_read::<Byte>(s, 0, Byte(4), body + rest);
                lemma_field_read::<CountedArray<VarString>>(s, head.len() as int, p, rest);
            },
        }
    }
}

/// A team is made, removed or changed.
#[derive(Debug, Clone, PartialEq, Eq)]
pub struct Teams {
    pub team_name: VarString,
    pub mode: TeamsMode,
}

/// What a `Teams` holds.
pub struct TeamsModel {
    pub team_name: Seq<char>,
    pub mode: TeamsModeModel,
}

impl View for Teams {
    type V = TeamsModel;

    open spec fn view(&self) -> TeamsModel {
        TeamsModel {
            team_name: self.team_name@,
            mode: self.mode@,
        }
    }
}

impl Teams {
    /// A packet of the given fields.
    pub fn new(team_name: VarString, mode: TeamsMode) -> (r: Self)
        ensures
            r == (Teams { team_name, mode }),
    {
        Teams { team_name, mode }
    }
}

impl Wire for Teams {
    open spec fn valid(m: TeamsModel) -> bool {
        &&& VarString::valid(m.team_name)
        &&& TeamsMode::valid(m.mode)
    }

    open spec fn wire(m: TeamsModel) -> Seq<u8> {
        VarString::wire(m.team_name)
            + TeamsMode::wire(m.mode)
    }

    open spec fn decoded(s: Seq<u8>) -> Option<(TeamsModel, int)> {
        let r0 = VarString::decoded(s);
        let n0 = taken(r0);
        let f_team_name = read(r0);
        let r1 = TeamsMode::decoded(s.skip(n0));
        let n1 = n0 + taken(r1);
        let f_mode = read(r1);
        if r0 is Some && r1 is Some {
            Some((TeamsModel { team_name: f_team_name, mode: f_mode }, n1))
        } else {
            None
        }
    }

    fn decode(data: &[u8]) -> (r: Option<(Self, usize)>) {
        let (f_team_name, k0) = match <VarString as Wire>::decode(data) {
            Some(x) => x,
            None => {
                return None;
            },
        };
        proof {
            VarString::lemma_decoded_bounds(data@);
        }
        let n0 = k0;
        let (f_mode, k1) = match <TeamsMode as Wire>::decode(tail(data, n0)) {
            Some(x) => x,
            None => {
                return None;
            },
        };
        proof {
            TeamsMode::lemma_decoded_bounds(data@.skip(n0 as int));
        }
        let n1 = n0 + k1;
        Some((Teams { team_name: f_team_name, mode: f_mode }, n1))
    }

    fn encode(&self, out: &mut Vec<u8>) {
        self.team_name.encode(out);
        self.mode.encode(out);
        assert(out@ =~= old(out)@ + Self::wire(self@));
    }

    fn check(&self) -> (b: bool) {
        self.team_name.check()
            && self.mode.check()
    }

    proof fn lemma_decoded_bounds(s: Seq<u8>) {
        let r0 = VarString::decoded(s);
        VarString::lemma_decoded_bounds(s);
        let n0 = taken(r0);
        let f_team_name = read(r0);
        let r1 = TeamsMode::decoded(s.skip(n0));
        TeamsMode::lemma_decoded_bounds(s.skip(n0));
        let n1 = n0 + taken(r1);
        let f_mode = read(r1);
    }

    proof fn lemma_decoded_wire(m: TeamsModel, rest: Seq<u8>) {
        let s = Self::wire(m) + rest;
        let w0 = VarString::wire(m.team_name);
        let w1 = TeamsMode::wire(m.mode);
        let p0 = w0;
        let p1 = p0 + w1;
        let t1 = rest;
        let t0 = w1 + t1;
        assert(s == p1 + t1);
        lemma_join(p0, w1, t1);
        assert(s.skip(0) =~= s);
        let a0 = 0int;
        lemma_field_read::<VarString>(s, a0, m.team_name, t0);
        let a1 = a0 + w0.len();
        lemma_field_read::<TeamsMode>(s, a1, m.mode, t1);
    }
}

impl ClientboundPacket for Teams {
    open spec fn listed() -> IDS {
        IDS::Teams
    }

    open spec fn parsed(s: Seq<u8>) -> Option<TeamsModel> {
        match Self::decoded(s) {
            Some((m, _)) => Some(m),
            None => None,
        }
    }

    fn parse(data: &[u8]) -> (r: Result<Self, String>) {
        match Self::decode(data) {
            Some((p, _)) => Ok(p),
            None => Err(malformed("Teams")),
        }
    }

    fn id() -> (r: IDS) {
        IDS::Teams
    }
}

/// Ends the connection during play. The reason is a chat component in JSON,
/// which is handed on as it is.
#[derive(Debug, Clone, PartialEq, Eq)]
pub struct DisconnectPlayClientbound {
    pub reason: VarString,
}

/// What a `DisconnectPlayClientbound` holds.
pub struct DisconnectPlayClientboundModel {
    pub reason: Seq<char>,
}

impl View for DisconnectPlayClientbound {
    type V = DisconnectPlayClientboundModel;

    open spec fn view(&self) -> DisconnectPlayClientboundModel {
        DisconnectPlayClientboundModel {
            reason: self.reason@,
        }
    }
}

impl DisconnectPlayClientbound {
    /// A packet of the given fields.
    pub fn new(reason: VarString) -> (r: Self)
        ensures
            r == (DisconnectPlayClientbound { reason }),
    {
        DisconnectPlayClientbound { reason }
    }
}

impl Wire for DisconnectPlayClientbound {
    open spec fn valid(m: DisconnectPlayClientboundModel) -> bool {
        &&& VarString::valid(m.reason)
    }

    open spec fn wire(m: DisconnectPlayClientboundModel) -> Seq<u8> {
        VarString::wire(m.reason)
    }

    open spec fn decoded(s: Seq<u8>) -> Option<(DisconnectPlayClientboundModel, int)> {
        let r0 = VarString::decoded(s);
        let n0 = taken(r0);
        let f_reason = read(r0);
        if r0 is Some {
            Some((DisconnectPlayClientboundModel { reason: f_reason }, n0))
        } else {
            None
        }
    }

    fn decode(data: &[u8]) -> (r: Option<(Self, usize)>) {
        let (f_reason, k0) = match <VarString as Wire>::decode(data) {
            Some(x) => x,
            None => {
                return None;
            },
        };
        proof {
            VarString::lemma_decoded_bounds(data@);
        }
        let n0 = k0;
        Some((DisconnectPlayClientbound { reason: f_reason }, n0))
    }

    fn encode(&self, out: &mut Vec<u8>) {
        self.reason.encode(out);
        assert(out@ =~= old(out)@ + Self::wire(self@));
    }

    fn check(&self) -> (b: bool) {
        self.reason.check()
    }

    proof fn lemma_decoded_bounds(s: Seq<u8>) {
        let r0 = VarString::decoded(s);
        VarString::lemma_decoded_bounds(s);
        let n0 = taken(r0);
        let f_reason = read(r0);
    }

    proof fn lemma_decoded_wire(m: DisconnectPlayClientboundModel, rest: Seq<u8>) {
        let s = Self::wire(m) + rest;
        let w0 = VarString::wire(m.reason);
        let p0 = w0;
        let t0 = rest;
        assert(s == p0 + t0);
        assert(s.skip(0) =~= s);
        let a0 = 0int;
        lemma_field_read::<VarString>(s, a0, m.reason, t0);
    }
}

impl ClientboundPacket for DisconnectPlayClientbound {
    open spec fn listed() -> IDS {
        IDS::DisconnectPlayClientbound
    }

    open spec fn parsed(s: Seq<u8>) -> Option<DisconnectPlayClientboundModel> {
        match Self::decoded(s) {
            Some((m, _)) => Some(m),
            None => None,
        }
    }

    fn parse(data: &[u8]) -> (r: Result<Self, String>) {
        match Self::decode(data) {
            Some((p, _)) => Ok(p),
            None => Err(malformed("DisconnectPlayClientbound")),
        }
    }

    fn id() -> (r: IDS) {
        IDS::DisconnectPlayClientbound
    }
}

/// The end of a fight.
#[derive(Debug, Clone, Copy, PartialEq, Eq, Structural)]
pub struct CombatEnd {
    pub duration: VarInt,
    pub entity_id: Int,
}

impl View for CombatEnd {
    type V = CombatEnd;

    open spec fn view(&self) -> CombatEnd {
        *self
    }
}

impl CombatEnd {
    /// A packet of the given fields.
    pub fn new(duration: VarInt, entity_id: Int) -> (r: Self)
        ensures
            r == (CombatEnd { duration, entity_id }),
    {
        CombatEnd { duration, entity_id }
    }
}

impl Wire for CombatEnd {
    open spec fn valid(m: CombatEnd) -> bool {
        &&& VarInt::valid(m.duration)
        &&& Int::valid(m.entity_id)
    }

    open spec fn wire(m: CombatEnd) -> Seq<u8> {
        VarInt::wire(m.duration)
            + Int::wire(m.entity_id)
    }

    open spec fn decoded(s: Seq<u8>) -> Option<(CombatEnd, int)> {
        let r0 = VarInt::decoded(s);
        let n0 = taken(r0);
        let f_duration = read(r0);
        let r1 = Int::decoded(s.skip(n0));
        let n1 = n0 + taken(r1);
        let f_entity_id = read(r1);
        if r0 is Some && r1 is Some {
            Some((CombatEnd { duration: f_duration, entity_id: f_entity_id }, n1))
        } else {
            None
        }
    }

    fn decode(data: &[u8]) -> (r: Option<(Self, usize)>) {
        let (f_duration, k0) = match <VarInt as Wire>::decode(data) {
            Some(x) => x,
            None => {
                return None;
            },
        };
        proof {
            VarInt::lemma_decoded_bounds(data@);
        }
        let n0 = k0;
        let (f_entity_id, k1) = match <Int as Wire>::decode(tail(data, n0)) {
            Some(x) => x,
            None => {
                return None;
            },
        };
        proof {
            Int::lemma_decoded_bounds(data@.skip(n0 as int));
        }
        let n1 = n0 + k1;
        Some((CombatEnd { duration: f_duration, entity_id: f_entity_id }, n1))
    }

    fn encode(&self, out: &mut Vec<u8>) {
        self.duration.encode(out);
        self.entity_id.encode(out);
        assert(out@ =~= old(out)@ + Self::wire(self@));
    }

    fn check(&self) -> (b: bool) {
        self.duration.check()
            && self.entity_id.check()
    }

    proof fn lemma_decoded_bounds(s: Seq<u8>) {
        let r0 = VarInt::decoded(s);
        VarInt::lemma_decoded_bounds(s);
        let n0 = taken(r0);
        let f_duration = read(r0);
        let r1 = Int::decoded(s.skip(n0));
        Int::lemma_decoded_bounds(s.skip(n0));
        let n1 = n0 + taken(r1);
        let f_entity_id = read(r1);
    }

    proof fn lemma_decoded_wire(m: CombatEnd, rest: Seq<u8>) {
        let s = Self::wire(m) + rest;
        let w0 = VarInt::wire(m.duration);
        let w1 = Int::wire(m.entity_id);
        let p0 = w0;
        let p1 = p0 + w1;
        let t1 = rest;
        let t0 = w1 + t1;
        assert(s == p1 + t1);
        lemma_join(p0, w1, t1);
        assert(s.skip(0) =~= s);
        let a0 = 0int;
        lemma_field_read::<VarInt>(s, a0, m.duration, t0);
        let a1 = a0 + w0.len();
        lemma_field_read::<Int>(s, a1, m.entity_id, t1);
    }
}

/// The death of an entity in a fight.
#[derive(Debug, Clone, PartialEq, Eq)]
pub struct CombatDeath {
    pub player_id: VarInt,
    pub entity_id: Int,
    pub message: VarString,
}

/// What a `CombatDeath` holds.
pub struct CombatDeathModel {
    pub player_id: VarInt,
    pub entity_id: Int,
    pub message: Seq<char>,
}

impl View for CombatDeath {
    type V = CombatDeathModel;

    open spec fn view(&self) -> CombatDeathModel {
        CombatDeathModel {
            player_id: self.player_id@,
            entity_id: self.entity_id@,
            message: self.message@,
        }
    }
}

impl CombatDeath {
    /// A packet of the given fields.
    pub fn new(player_id: VarInt, entity_id: Int, message: VarString) -> (r: Self)
        ensures
            r == (CombatDeath { player_id, entity_id, message }),
    {
        CombatDeath { player_id, entity_id, message }
    }
}

impl Wire for CombatDeath {
    open spec fn valid(m: CombatDeathModel) -> bool {
        &&& VarInt::valid(m.player_id)
        &&& Int::valid(m.entity_id)
        &&& VarString::valid(m.message)
    }

    open spec fn wire(m: CombatDeathModel) -> Seq<u8> {
        VarInt::wire(m.player_id)
            + Int::wire(m.entity_id)
            + VarString::wire(m.message)
    }

    open spec fn decoded(s: Seq<u8>) -> Option<(CombatDeathModel, int)> {
        let r0 = VarInt::decoded(s);
        let n0 = taken(r0);
        let f_player_id = read(r0);
        let r1 = Int::decoded(s.skip(n0));
        let n1 = n0 + taken(r1);
        let f_entity_id = read(r1);
        let r2 = VarString::decoded(s.skip(n1));
        let n2 = n1 + taken(r2);
        let f_message = read(r2);
        if r0 is Some && r1 is Some && r2 is Some {
            Some(
                (
                    CombatDeathModel {
                        player_id: f_player_id,
                        entity_id: f_entity_id,
                        message: f_message,
                    },
                    n2,
                ),
            )
        } else {
            None
        }
    }

    fn decode(data: &[u8]) -> (r: Option<(Self, usize)>) {
        let (f_player_id, k0) = match <VarInt as Wire>::decode(data) {
            Some(x) => x,
            None => {
                return None;
            },
        };
        proof {
            VarInt::lemma_decoded_bounds(data@);
        }
        let n0 = k0;
        let (f_entity_id, k1) = match <Int as Wire>::decode(tail(data, n0)) {
            Some(x) => x,
            None => {
                return None;
            },
        };
        proof {
            Int::lemma_decoded_bounds(data@.skip(n0 as int));
        }
        let n1 = n0 + k1;
        let (f_message, k2) = match <VarString as Wire>::decode(tail(data, n1)) {
            Some(x) => x,
            None => {
                return None;
            },
        };
        proof {
            VarString::lemma_decoded_bounds(data@.skip(n1 as int));
        }
        let n2 = n1 + k2;
        Some(
            (
                CombatDeath {
                    player_id: f_player_id,
                    entity_id: f_entity_id,
                    message: f_message,
                },
                n2,
            ),
        )
    }

    fn encode(&self, out: &mut Vec<u8>) {
        self.player_id.encode(out);
        self.entity_id.encode(out);
        self.message.encode(out);
        assert(out@ =~= old(out)@ + Self::wire(self@));
    }

    fn check(&self) -> (b: bool) {
        self.player_id.check()
            && self.entity_id.check()
            && self.message.check()
    }

    proof fn lemma_decoded_bounds(s: Seq<u8>) {
        let r0 = VarInt::decoded(s);
        VarInt::lemma_decoded_bounds(s);
        let n0 = taken(r0);
        let f_player_id = read(r0);
        let r1 = Int::decoded(s.skip(n0));
        Int::lemma_decoded_bounds(s.skip(n0));
        let n1 = n0 + taken(r1);
        let f_entity_id = read(r1);
        let r2 = VarString::decoded(s.skip(n1));
        VarString::lemma_decoded_bounds(s.skip(n1));
        let n2 = n1 + taken(r2);
        let f_message = read(r2);
    }

    proof fn lemma_decoded_wire(m: CombatDeathModel, rest: Seq<u8>) {
        let s = Self::wire(m) + rest;
        let w0 = VarInt::wire(m.player_id);
        let w1 = Int::wire(m.entity_id);
        let w2 = VarString::wire(m.message);
        let p0 = w0;
        let p1 = p0 + w1;
        let p2 = p1 + w2;
        let t2 = rest;
        let t1 = w2 + t2;
        let t0 = w1 + t1;
        assert(s == p2 + t2);
        lemma_join(p1, w2, t2);
        lemma_join(p0, w1, t1);
        assert(s.skip(0) =~= s);
        let a0 = 0int;
        lemma_field_read::<VarInt>(s, a0, m.player_id, t0);
        let a1 = a0 + w0.len();
        lemma_field_read::<Int>(s, a1, m.entity_id, t1);
        let a2 = a1 + w1.len();
        lemma_field_read::<VarString>(s, a2, m.message, t2);
    }
}

/// What has happened in a fight. The number of the event comes first on the
/// wire, as a `VarInt`; a number above two is malformed.
#[derive(Debug, Clone, PartialEq, Eq)]
pub enum CombatEventKind {
    EnterCombat,
    EndCombat(CombatEnd),
    EntityDead(CombatDeath),
}

/// What a `CombatEventKind` holds.
pub enum CombatEventKindModel {
    EnterCombat,
    EndCombat(CombatEnd),
    EntityDead(CombatDeathModel),
}

impl View for CombatEventKind {
    type V = CombatEventKindModel;

    open spec fn view(&self) -> CombatEventKindModel {
        match self {
            CombatEventKind::EnterCombat => CombatEventKindModel::EnterCombat,
            CombatEventKind::EndCombat(p) => CombatEventKindModel::EndCombat(p@),
            CombatEventKind::EntityDead(p) => CombatEventKindModel::EntityDead(p@),
        }
    }
}

impl Wire for CombatEventKind {
    open spec fn valid(m: CombatEventKindModel) -> bool {
        match m {
            CombatEventKindModel::EnterCombat => true,
            CombatEventKindModel::EndCombat(p) => CombatEnd::valid(p),
            CombatEventKindModel::EntityDead(p) => CombatDeath::valid(p),
        }
    }

    open spec fn wire(m: CombatEventKindModel) -> Seq<u8> {
        match m {
            CombatEventKindModel::EnterCombat => VarInt::wire(VarInt(0)),
            CombatEventKindModel::EndCombat(p) => VarInt::wire(VarInt(1)) + CombatEnd::wire(p),
            CombatEventKindModel::EntityDead(p) => VarInt::wire(VarInt(2)) + CombatDeath::wire(p),
        }
    }

    open spec fn decoded(s: Seq<u8>) -> Option<(CombatEventKindModel, int)> {
        match VarInt::decoded(s) {
            Some((tag, n)) => match tag.0 {
                0 => Some((CombatEventKindModel::EnterCombat, n)),
                1 => match CombatEnd::decoded(s.skip(n)) {
                    Some((p, k)) => Some((CombatEventKindModel::EndCombat(p), n + k)),
                    None => None,
                },
                2 => match CombatDeath::decoded(s.skip(n)) {
                    Some((p, k)) => Some((CombatEventKindModel::EntityDead(p), n + k)),
                    None => None,
                },
                _ => None,
            },
            None => None,
        }
    }

    fn decode(data: &[u8]) -> (r: Option<(Self, usize)>) {
        let (tag, n) = match VarInt::parse(data) {
            Some(x) => x,
            None => {
                return None;
            },
        };
        proof {
            VarInt::lemma_decoded_bounds(data@);
        }
        match tag.0 {
            0 => Some((CombatEventKind::EnterCombat, n)),
            1 => match <CombatEnd as Wire>::decode(tail(data, n)) {
                Some((p, k)) => {
                    proof {
                        CombatEnd::lemma_decoded_bounds(data@.skip(n as int));
                    }
                    Some((CombatEventKind::EndCombat(p), n + k))
                },
                None => None,
            },
            2 => match <CombatDeath as Wire>::decode(tail(data, n)) {
                Some((p, k)) => {
                    proof {
                        CombatDeath::lemma_decoded_bounds(data@.skip(n as int));
                    }
                    Some((CombatEventKind::EntityDead(p), n + k))
                },
                None => None,
            },
            _ => None,
        }
    }

    fn encode(&self, out: &mut Vec<u8>) {
        match self {
            CombatEventKind::EnterCombat => {
                VarInt(0).write(out);
            },
            CombatEventKind::EndCombat(p) => {
                VarInt(1).write(out);
                p.encode(out);
            },
            CombatEventKind::EntityDead(p) => {
                VarInt(2).write(out);
                p.encode(out);
            },
        }
        assert(out@ =~= old(out)@ + Self::wire(self@));
    }

    fn check(&self) -> (b: bool) {
        match self {
            CombatEventKind::EnterCombat => true,
            CombatEventKind::EndCombat(p) => p.check(),
            CombatEventKind::EntityDead(p) => p.check(),
        }
    }

    proof fn lemma_decoded_bounds(s: Seq<u8>) {
        VarInt::lemma_decoded_bounds(s);
        if let Some((tag, n)) = VarInt::decoded(s) {
            CombatEnd::lemma_decoded_bounds(s.skip(n));
            CombatDeath::lemma_decoded_bounds(s.skip(n));
        }
    }

    proof fn lemma_decoded_wire(m: CombatEventKindModel, rest: Seq<u8>) {
        let s = Self::wire(m) + rest;
        match m {
            CombatEventKindModel::EnterCombat => {
                VarInt::lemma_decoded_wire(VarInt(0), rest);
            },
            CombatEventKindModel::EndCombat(p) => {
                let head = VarInt::wire(VarInt(1));
                let body = CombatEnd::wire(p);
                lemma_join(head, body, rest);
                assert(s.skip(0) =~= s);
                lemma_field_read::<VarInt>(s, 0, VarInt(1), body + rest);
                lemma_field_read::<CombatEnd>(s, head.len() as int, p, rest);
            },
            CombatEventKindModel::EntityDead(p) => {
                let head = VarInt::wire(VarInt(2));
                let body = CombatDeath::wire(p);
                lemma_join(head, body, rest);
                assert(s.skip(0) =~= s);
                lemma_field_read::<VarInt>(s, 0, VarInt(2), body + rest);
                lemma_field_read::<CombatDeath>(s, head.len() as int, p, rest);
            },
        }
    }
}

/// An event of a fight.
#[derive(Debug, Clone, PartialEq, Eq)]
pub struct CombatEvent {
    pub event: CombatEventKind,
}

/// What a `CombatEvent` holds.
pub struct CombatEventModel {
    pub event: CombatEventKindModel,
}

impl View for CombatEvent {
    type V = CombatEventModel;

    open spec fn view(&self) -> CombatEventModel {
        CombatEventModel {
            event: self.event@,
        }
    }
}

impl CombatEvent {
    /// A packet of the given fields.
    pub fn new(event: CombatEventKind) -> (r: Self)
        ensures
            r == (CombatEvent { event }),
    {
        CombatEvent { event }
    }
}

impl Wire for CombatEvent {
    open spec fn valid(m: CombatEventModel) -> bool {
        &&& CombatEventKind::valid(m.event)
    }

    open spec fn wire(m: CombatEventModel) -> Seq<u8> {
        CombatEventKind::wire(m.event)
    }

    open spec fn decoded(s: Seq<u8>) -> Option<(CombatEventModel, int)> {
        let r0 = CombatEventKind::decoded(s);
        let n0 = taken(r0);
        let f_event = read(r0);
        if r0 is Some {
            Some((CombatEventModel { event: f_event }, n0))
        } else {
            None
        }
    }

    fn decode(data: &[u8]) -> (r: Option<(Self, usize)>) {
        let (f_event, k0) = match <CombatEventKind as Wire>::decode(data) {
            Some(x) => x,
            None => {
                return None;
            },
        };
        proof {
            CombatEventKind::lemma_decoded_bounds(data@);
        }
        let n0 = k0;
        Some((CombatEvent { event: f_event }, n0))
    }

    fn encode(&self, out: &mut Vec<u8>) {
        self.event.encode(out);
        assert(out@ =~= old(out)@ + Self::wire(self@));
    }

    fn check(&self) -> (b: bool) {
        self.event.check()
    }

    proof fn lemma_decoded_bounds(s: Seq<u8>) {
        let r0 = CombatEventKind::decoded(s);
        CombatEventKind::lemma_decoded_bounds(s);
        let n0 = taken(r0);
        let f_event = read(r0);
    }

    proof fn lemma_decoded_wire(m: CombatEventModel, rest: Seq<u8>) {
        let s = Self::wire(m) + rest;
        let w0 = CombatEventKind::wire(m.event);
        let p0 = w0;
        let t0 = rest;
        assert(s == p0 + t0);
        assert(s.skip(0) =~= s);
        let a0 = 0int;
        lemma_field_read::<CombatEventKind>(s, a0, m.event, t0);
    }
}

impl ClientboundPacket for CombatEvent {
    open spec fn listed() -> IDS {
        IDS::CombatEvent
    }

    open spec fn parsed(s: Seq<u8>) -> Option<CombatEventModel> {
        match Self::decoded(s) {
            Some((m, _)) => Some(m),
            None => None,
        }
    }

    fn parse(data: &[u8]) -> (r: Result<Self, String>) {
        match Self::decode(data) {
            Some((p, _)) => Ok(p),
            None => Err(malformed("CombatEvent")),
        }
    }

    fn id() -> (r: IDS) {
        IDS::CombatEvent
    }
}

/// How long a title fades in, stays and fades out, in ticks.
#[derive(Debug, Clone, Copy, PartialEq, Eq, Structural)]
pub struct TitleTimes {
    pub fade_in: Int,
    pub stay: Int,
    pub fade_out: Int,
}

impl View for TitleTimes {
    type V = TitleTimes;

    open spec fn view(&self) -> TitleTimes {
        *self
    }
}

impl TitleTimes {
    /// A packet of the given fields.
    pub fn new(fade_in: Int, stay: Int, fade_out: Int) -> (r: Self)
        ensures
            r == (TitleTimes { fade_in, stay, fade_out }),
    {
        TitleTimes { fade_in, stay, fade_out }
    }
}

impl Wire for TitleTimes {
    open spec fn valid(m: TitleTimes) -> bool {
        &&& Int::valid(m.fade_in)
        &&& Int::valid(m.stay)
        &&& Int::valid(m.fade_out)
    }

    open spec fn wire(m: TitleTimes) -> Seq<u8> {
        Int::wire(m.fade_in)
            + Int::wire(m.stay)
            + Int::wire(m.fade_out)
    }

    open spec fn decoded(s: Seq<u8>) -> Option<(TitleTimes, int)> {
        let r0 = Int::decoded(s);
        let n0 = taken(r0);
        let f_fade_in = read(r0);
        let r1 = Int::decoded(s.skip(n0));
        let n1 = n0 + taken(r1);
        let f_stay = read(r1);
        let r2 = Int::decoded(s.skip(n1));
        let n2 = n1 + taken(r2);
        let f_fade_out = read(r2);
        if r0 is Some && r1 is Some && r2 is Some {
            Some((TitleTimes { fade_in: f_fade_in, stay: f_stay, fade_out: f_fade_out }, n2))
        } else {
            None
        }
    }

    fn decode(data: &[u8]) -> (r: Option<(Self, usize)>) {
        let (f_fade_in, k0) = match <Int as Wire>::decode(data) {
            Some(x) => x,
            None => {
                return None;
            },
        };
        proof {
            Int::lemma_decoded_bounds(data@);
        }
        let n0 = k0;
        let (f_stay, k1) = match <Int as Wire>::decode(tail(data, n0)) {
            Some(x) => x,
            None => {
                return None;
            },
        };
        proof {
            Int::lemma_decoded_bounds(data@.skip(n0 as int));
        }
        let n1 = n0 + k1;
        let (f_fade_out, k2) = match <Int as Wire>::decode(tail(data, n1)) {
            Some(x) => x,
            None => {
                return None;
            },
        };
        proof {
            Int::lemma_decoded_bounds(data@.skip(n1 as int));
        }
        let n2 = n1 + k2;
        Some((TitleTimes { fade_in: f_fade_in, stay: f_stay, fade_out: f_fade_out }, n2))
    }

    fn encode(&self, out: &mut Vec<u8>) {
        self.fade_in.encode(out);
        self.stay.encode(out);
        self.fade_out.encode(out);
        assert(out@ =~= old(out)@ + Self::wire(self@));
    }

    fn check(&self) -> (b: bool) {
        self.fade_in.check()
            && self.stay.check()
            && self.fade_out.check()
    }

    proof fn lemma_decoded_bounds(s: Seq<u8>) {
        let r0 = Int::decoded(s);
        Int::lemma_decoded_bounds(s);
        let n0 = taken(r0);
        let f_fade_in = read(r0);
        let r1 = Int::decoded(s.skip(n0));
        Int::lemma_decoded_bounds(s.skip(n0));
        let n1 = n0 + taken(r1);
        let f_stay = read(r1);
        let r2 = Int::decoded(s.skip(n1));
        Int::lemma_decoded_bounds(s.skip(n1));
        let n2 = n1 + taken(r2);
        let f_fade_out = read(r2);
    }

    proof fn lemma_decoded_wire(m: TitleTimes, rest: Seq<u8>) {
        let s = Self::wire(m) + rest;
        let w0 = Int::wire(m.fade_in);
        let w1 = Int::wire(m.stay);
        let w2 = Int::wire(m.fade_out);
        let p0 = w0;
        let p1 = p0 + w1;
        let p2 = p1 + w2;
        let t2 = rest;
        let t1 = w2 + t2;
        let t0 = w1 + t1;
        assert(s == p2 + t2);
        lemma_join(p1, w2, t2);
        lemma_join(p0, w1, t1);
        assert(s.skip(0) =~= s);
        let a0 = 0int;
        lemma_field_read::<Int>(s, a0, m.fade_in, t0);
        let a1 = a0 + w0.len();
        lemma_field_read::<Int>(s, a1, m.stay, t1);
        let a2 = a1 + w1.len();
        lemma_field_read::<Int>(s, a2, m.fade_out, t2);
    }
}

/// What is done to the title on the screen. The number of the action comes
/// first on the wire, as a `VarInt`; a number above four is malformed.
#[derive(Debug, Clone, PartialEq, Eq)]
pub enum TitleAction {
    SetTitle(VarString),
    SetSubtitle(VarString),
    SetTimes(TitleTimes),
    Hide,
    Reset,
}

/// What a `TitleAction` holds.
pub enum TitleActionModel {
    SetTitle(Seq<char>),
    SetSubtitle(Seq<char>),
    SetTimes(TitleTimes),
    Hide,
    Reset,
}

impl View for TitleAction {
    type V = TitleActionModel;

    open spec fn view(&self) -> TitleActionModel {
        match self {
            TitleAction::SetTitle(p) => TitleActionModel::SetTitle(p@),
            TitleAction::SetSubtitle(p) => TitleActionModel::SetSubtitle(p@),
            TitleAction::SetTimes(p) => TitleActionModel::SetTimes(p@),
            TitleAction::Hide => TitleActionModel::Hide,
            TitleAction::Reset => TitleActionModel::Reset,
        }
    }
}

impl Wire for TitleAction {
    open spec fn valid(m: TitleActionModel) -> bool {
        match m {
            TitleActionModel::SetTitle(p) => VarString::valid(p),
            TitleActionModel::SetSubtitle(p) => VarString::valid(p),
            TitleActionModel::SetTimes(p) => TitleTimes::valid(p),
            TitleActionModel::Hide => true,
            TitleActionModel::Reset => true,
        }
    }

    open spec fn wire(m: TitleActionModel) -> Seq<u8> {
        match m {
            TitleActionModel::SetTitle(p) => VarInt::wire(VarInt(0)) + VarString::wire(p),
            TitleActionModel::SetSubtitle(p) => VarInt::wire(VarInt(1)) + VarString::wire(p),
            TitleActionModel::SetTimes(p) => VarInt::wire(VarInt(2)) + TitleTimes::wire(p),
            TitleActionModel::Hide => VarInt::wire(VarInt(3)),
            TitleActionModel::Reset => VarInt::wire(VarInt(4)),
        }
    }

    open spec fn decoded(s: Seq<u8>) -> Option<(TitleActionModel, int)> {
        match VarInt::decoded(s) {
            Some((tag, n)) => match tag.0 {
                0 => match VarString::decoded(s.skip(n)) {
                    Some((p, k)) => Some((TitleActionModel::SetTitle(p), n + k)),
                    None => None,
                },
                1 => match VarString::decoded(s.skip(n)) {
                    Some((p, k)) => Some((TitleActionModel::SetSubtitle(p), n + k)),
                    None => None,
                },
                2 => match TitleTimes::decoded(s.skip(n)) {
                    Some((p, k)) => Some((TitleActionModel::SetTimes(p), n + k)),
                    None => None,
                },
                3 => Some((TitleActionModel::Hide, n)),
                4 => Some((TitleActionModel::Reset, n)),
                _ => None,
            },
            None => None,
        }
    }

    fn decode(data: &[u8]) -> (r: Option<(Self, usize)>) {
        let (tag, n) = match VarInt::parse(data) {
            Some(x) => x,
            None => {
                return None;
            },
        };
        proof {
            VarInt::lemma_decoded_bounds(data@);
        }
        match tag.0 {
            0 => match <VarString as Wire>::decode(tail(data, n)) {
                Some((p, k)) => {
                    proof {
                        VarString::lemma_decoded_bounds(data@.skip(n as int));
                    }
                    Some((TitleAction::SetTitle(p), n + k))
                },
                None => None,
            },
            1 => match <VarString as Wire>::decode(tail(data, n)) {
                Some((p, k)) => {
                    proof {
                        VarString::lemma_decoded_bounds(data@.skip(n as int));
                    }
                    Some((TitleAction::SetSubtitle(p), n + k))
                },
                None => None,
            },
            2 => match <TitleTimes as Wire>::decode(tail(data, n)) {
                Some((p, k)) => {
                    proof {
                        TitleTimes::lemma_decoded_bounds(data@.skip(n as int));
                    }
                    Some((TitleAction::SetTimes(p), n + k))
                },
                None => None,
            },
            3 => Some((TitleAction::Hide, n)),
            4 => Some((TitleAction::Reset, n)),
            _ => None,
        }
    }

    fn encode(&self, out: &mut Vec<u8>) {
        match self {
            TitleAction::SetTitle(p) => {
                VarInt(0).write(out);
                p.encode(out);
            },
            TitleAction::SetSubtitle(p) => {
                VarInt(1).write(out);
                p.encode(out);
            },
            TitleAction::SetTimes(p) => {
                VarInt(2).write(out);
                p.encode(out);
            },
            TitleAction::Hide => {
                VarInt(3).write(out);
            },
            TitleAction::Reset => {
                VarInt(4).write(out);
            },
        }
        assert(out@ =~= old(out)@ + Self::wire(self@));
    }

    fn check(&self) -> (b: bool) {
        match self {
            TitleAction::SetTitle(p) => p.check(),
            TitleAction::SetSubtitle(p) => p.check(),
            TitleAction::SetTimes(p) => p.check(),
            TitleAction::Hide => true,
            TitleAction::Reset => true,
        }
    }

    proof fn lemma_decoded_bounds(s: Seq<u8>) {
        VarInt::lemma_decoded_bounds(s);
        if let Some((tag, n)) = VarInt::decoded(s) {
            VarString::lemma_decoded_bounds(s.skip(n));
            VarString::lemma_decoded_bounds(s.skip(n));
            TitleTimes::lemma_decoded_bounds(s.skip(n));
        }
    }

    proof fn lemma_decoded_wire(m: TitleActionModel, rest: Seq<u8>) {
        let s = Self::wire(m) + rest;
        match m {
            TitleActionModel::SetTitle(p) => {
                let head = VarInt::wire(VarInt(0));
                let body = VarString::wire(p);
                lemma_join(head, body, rest);
                assert(s.skip(0) =~= s);
                lemma_field_read::<VarInt>(s, 0, VarInt(0), body + rest);
                lemma_field_read::<VarString>(s, head.len() as int, p, rest);
            },
            TitleActionModel::SetSubtitle(p) => {
                let head = VarInt::wire(VarInt(1));
                let body = VarString::wire(p);
                lemma_join(head, body, rest);
                assert(s.skip(0) =~= s);
                lemma_field_read::<VarInt>(s, 0, VarInt(1), body + rest);
                lemma_field_read::<VarString>(s, head.len() as int, p, rest);
            },
            TitleActionModel::SetTimes(p) => {
                let head = VarInt::wire(VarInt(2));
                let body = TitleTimes::wire(p);
                lemma_join(head, body, rest);
                assert(s.skip(0) =~= s);
                lemma_field_read::<VarInt>(s, 0, VarInt(2), body + rest);
                lemma_field_read::<TitleTimes>(s, head.len() as int, p, rest);
            },
            TitleActionModel::Hide => {
                VarInt::lemma_decoded_wire(VarInt(3), rest);
            },
            TitleActionModel::Reset => {
                VarInt::lemma_decoded_wire(VarInt(4), rest);
            },
        }
    }
}

/// A change of the title on the screen.
#[derive(Debug, Clone, PartialEq, Eq)]
pub struct Title {
    pub action: TitleAction,
}

/// What a `Title` holds.
pub struct TitleModel {
    pub action: TitleActionModel,
}

impl View for Title {
    type V = TitleModel;

    open spec fn view(&self) -> TitleModel {
        TitleModel {
            action: self.action@,
        }
    }
}

impl Title {
    /// A packet of the given fields.
    pub fn new(action: TitleAction) -> (r: Self)
        ensures
            r == (Title { action }),
    {
        Title { action }
    }
}

impl Wire for Title {
    open spec fn valid(m: TitleModel) -> bool {
        &&& TitleAction::valid(m.action)
    }

    open spec fn wire(m: TitleModel) -> Seq<u8> {
        TitleAction::wire(m.action)
    }

    open spec fn decoded(s: Seq<u8>) -> Option<(TitleModel, int)> {
        let r0 = TitleAction::decoded(s);
        let n0 = taken(r0);
        let f_action = read(r0);
        if r0 is Some {
            Some((TitleModel { action: f_action }, n0))
        } else {
            None
        }
    }

    fn decode(data: &[u8]) -> (r: Option<(Self, usize)>) {
        let (f_action, k0) = match <TitleAction as Wire>::decode(data) {
            Some(x) => x,
            None => {
                return None;
            },
        };
        proof {
            TitleAction::lemma_decoded_bounds(data@);
        }
        let n0 = k0;
        Some((Title { action: f_action }, n0))
    }

    fn encode(&self, out: &mut Vec<u8>) {
        self.action.encode(out);
        assert(out@ =~= old(out)@ + Self::wire(self@));
    }

    fn check(&self) -> (b: bool) {
        self.action.check()
    }

    proof fn lemma_decoded_bounds(s: Seq<u8>) {
        let r0 = TitleAction::decoded(s);
        TitleAction::lemma_decoded_bounds(s);
        let n0 = taken(r0);
        let f_action = read(r0);
    }

    proof fn lemma_decoded_wire(m: TitleModel, rest: Seq<u8>) {
        let s = Self::wire(m) + rest;
        let w0 = TitleAction::wire(m.action);
        let p0 = w0;
        let t0 = rest;
        assert(s == p0 + t0);
        assert(s.skip(0) =~= s);
        let a0 = 0int;
        lemma_field_read::<TitleAction>(s, a0, m.action, t0);
    }
}

impl ClientboundPacket for Title {
    open spec fn listed() -> IDS {
        IDS::Title
    }

    open spec fn parsed(s: Seq<u8>) -> Option<TitleModel> {
        match Self::decoded(s) {
            Some((m, _)) => Some(m),
            None => None,
        }
    }

    fn parse(data: &[u8]) -> (r: Result<Self, String>) {
        match Self::decode(data) {
            Some((p, _)) => Ok(p),
            None => Err(malformed("Title")),
        }
    }

    fn id() -> (r: IDS) {
        IDS::Title
    }
}

/// Switches compression on during play: packets of at least `threshold` bytes
/// are compressed from here on.
#[derive(Debug, Clone, Copy, PartialEq, Eq, Structural)]
pub struct SetCompressionPlay {
    pub threshold: VarInt,
}

impl View for SetCompressionPlay {
    type V = SetCompressionPlay;

    open spec fn view(&self) -> SetCompressionPlay {
        *self
    }
}

impl SetCompressionPlay {
    /// A packet of the given fields.
    pub fn new(threshold: VarInt) -> (r: Self)
        ensures
            r == (SetCompressionPlay { threshold }),
    {
        SetCompressionPlay { threshold }
    }
}

impl Wire for SetCompressionPlay {
    open spec fn valid(m: SetCompressionPlay) -> bool {
        &&& VarInt::valid(m.threshold)
    }

    open spec fn wire(m: SetCompressionPlay) -> Seq<u8> {
        VarInt::wire(m.threshold)
    }

    open spec fn decoded(s: Seq<u8>) -> Option<(SetCompressionPlay, int)> {
        let r0 = VarInt::decoded(s);
        let n0 = taken(r0);
        let f_threshold = read(r0);
        if r0 is Some {
            Some((SetCompressionPlay { threshold: f_threshold }, n0))
        } else {
            None
        }
    }

    fn decode(data: &[u8]) -> (r: Option<(Self, usize)>) {
        let (f_threshold, k0) = match <VarInt as Wire>::decode(data) {
            Some(x) => x,
            None => {
                return None;
            },
        };
        proof {
            VarInt::lemma_decoded_bounds(data@);
        }
        let n0 = k0;
        Some((SetCompressionPlay { threshold: f_threshold }, n0))
    }

    fn encode(&self, out: &mut Vec<u8>) {
        self.threshold.encode(out);
        assert(out@ =~= old(out)@ + Self::wire(self@));
    }

    fn check(&self) -> (b: bool) {
        self.threshold.check()
    }

    proof fn lemma_decoded_bounds(s: Seq<u8>) {
        let r0 = VarInt::decoded(s);
        VarInt::lemma_decoded_bounds(s);
        let n0 = taken(r0);
        let f_threshold = read(r0);
    }

    proof fn lemma_decoded_wire(m: SetCompressionPlay, rest: Seq<u8>) {
        let s = Self::wire(m) + rest;
        let w0 = VarInt::wire(m.threshold);
        let p0 = w0;
        let t0 = rest;
        assert(s == p0 + t0);
        assert(s.skip(0) =~= s);
        let a0 = 0int;
        lemma_field_read::<VarInt>(s, a0, m.threshold, t0);
    }
}

impl ClientboundPacket for SetCompressionPlay {
    open spec fn listed() -> IDS {
        IDS::SetCompressionPlay
    }

    open spec fn parsed(s: Seq<u8>) -> Option<SetCompressionPlay> {
        match Self::decoded(s) {
            Some((m, _)) => Some(m),
            None => None,
        }
    }

    fn parse(data: &[u8]) -> (r: Result<Self, String>) {
        match Self::decode(data) {
            Some((p, _)) => Ok(p),
            None => Err(malformed("SetCompressionPlay")),
        }
    }

    fn id() -> (r: IDS) {
        IDS::SetCompressionPlay
    }
}

/// The text above and below the list of players.
#[derive(Debug, Clone, PartialEq, Eq)]
pub struct PlayerListHeaderAndFooter {
    pub header: VarString,
    pub footer: VarString,
}

/// What a `PlayerListHeaderAndFooter` holds.
pub struct PlayerListHeaderAndFooterModel {
    pub header: Seq<char>,
    pub footer: Seq<char>,
}

impl View for PlayerListHeaderAndFooter {
    type V = PlayerListHeaderAndFooterModel;

    open spec fn view(&self) -> PlayerListHeaderAndFooterModel {
        PlayerListHeaderAndFooterModel {
            header: self.header@,
            footer: self.footer@,
        }
    }
}

impl PlayerListHeaderAndFooter {
    /// A packet of the given fields.
    pub fn new(header: VarString, footer: VarString) -> (r: Self)
        ensures
            r == (PlayerListHeaderAndFooter { header, footer }),
    {
        PlayerListHeaderAndFooter { header, footer }
    }
}

impl Wire for PlayerListHeaderAndFooter {
    open spec fn valid(m: PlayerListHeaderAndFooterModel) -> bool {
        &&& VarString::valid(m.header)
        &&& VarString::valid(m.footer)
    }

    open spec fn wire(m: PlayerListHeaderAndFooterModel) -> Seq<u8> {
        VarString::wire(m.header)
            + VarString::wire(m.footer)
    }

    open spec fn decoded(s: Seq<u8>) -> Option<(PlayerListHeaderAndFooterModel, int)> {
        let r0 = VarString::decoded(s);
        let n0 = taken(r0);
        let f_header = read(r0);
        let r1 = VarString::decoded(s.skip(n0));
        let n1 = n0 + taken(r1);
        let f_footer = read(r1);
        if r0 is Some && r1 is Some {
            Some((PlayerListHeaderAndFooterModel { header: f_header, footer: f_footer }, n1))
        } else {
            None
        }
    }

    fn decode(data: &[u8]) -> (r: Option<(Self, usize)>) {
        let (f_header, k0) = match <VarString as Wire>::decode(data) {
            Some(x) => x,
            None => {
                return None;
            },
        };
        proof {
            VarString::lemma_decoded_bounds(data@);
        }
        let n0 = k0;
        let (f_footer, k1) = match <VarString as Wire>::decode(tail(data, n0)) {
            Some(x) => x,
            None => {
                return None;
            },
        };
        proof {
            VarString::lemma_decoded_bounds(data@.skip(n0 as int));
        }
        let n1 = n0 + k1;
        Some((PlayerListHeaderAndFooter { header: f_header, footer: f_footer }, n1))
    }

    fn encode(&self, out: &mut Vec<u8>) {
        self.header.encode(out);
        self.footer.encode(out);
        assert(out@ =~= old(out)@ + Self::wire(self@));
    }

    fn check(&self) -> (b: bool) {
        self.header.check()
            && self.footer.check()
    }

    proof fn lemma_decoded_bounds(s: Seq<u8>) {
        let r0 = VarString::decoded(s);
        VarString::lemma_decoded_bounds(s);
        let n0 = taken(r0);
        let f_header = read(r0);
        let r1 = VarString::decoded(s.skip(n0));
        VarString::lemma_decoded_bounds(s.skip(n0));
        let n1 = n0 + taken(r1);
        let f_footer = read(r1);
    }

    proof fn lemma_decoded_wire(m: PlayerListHeaderAndFooterModel, rest: Seq<u8>) {
        let s = Self::wire(m) + rest;
        let w0 = VarString::wire(m.header);
        let w1 = VarString::wire(m.footer);
        let p0 = w0;
        let p1 = p0 + w1;
        let t1 = rest;
        let t0 = w1 + t1;
        assert(s == p1 + t1);
        lemma_join(p0, w1, t1);
        assert(s.skip(0) =~= s);
        let a0 = 0int;
        lemma_field_read::<VarString>(s, a0, m.header, t0);
        let a1 = a0 + w0.len();
        lemma_field_read::<VarString>(s, a1, m.footer, t1);
    }
}

impl ClientboundPacket for PlayerListHeaderAndFooter {
    open spec fn listed() -> IDS {
        IDS::PlayerListHeaderAndFooter
    }

    open spec fn parsed(s: Seq<u8>) -> Option<PlayerListHeaderAndFooterModel> {
        match Self::decoded(s) {
            Some((m, _)) => Some(m),
            None => None,
        }
    }

    fn parse(data: &[u8]) -> (r: Result<Self, String>) {
        match Self::decode(data) {
            Some((p, _)) => Ok(p),
            None => Err(malformed("PlayerListHeaderAndFooter")),
        }
    }

    fn id() -> (r: IDS) {
        IDS::PlayerListHeaderAndFooter
    }
}

/// The server offers a resource pack.
#[derive(Debug, Clone, PartialEq, Eq)]
pub struct ResourcePackSend {
    pub url: VarString,
    pub hash: VarString,
}

/// What a `ResourcePackSend` holds.
pub struct ResourcePackSendModel {
    pub url: Seq<char>,
    pub hash: Seq<char>,
}

impl View for ResourcePackSend {
    type V = ResourcePackSendModel;

    open spec fn view(&self) -> ResourcePackSendModel {
        ResourcePackSendModel {
            url: self.url@,
            hash: self.hash@,
        }
    }
}

impl ResourcePackSend {
    /// A packet of the given fields.
    pub fn new(url: VarString, hash: VarString) -> (r: Self)
        ensures
            r == (ResourcePackSend { url, hash }),
    {
        ResourcePackSend { url, hash }
    }
}

impl Wire for ResourcePackSend {
    open spec fn valid(m: ResourcePackSendModel) -> bool {
        &&& VarString::valid(m.url)
        &&& VarString::valid(m.hash)
    }

    open spec fn wire(m: ResourcePackSendModel) -> Seq<u8> {
        VarString::wire(m.url)
            + VarString::wire(m.hash)
    }

    open spec fn decoded(s: Seq<u8>) -> Option<(ResourcePackSendModel, int)> {
        let r0 = VarString::decoded(s);
        let n0 = taken(r0);
        let f_url = read(r0);
        let r1 = VarString::decoded(s.skip(n0));
        let n1 = n0 + taken(r1);
        let f_hash = read(r1);
        if r0 is Some && r1 is Some {
            Some((ResourcePackSendModel { url: f_url, hash: f_hash }, n1))
        } else {
            None
        }
    }

    fn decode(data: &[u8]) -> (r: Option<(Self, usize)>) {
        let (f_url, k0) = match <VarString as Wire>::decode(data) {
            Some(x) => x,
            None => {
                return None;
            },
        };
        proof {
            VarString::lemma_decoded_bounds(data@);
        }
        let n0 = k0;
        let (f_hash, k1) = match <VarString as Wire>::decode(tail(data, n0)) {
            Some(x) => x,
            None => {
                return None;
            },
        };
        proof {
            VarString::lemma_decoded_bounds(data@.skip(n0 as int));
        }
        let n1 = n0 + k1;
        Some((ResourcePackSend { url: f_url, hash: f_hash }, n1))
    }

    fn encode(&self, out: &mut Vec<u8>) {
        self.url.encode(out);
        self.hash.encode(out);
        assert(out@ =~= old(out)@ + Self::wire(self@));
    }

    fn check(&self) -> (b: bool) {
        self.url.check()
            && self.hash.check()
    }

    proof fn lemma_decoded_bounds(s: Seq<u8>) {
        let r0 = VarString::decoded(s);
        VarString::lemma_decoded_bounds(s);
        let n0 = taken(r0);
        let f_url = read(r0);
        let r1 = VarString::decoded(s.skip(n0));
        VarString::lemma_decoded_bounds(s.skip(n0));
        let n1 = n0 + taken(r1);
        let f_hash = read(r1);
    }

    proof fn lemma_decoded_wire(m: ResourcePackSendModel, rest: Seq<u8>) {
        let s = Self::wire(m) + rest;
        let w0 = VarString::wire(m.url);
        let w1 = VarString::wire(m.hash);
        let p0 = w0;
        let p1 = p0 + w1;
        let t1 = rest;
        let t0 = w1 + t1;
        assert(s == p1 + t1);
        lemma_join(p0, w1, t1);
        assert(s.skip(0) =~= s);
        let a0 = 0int;
        lemma_field_read::<VarString>(s, a0, m.url, t0);
        let a1 = a0 + w0.len();
        lemma_field_read::<VarString>(s, a1, m.hash, t1);
    }
}

impl ClientboundPacket for ResourcePackSend {
    open spec fn listed() -> IDS {
        IDS::ResourcePackSend
    }

    open spec fn parsed(s: Seq<u8>) -> Option<ResourcePackSendModel> {
        match Self::decoded(s) {
            Some((m, _)) => Some(m),
            None => None,
        }
    }

    fn parse(data: &[u8]) -> (r: Result<Self, String>) {
        match Self::decode(data) {
            Some((p, _)) => Ok(p),
            None => Err(malformed("ResourcePackSend")),
        }
    }

    fn id() -> (r: IDS) {
        IDS::ResourcePackSend
    }
}

} // verus!
