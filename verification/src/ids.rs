//! The catalogue of packets: which packet a number names in each phase and
//! direction.
//!
//! A packet is known by its phase, its direction and its number. The same number
//! names different packets in different phases, so a number alone says nothing.

use vstd::prelude::*;

verus! {

/// The stage of a connection. It decides which packets the numbers name.
#[derive(Debug, Clone, Copy, PartialEq, Eq, Structural)]
pub enum Phase {
    Handshaking,
    Login,
    Play,
}

impl Phase {
    /// The place of the phase in the order in which a connection goes through
    /// them.
    pub open spec fn rank(self) -> int {
        match self {
            Phase::Handshaking => 0,
            Phase::Login => 1,
            Phase::Play => 2,
        }
    }

    /// Whether a connection in phase `self` may go on to `next`: phases are
    /// never gone back through.
    pub fn may_become(self, next: Phase) -> (b: bool)
        ensures
            b == (self.rank() <= next.rank()),
    {
        match (self, next) {
            (Phase::Handshaking, _) => true,
            (Phase::Login, Phase::Handshaking) => false,
            (Phase::Login, _) => true,
            (Phase::Play, Phase::Play) => true,
            (Phase::Play, _) => false,
        }
    }
}

/// Which way a packet travels, seen from the client.
#[derive(Debug, Clone, Copy, PartialEq, Eq, Structural)]
pub enum Direction {
    Clientbound,
    Serverbound,
}

/// The name of every packet of the protocol.
#[derive(Debug, Clone, Copy, PartialEq, Eq, Structural)]
pub enum IDS {
    // Handshaking, to the server
    Handshake,
    // Login, to the client
    DisconnectLogin,
    EncryptionRequest,
    LoginSuccess,
    SetCompressionLogin,
    // Login, to the server
    LoginStart,
    EncryptionResponse,
    // Play, to the client
    KeepAliveClientbound,
    JoinGame,
    ChatMessageClientbound,
    TimeUpdate,
    EntityEquipment,
    SpawnPosition,
    UpdateHealth,
    Respawn,
    PlayerPositionAndLookClientbound,
    HeldItemChangeClientbound,
    UseBed,
    AnimationClientbound,
    SpawnPlayer,
    CollectItem,
    SpawnObject,
    SpawnMob,
    SpawnPainting,
    SpawnExperienceOrb,
    EntityVelocity,
    DestroyEntities,
    Entity,
    EntityRelativeMove,
    EntityLook,
    EntityLookAndRelativeMove,
    EntityTeleport,
    EntityHeadLook,
    EntityStatus,
    AttachEntity,
    EntityMetadata,
    EntityEffect,
    RemoveEntityEffect,
    SetExperience,
    EntityProperties,
    ChunkData,
    MultiBlockChange,
    BlockChange,
    BlockAction,
    BlockBreakAnimation,
    MapChunkBulk,
    Explosion,
    Effect,
    SoundEffect,
    Particle,
    ChangeGameState,
    SpawnGlobalEntity,
    OpenWindow,
    CloseWindowClientbound,
    SetSlot,
    WindowItems,
    WindowProperty,
    ConfirmTransactionClientbound,
    UpdateSignClientbound,
    MapData,
    UpdateBlockEntity,
    OpenSignEditor,
    Statistics,
    PlayerListItem,
    PlayerAbilitiesClientbound,
    TabCompleteClientbound,
    ScoreboardObjective,
    UpdateScore,
    DisplayScoreboard,
    Teams,
    PluginMessageClientbound,
    DisconnectPlayClientbound,
    ServerDifficulty,
    CombatEvent,
    Camera,
    WorldBorder,
    Title,
    SetCompressionPlay,
    PlayerListHeaderAndFooter,
    ResourcePackSend,
    UpdateEntityNBT,
    // Play, to the server
    KeepAliveServerbound,
    ChatMessageServerbound,
    UseEntity,
    Player,
    PlayerPosition,
    PlayerLook,
    PlayerPositionAndLookServerbound,
    PlayerDigging,
    PlayerBlockPlacement,
    HeldItemChangeServerbound,
    AnimationServerbound,
    EntityAction,
    SteerVehicle,
    CloseWindowServerbound,
    ClickWindow,
    ConfirmTransactionServerbound,
    CreativeInventoryAction,
    EnchantItem,
    UpdateSignServerbound,
    PlayerAbilitiesServerbound,
    TabCompleteServerbound,
    ClientSettings,
    ClientStatus,
    PluginMessageServerbound,
    Spectate,
    ResourcePackStatus,
}

/// The packets of one phase and direction, each at the place of its number.
pub open spec fn catalogue(phase: Phase, direction: Direction) -> Seq<IDS> {
    match (phase, direction) {
        (Phase::Handshaking, Direction::Clientbound) => Seq::empty(),
        (Phase::Handshaking, Direction::Serverbound) => seq![IDS::Handshake],
        (Phase::Login, Direction::Clientbound) => seq![
            IDS::DisconnectLogin, IDS::EncryptionRequest,
            IDS::LoginSuccess, IDS::SetCompressionLogin,
        ],
        (Phase::Login, Direction::Serverbound) => seq![IDS::LoginStart, IDS::EncryptionResponse],
        (Phase::Play, Direction::Clientbound) => play_clientbound(),
        (Phase::Play, Direction::Serverbound) => play_serverbound(),
    }
}

/// The packets that the server sends during play, each at the place of its
/// number.
pub open spec fn play_clientbound() -> Seq<IDS> {
    seq![
        IDS::KeepAliveClientbound, IDS::JoinGame,
        IDS::ChatMessageClientbound, IDS::TimeUpdate,
        IDS::EntityEquipment, IDS::SpawnPosition,
        IDS::UpdateHealth, IDS::Respawn,
        IDS::PlayerPositionAndLookClientbound, IDS::HeldItemChangeClientbound,
        IDS::UseBed, IDS::AnimationClientbound,
        IDS::SpawnPlayer, IDS::CollectItem,
        IDS::SpawnObject, IDS::SpawnMob,
        IDS::SpawnPainting, IDS::SpawnExperienceOrb,
        IDS::EntityVelocity, IDS::DestroyEntities,
        IDS::Entity, IDS::EntityRelativeMove,
        IDS::EntityLook, IDS::EntityLookAndRelativeMove,
        IDS::EntityTeleport, IDS::EntityHeadLook,
        IDS::EntityStatus, IDS::AttachEntity,
        IDS::EntityMetadata, IDS::EntityEffect,
        IDS::RemoveEntityEffect, IDS::SetExperience,
        IDS::EntityProperties, IDS::ChunkData,
        IDS::MultiBlockChange, IDS::BlockChange,
        IDS::BlockAction, IDS::BlockBreakAnimation,
        IDS::MapChunkBulk, IDS::Explosion,
        IDS::Effect, IDS::SoundEffect,
        IDS::Particle, IDS::ChangeGameState,
        IDS::SpawnGlobalEntity, IDS::OpenWindow,
        IDS::CloseWindowClientbound, IDS::SetSlot,
        IDS::WindowItems, IDS::WindowProperty,
        IDS::ConfirmTransactionClientbound, IDS::UpdateSignClientbound,
        IDS::MapData, IDS::UpdateBlockEntity,
        IDS::OpenSignEditor, IDS::Statistics,
        IDS::PlayerListItem, IDS::PlayerAbilitiesClientbound,
        IDS::TabCompleteClientbound, IDS::ScoreboardObjective,
        IDS::UpdateScore, IDS::DisplayScoreboard,
        IDS::Teams, IDS::PluginMessageClientbound,
        IDS::DisconnectPlayClientbound, IDS::ServerDifficulty,
        IDS::CombatEvent, IDS::Camera,
        IDS::WorldBorder, IDS::Title,
        IDS::SetCompressionPlay, IDS::PlayerListHeaderAndFooter,
        IDS::ResourcePackSend, IDS::UpdateEntityNBT,
    ]
}

/// The packets that the client sends during play, each at the place of its
/// number.
pub open spec fn play_serverbound() -> Seq<IDS> {
    seq![
        IDS::KeepAliveServerbound, IDS::ChatMessageServerbound,
        IDS::UseEntity, IDS::Player,
        IDS::PlayerPosition, IDS::PlayerLook,
        IDS::PlayerPositionAndLookServerbound, IDS::PlayerDigging,
        IDS::PlayerBlockPlacement, IDS::HeldItemChangeServerbound,
        IDS::AnimationServerbound, IDS::EntityAction,
        IDS::SteerVehicle, IDS::CloseWindowServerbound,
        IDS::ClickWindow, IDS::ConfirmTransactionServerbound,
        IDS::CreativeInventoryAction, IDS::EnchantItem,
        IDS::UpdateSignServerbound, IDS::PlayerAbilitiesServerbound,
        IDS::TabCompleteServerbound, IDS::ClientSettings,
        IDS::ClientStatus, IDS::PluginMessageServerbound,
        IDS::Spectate, IDS::ResourcePackStatus,
    ]
}

impl IDS {
    /// The phase in which the packet is exchanged.
    pub open spec fn spec_phase(self) -> Phase {
        match self {
            IDS::Handshake => Phase::Handshaking,
            IDS::DisconnectLogin
            | IDS::EncryptionRequest
            | IDS::LoginSuccess
            | IDS::SetCompressionLogin
            | IDS::LoginStart
            | IDS::EncryptionResponse => Phase::Login,
            _ => Phase::Play,
        }
    }

    /// The direction in which the packet travels.
    pub open spec fn spec_direction(self) -> Direction {
        match self {
            IDS::Handshake | IDS::LoginStart | IDS::EncryptionResponse => Direction::Serverbound,
            IDS::KeepAliveServerbound
            | IDS::ChatMessageServerbound
            | IDS::UseEntity
            | IDS::Player
            | IDS::PlayerPosition
            | IDS::PlayerLook
            | IDS::PlayerPositionAndLookServerbound
            | IDS::PlayerDigging
            | IDS::PlayerBlockPlacement
            | IDS::HeldItemChangeServerbound
            | IDS::AnimationServerbound
            | IDS::EntityAction
            | IDS::SteerVehicle
            | IDS::CloseWindowServerbound
            | IDS::ClickWindow
            | IDS::ConfirmTransactionServerbound
            | IDS::CreativeInventoryAction
            | IDS::EnchantItem
            | IDS::UpdateSignServerbound
            | IDS::PlayerAbilitiesServerbound
            | IDS::TabCompleteServerbound
            | IDS::ClientSettings
            | IDS::ClientStatus
            | IDS::PluginMessageServerbound
            | IDS::Spectate
            | IDS::ResourcePackStatus => Direction::Serverbound,
            _ => Direction::Clientbound,
        }
    }

    /// The packet's number.
    pub open spec fn number(self) -> int {
        match self {
            IDS::Handshake => 0x00,
            IDS::DisconnectLogin => 0x00,
            IDS::EncryptionRequest => 0x01,
            IDS::LoginSuccess => 0x02,
            IDS::SetCompressionLogin => 0x03,
            IDS::LoginStart => 0x00,
            IDS::EncryptionResponse => 0x01,
            IDS::KeepAliveClientbound => 0x00,
            IDS::JoinGame => 0x01,
            IDS::ChatMessageClientbound => 0x02,
            IDS::TimeUpdate => 0x03,
            IDS::EntityEquipment => 0x04,
            IDS::SpawnPosition => 0x05,
            IDS::UpdateHealth => 0x06,
            IDS::Respawn => 0x07,
            IDS::PlayerPositionAndLookClientbound => 0x08,
            IDS::HeldItemChangeClientbound => 0x09,
            IDS::UseBed => 0x0A,
            IDS::AnimationClientbound => 0x0B,
            IDS::SpawnPlayer => 0x0C,
            IDS::CollectItem => 0x0D,
            IDS::SpawnObject => 0x0E,
            IDS::SpawnMob => 0x0F,
            IDS::SpawnPainting => 0x10,
            IDS::SpawnExperienceOrb => 0x11,
            IDS::EntityVelocity => 0x12,
            IDS::DestroyEntities => 0x13,
            IDS::Entity => 0x14,
            IDS::EntityRelativeMove => 0x15,
            IDS::EntityLook => 0x16,
            IDS::EntityLookAndRelativeMove => 0x17,
            IDS::EntityTeleport => 0x18,
            IDS::EntityHeadLook => 0x19,
            IDS::EntityStatus => 0x1A,
            IDS::AttachEntity => 0x1B,
            IDS::EntityMetadata => 0x1C,
            IDS::EntityEffect => 0x1D,
            IDS::RemoveEntityEffect => 0x1E,
            IDS::SetExperience => 0x1F,
            IDS::EntityProperties => 0x20,
            IDS::ChunkData => 0x21,
            IDS::MultiBlockChange => 0x22,
            IDS::BlockChange => 0x23,
            IDS::BlockAction => 0x24,
            IDS::BlockBreakAnimation => 0x25,
            IDS::MapChunkBulk => 0x26,
            IDS::Explosion => 0x27,
            IDS::Effect => 0x28,
            IDS::SoundEffect => 0x29,
            IDS::Particle => 0x2A,
            IDS::ChangeGameState => 0x2B,
            IDS::SpawnGlobalEntity => 0x2C,
            IDS::OpenWindow => 0x2D,
            IDS::CloseWindowClientbound => 0x2E,
            IDS::SetSlot => 0x2F,
            IDS::WindowItems => 0x30,
            IDS::WindowProperty => 0x31,
            IDS::ConfirmTransactionClientbound => 0x32,
            IDS::UpdateSignClientbound => 0x33,
            IDS::MapData => 0x34,
            IDS::UpdateBlockEntity => 0x35,
            IDS::OpenSignEditor => 0x36,
            IDS::Statistics => 0x37,
            IDS::PlayerListItem => 0x38,
            IDS::PlayerAbilitiesClientbound => 0x39,
            IDS::TabCompleteClientbound => 0x3A,
            IDS::ScoreboardObjective => 0x3B,
            IDS::UpdateScore => 0x3C,
            IDS::DisplayScoreboard => 0x3D,
            IDS::Teams => 0x3E,
            IDS::PluginMessageClientbound => 0x3F,
            IDS::DisconnectPlayClientbound => 0x40,
            IDS::ServerDifficulty => 0x41,
            IDS::CombatEvent => 0x42,
            IDS::Camera => 0x43,
            IDS::WorldBorder => 0x44,
            IDS::Title => 0x45,
            IDS::SetCompressionPlay => 0x46,
            IDS::PlayerListHeaderAndFooter => 0x47,
            IDS::ResourcePackSend => 0x48,
            IDS::UpdateEntityNBT => 0x49,
            IDS::KeepAliveServerbound => 0x00,
            IDS::ChatMessageServerbound => 0x01,
            IDS::UseEntity => 0x02,
            IDS::Player => 0x03,
            IDS::PlayerPosition => 0x04,
            IDS::PlayerLook => 0x05,
            IDS::PlayerPositionAndLookServerbound => 0x06,
            IDS::PlayerDigging => 0x07,
            IDS::PlayerBlockPlacement => 0x08,
            IDS::HeldItemChangeServerbound => 0x09,
            IDS::AnimationServerbound => 0x0A,
            IDS::EntityAction => 0x0B,
            IDS::SteerVehicle => 0x0C,
            IDS::CloseWindowServerbound => 0x0D,
            IDS::ClickWindow => 0x0E,
            IDS::ConfirmTransactionServerbound => 0x0F,
            IDS::CreativeInventoryAction => 0x10,
            IDS::EnchantItem => 0x11,
            IDS::UpdateSignServerbound => 0x12,
            IDS::PlayerAbilitiesServerbound => 0x13,
            IDS::TabCompleteServerbound => 0x14,
            IDS::ClientSettings => 0x15,
            IDS::ClientStatus => 0x16,
            IDS::PluginMessageServerbound => 0x17,
            IDS::Spectate => 0x18,
            IDS::ResourcePackStatus => 0x19,
        }
    }

    /// The packet's number, which is its place in the catalogue of its phase
    /// and direction.
    pub fn parse(&self) -> (id: i32)
        ensures
            id == self.number(),
            0 <= id < catalogue(self.spec_phase(), self.spec_direction()).len(),
            catalogue(self.spec_phase(), self.spec_direction())[id as int] == *self,
    {
        match self {
            IDS::Handshake => 0x00,
            IDS::DisconnectLogin => 0x00,
            IDS::EncryptionRequest => 0x01,
            IDS::LoginSuccess => 0x02,
            IDS::SetCompressionLogin => 0x03,
            IDS::LoginStart => 0x00,
            IDS::EncryptionResponse => 0x01,
            IDS::KeepAliveClientbound => 0x00,
            IDS::JoinGame => 0x01,
            IDS::ChatMessageClientbound => 0x02,
            IDS::TimeUpdate => 0x03,
            IDS::EntityEquipment => 0x04,
            IDS::SpawnPosition => 0x05,
            IDS::UpdateHealth => 0x06,
            IDS::Respawn => 0x07,
            IDS::PlayerPositionAndLookClientbound => 0x08,
            IDS::HeldItemChangeClientbound => 0x09,
            IDS::UseBed => 0x0A,
            IDS::AnimationClientbound => 0x0B,
            IDS::SpawnPlayer => 0x0C,
            IDS::CollectItem => 0x0D,
            IDS::SpawnObject => 0x0E,
            IDS::SpawnMob => 0x0F,
            IDS::SpawnPainting => 0x10,
            IDS::SpawnExperienceOrb => 0x11,
            IDS::EntityVelocity => 0x12,
            IDS::DestroyEntities => 0x13,
            IDS::Entity => 0x14,
            IDS::EntityRelativeMove => 0x15,
            IDS::EntityLook => 0x16,
            IDS::EntityLookAndRelativeMove => 0x17,
            IDS::EntityTeleport => 0x18,
            IDS::EntityHeadLook => 0x19,
            IDS::EntityStatus => 0x1A,
            IDS::AttachEntity => 0x1B,
            IDS::EntityMetadata => 0x1C,
            IDS::EntityEffect => 0x1D,
            IDS::RemoveEntityEffect => 0x1E,
            IDS::SetExperience => 0x1F,
            IDS::EntityProperties => 0x20,
            IDS::ChunkData => 0x21,
            IDS::MultiBlockChange => 0x22,
            IDS::BlockChange => 0x23,
            IDS::BlockAction => 0x24,
            IDS::BlockBreakAnimation => 0x25,
            IDS::MapChunkBulk => 0x26,
            IDS::Explosion => 0x27,
            IDS::Effect => 0x28,
            IDS::SoundEffect => 0x29,
            IDS::Particle => 0x2A,
            IDS::ChangeGameState => 0x2B,
            IDS::SpawnGlobalEntity => 0x2C,
            IDS::OpenWindow => 0x2D,
            IDS::CloseWindowClientbound => 0x2E,
            IDS::SetSlot => 0x2F,
            IDS::WindowItems => 0x30,
            IDS::WindowProperty => 0x31,
            IDS::ConfirmTransactionClientbound => 0x32,
            IDS::UpdateSignClientbound => 0x33,
            IDS::MapData => 0x34,
            IDS::UpdateBlockEntity => 0x35,
            IDS::OpenSignEditor => 0x36,
            IDS::Statistics => 0x37,
            IDS::PlayerListItem => 0x38,
            IDS::PlayerAbilitiesClientbound => 0x39,
            IDS::TabCompleteClientbound => 0x3A,
            IDS::ScoreboardObjective => 0x3B,
            IDS::UpdateScore => 0x3C,
            IDS::DisplayScoreboard => 0x3D,
            IDS::Teams => 0x3E,
            IDS::PluginMessageClientbound => 0x3F,
            IDS::DisconnectPlayClientbound => 0x40,
            IDS::ServerDifficulty => 0x41,
            IDS::CombatEvent => 0x42,
            IDS::Camera => 0x43,
            IDS::WorldBorder => 0x44,
            IDS::Title => 0x45,
            IDS::SetCompressionPlay => 0x46,
            IDS::PlayerListHeaderAndFooter => 0x47,
            IDS::ResourcePackSend => 0x48,
            IDS::UpdateEntityNBT => 0x49,
            IDS::KeepAliveServerbound => 0x00,
            IDS::ChatMessageServerbound => 0x01,
            IDS::UseEntity => 0x02,
            IDS::Player => 0x03,
            IDS::PlayerPosition => 0x04,
            IDS::PlayerLook => 0x05,
            IDS::PlayerPositionAndLookServerbound => 0x06,
            IDS::PlayerDigging => 0x07,
            IDS::PlayerBlockPlacement => 0x08,
            IDS::HeldItemChangeServerbound => 0x09,
            IDS::AnimationServerbound => 0x0A,
            IDS::EntityAction => 0x0B,
            IDS::SteerVehicle => 0x0C,
            IDS::CloseWindowServerbound => 0x0D,
            IDS::ClickWindow => 0x0E,
            IDS::ConfirmTransactionServerbound => 0x0F,
            IDS::CreativeInventoryAction => 0x10,
            IDS::EnchantItem => 0x11,
            IDS::UpdateSignServerbound => 0x12,
            IDS::PlayerAbilitiesServerbound => 0x13,
            IDS::TabCompleteServerbound => 0x14,
            IDS::ClientSettings => 0x15,
            IDS::ClientStatus => 0x16,
            IDS::PluginMessageServerbound => 0x17,
            IDS::Spectate => 0x18,
            IDS::ResourcePackStatus => 0x19,
        }
    }

    /// The phase in which the packet is exchanged.
    #[verifier::when_used_as_spec(spec_phase)]
    pub fn phase(self) -> (p: Phase)
        ensures
            p == self.spec_phase(),
    {
        match self {
            IDS::Handshake => Phase::Handshaking,
            IDS::DisconnectLogin
            | IDS::EncryptionRequest
            | IDS::LoginSuccess
            | IDS::SetCompressionLogin
            | IDS::LoginStart
            | IDS::EncryptionResponse => Phase::Login,
            _ => Phase::Play,
        }
    }

    /// The direction in which the packet travels.
    #[verifier::when_used_as_spec(spec_direction)]
    pub fn direction(self) -> (d: Direction)
        ensures
            d == self.spec_direction(),
    {
        match self {
            IDS::Handshake | IDS::LoginStart | IDS::EncryptionResponse => Direction::Serverbound,
            IDS::KeepAliveServerbound
            | IDS::ChatMessageServerbound
            | IDS::UseEntity
            | IDS::Player
            | IDS::PlayerPosition
            | IDS::PlayerLook
            | IDS::PlayerPositionAndLookServerbound
            | IDS::PlayerDigging
            | IDS::PlayerBlockPlacement
            | IDS::HeldItemChangeServerbound
            | IDS::AnimationServerbound
            | IDS::EntityAction
            | IDS::SteerVehicle
            | IDS::CloseWindowServerbound
            | IDS::ClickWindow
            | IDS::ConfirmTransactionServerbound
            | IDS::CreativeInventoryAction
            | IDS::EnchantItem
            | IDS::UpdateSignServerbound
            | IDS::PlayerAbilitiesServerbound
            | IDS::TabCompleteServerbound
            | IDS::ClientSettings
            | IDS::ClientStatus
            | IDS::PluginMessageServerbound
            | IDS::Spectate
            | IDS::ResourcePackStatus => Direction::Serverbound,
            _ => Direction::Clientbound,
        }
    }

    /// The packet that the server sends under the number `id` during login, if
    /// there is one.
    pub fn from_login_clientbound_id(id: i32) -> (r: Option<Self>)
        ensures
            r == Self::named(Phase::Login, Direction::Clientbound, id as int),
    {
        match id {
            0x00 => Some(IDS::DisconnectLogin),
            0x01 => Some(IDS::EncryptionRequest),
            0x02 => Some(IDS::LoginSuccess),
            0x03 => Some(IDS::SetCompressionLogin),
            _ => None,
        }
    }

    /// The packet that the server sends under the number `id` during play, if
    /// there is one.
    pub fn from_play_clientbound_id(id: i32) -> (r: Option<Self>)
        ensures
            r == Self::named(Phase::Play, Direction::Clientbound, id as int),
    {
        match id {
            0x00 => Some(IDS::KeepAliveClientbound),
            0x01 => Some(IDS::JoinGame),
            0x02 => Some(IDS::ChatMessageClientbound),
            0x03 => Some(IDS::TimeUpdate),
            0x04 => Some(IDS::EntityEquipment),
            0x05 => Some(IDS::SpawnPosition),
            0x06 => Some(IDS::UpdateHealth),
            0x07 => Some(IDS::Respawn),
            0x08 => Some(IDS::PlayerPositionAndLookClientbound),
            0x09 => Some(IDS::HeldItemChangeClientbound),
            0x0A => Some(IDS::UseBed),
            0x0B => Some(IDS::AnimationClientbound),
            0x0C => Some(IDS::SpawnPlayer),
            0x0D => Some(IDS::CollectItem),
            0x0E => Some(IDS::SpawnObject),
            0x0F => Some(IDS::SpawnMob),
            0x10 => Some(IDS::SpawnPainting),
            0x11 => Some(IDS::SpawnExperienceOrb),
            0x12 => Some(IDS::EntityVelocity),
            0x13 => Some(IDS::DestroyEntities),
            0x14 => Some(IDS::Entity),
            0x15 => Some(IDS::EntityRelativeMove),
            0x16 => Some(IDS::EntityLook),
            0x17 => Some(IDS::EntityLookAndRelativeMove),
            0x18 => Some(IDS::EntityTeleport),
            0x19 => Some(IDS::EntityHeadLook),
            0x1A => Some(IDS::EntityStatus),
            0x1B => Some(IDS::AttachEntity),
            0x1C => Some(IDS::EntityMetadata),
            0x1D => Some(IDS::EntityEffect),
            0x1E => Some(IDS::RemoveEntityEffect),
            0x1F => Some(IDS::SetExperience),
            0x20 => Some(IDS::EntityProperties),
            0x21 => Some(IDS::ChunkData),
            0x22 => Some(IDS::MultiBlockChange),
            0x23 => Some(IDS::BlockChange),
            0x24 => Some(IDS::BlockAction),
            0x25 => Some(IDS::BlockBreakAnimation),
            0x26 => Some(IDS::MapChunkBulk),
            0x27 => Some(IDS::Explosion),
            0x28 => Some(IDS::Effect),
            0x29 => Some(IDS::SoundEffect),
            0x2A => Some(IDS::Particle),
            0x2B => Some(IDS::ChangeGameState),
            0x2C => Some(IDS::SpawnGlobalEntity),
            0x2D => Some(IDS::OpenWindow),
            0x2E => Some(IDS::CloseWindowClientbound),
            0x2F => Some(IDS::SetSlot),
            0x30 => Some(IDS::WindowItems),
            0x31 => Some(IDS::WindowProperty),
            0x32 => Some(IDS::ConfirmTransactionClientbound),
            0x33 => Some(IDS::UpdateSignClientbound),
            0x34 => Some(IDS::MapData),
            0x35 => Some(IDS::UpdateBlockEntity),
            0x36 => Some(IDS::OpenSignEditor),
            0x37 => Some(IDS::Statistics),
            0x38 => Some(IDS::PlayerListItem),
            0x39 => Some(IDS::PlayerAbilitiesClientbound),
            0x3A => Some(IDS::TabCompleteClientbound),
            0x3B => Some(IDS::ScoreboardObjective),
            0x3C => Some(IDS::UpdateScore),
            0x3D => Some(IDS::DisplayScoreboard),
            0x3E => Some(IDS::Teams),
            0x3F => Some(IDS::PluginMessageClientbound),
            0x40 => Some(IDS::DisconnectPlayClientbound),
            0x41 => Some(IDS::ServerDifficulty),
            0x42 => Some(IDS::CombatEvent),
            0x43 => Some(IDS::Camera),
            0x44 => Some(IDS::WorldBorder),
            0x45 => Some(IDS::Title),
            0x46 => Some(IDS::SetCompressionPlay),
            0x47 => Some(IDS::PlayerListHeaderAndFooter),
            0x48 => Some(IDS::ResourcePackSend),
            0x49 => Some(IDS::UpdateEntityNBT),
            _ => None,
        }
    }

    /// The packet that the client sends under the number `id` in `phase`, if
    /// there is one.
    pub fn from_serverbound_id(phase: Phase, id: i32) -> (r: Option<Self>)
        ensures
            r == Self::named(phase, Direction::Serverbound, id as int),
    {
        match phase {
            Phase::Handshaking => match id {
                0x00 => Some(IDS::Handshake),
                _ => None,
            },
            Phase::Login => match id {
                0x00 => Some(IDS::LoginStart),
                0x01 => Some(IDS::EncryptionResponse),
                _ => None,
            },
            Phase::Play => match id {
                0x00 => Some(IDS::KeepAliveServerbound),
                0x01 => Some(IDS::ChatMessageServerbound),
                0x02 => Some(IDS::UseEntity),
                0x03 => Some(IDS::Player),
                0x04 => Some(IDS::PlayerPosition),
                0x05 => Some(IDS::PlayerLook),
                0x06 => Some(IDS::PlayerPositionAndLookServerbound),
                0x07 => Some(IDS::PlayerDigging),
                0x08 => Some(IDS::PlayerBlockPlacement),
                0x09 => Some(IDS::HeldItemChangeServerbound),
                0x0A => Some(IDS::AnimationServerbound),
                0x0B => Some(IDS::EntityAction),
                0x0C => Some(IDS::SteerVehicle),
                0x0D => Some(IDS::CloseWindowServerbound),
                0x0E => Some(IDS::ClickWindow),
                0x0F => Some(IDS::ConfirmTransactionServerbound),
                0x10 => Some(IDS::CreativeInventoryAction),
                0x11 => Some(IDS::EnchantItem),
                0x12 => Some(IDS::UpdateSignServerbound),
                0x13 => Some(IDS::PlayerAbilitiesServerbound),
                0x14 => Some(IDS::TabCompleteServerbound),
                0x15 => Some(IDS::ClientSettings),
                0x16 => Some(IDS::ClientStatus),
                0x17 => Some(IDS::PluginMessageServerbound),
                0x18 => Some(IDS::Spectate),
                0x19 => Some(IDS::ResourcePackStatus),
                _ => None,
            },
        }
    }

    /// The packet that `id` names in the given phase and direction: the one at
    /// that place of the catalogue, and none where the catalogue has no such
    /// place.
    pub open spec fn named(phase: Phase, direction: Direction, id: int) -> Option<IDS> {
        if 0 <= id < catalogue(phase, direction).len() {
            Some(catalogue(phase, direction)[id])
        } else {
            None
        }
    }

    /// The packet that the server sends under the number `id` in `phase`, if
    /// there is one. Nothing is sent to the client while handshaking.
    pub fn from_clientbound_id(phase: Phase, id: i32) -> (r: Option<Self>)
        ensures
            r == Self::named(phase, Direction::Clientbound, id as int),
    {
        match phase {
            Phase::Handshaking => None,
            Phase::Login => Self::from_login_clientbound_id(id),
            Phase::Play => Self::from_play_clientbound_id(id),
        }
    }
}

/// A packet is found again under its own number, in its own phase and
/// direction.
pub proof fn lemma_named_by_own_number(packet: IDS)
    ensures
        IDS::named(packet.spec_phase(), packet.spec_direction(), packet.number()) == Some(packet),
{
}

/// The packet that a number names has that number.
pub proof fn lemma_number_of_named(phase: Phase, direction: Direction, id: int)
    ensures
        IDS::named(phase, direction, id) matches Some(packet) ==> packet.number() == id
            && packet.spec_phase() == phase && packet.spec_direction() == direction,
{
    if 0 <= id < catalogue(phase, direction).len() {
        lemma_catalogue_sound(phase, direction, id);
        if phase == Phase::Play && direction == Direction::Clientbound {
            lemma_play_clientbound_numbers(id);
        } else if phase == Phase::Play {
            lemma_play_serverbound_numbers(id);
        }
    }
}

proof fn lemma_play_clientbound_numbers(id: int)
    requires
        0 <= id < play_clientbound().len(),
    ensures
        play_clientbound()[id].number() == id,
{
    let table = play_clientbound();
    assert(table[0].number() == 0);
    assert(table[1].number() == 1);
    assert(table[2].number() == 2);
    assert(table[3].number() == 3);
    assert(table[4].number() == 4);
    assert(table[5].number() == 5);
    assert(table[6].number() == 6);
    assert(table[7].number() == 7);
    assert(table[8].number() == 8);
    assert(table[9].number() == 9);
    assert(table[10].number() == 10);
    assert(table[11].number() == 11);
    assert(table[12].number() == 12);
    assert(table[13].number() == 13);
    assert(table[14].number() == 14);
    assert(table[15].number() == 15);
    assert(table[16].number() == 16);
    assert(table[17].number() == 17);
    assert(table[18].number() == 18);
    assert(table[19].number() == 19);
    assert(table[20].number() == 20);
    assert(table[21].number() == 21);
    assert(table[22].number() == 22);
    assert(table[23].number() == 23);
    assert(table[24].number() == 24);
    assert(table[25].number() == 25);
    assert(table[26].number() == 26);
    assert(table[27].number() == 27);
    assert(table[28].number() == 28);
    assert(table[29].number() == 29);
    assert(table[30].number() == 30);
    assert(table[31].number() == 31);
    assert(table[32].number() == 32);
    assert(table[33].number() == 33);
    assert(table[34].number() == 34);
    assert(table[35].number() == 35);
    assert(table[36].number() == 36);
    assert(table[37].number() == 37);
    assert(table[38].number() == 38);
    assert(table[39].number() == 39);
    assert(table[40].number() == 40);
    assert(table[41].number() == 41);
    assert(table[42].number() == 42);
    assert(table[43].number() == 43);
    assert(table[44].number() == 44);
    assert(table[45].number() == 45);
    assert(table[46].number() == 46);
    assert(table[47].number() == 47);
    assert(table[48].number() == 48);
    assert(table[49].number() == 49);
    assert(table[50].number() == 50);
    assert(table[51].number() == 51);
    assert(table[52].number() == 52);
    assert(table[53].number() == 53);
    assert(table[54].number() == 54);
    assert(table[55].number() == 55);
    assert(table[56].number() == 56);
    assert(table[57].number() == 57);
    assert(table[58].number() == 58);
    assert(table[59].number() == 59);
    assert(table[60].number() == 60);
    assert(table[61].number() == 61);
    assert(table[62].number() == 62);
    assert(table[63].number() == 63);
    assert(table[64].number() == 64);
    assert(table[65].number() == 65);
    assert(table[66].number() == 66);
    assert(table[67].number() == 67);
    assert(table[68].number() == 68);
    assert(table[69].number() == 69);
    assert(table[70].number() == 70);
    assert(table[71].number() == 71);
    assert(table[72].number() == 72);
    assert(table[73].number() == 73);
}

proof fn lemma_play_serverbound_numbers(id: int)
    requires
        0 <= id < play_serverbound().len(),
    ensures
        play_serverbound()[id].number() == id,
{
    let table = play_serverbound();
    assert(table[0].number() == 0);
    assert(table[1].number() == 1);
    assert(table[2].number() == 2);
    assert(table[3].number() == 3);
    assert(table[4].number() == 4);
    assert(table[5].number() == 5);
    assert(table[6].number() == 6);
    assert(table[7].number() == 7);
    assert(table[8].number() == 8);
    assert(table[9].number() == 9);
    assert(table[10].number() == 10);
    assert(table[11].number() == 11);
    assert(table[12].number() == 12);
    assert(table[13].number() == 13);
    assert(table[14].number() == 14);
    assert(table[15].number() == 15);
    assert(table[16].number() == 16);
    assert(table[17].number() == 17);
    assert(table[18].number() == 18);
    assert(table[19].number() == 19);
    assert(table[20].number() == 20);
    assert(table[21].number() == 21);
    assert(table[22].number() == 22);
    assert(table[23].number() == 23);
    assert(table[24].number() == 24);
    assert(table[25].number() == 25);
}

/// Every packet of a catalogue belongs to the phase and direction of that
/// catalogue, so no packet has two numbers or two places.
pub proof fn lemma_catalogue_sound(phase: Phase, direction: Direction, id: int)
    requires
        0 <= id < catalogue(phase, direction).len(),
    ensures
        catalogue(phase, direction)[id].spec_phase() == phase,
        catalogue(phase, direction)[id].spec_direction() == direction,
{
}

} // verus!
