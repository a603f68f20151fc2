use minecraft_protocol::arrays::{ByteArray, CountedArray, VarIntArray};
use minecraft_protocol::basic::{Angle, Boolean, Position, UUID};
use minecraft_protocol::fixed::{Byte, Double, Float, Int, Long, Short, UnsignedByte, UnsignedShort};
use minecraft_protocol::ids::{Direction, IDS};
use minecraft_protocol::metadata::{EntityMetadata, MetadataEntry, MetadataValue};
use minecraft_protocol::optional::{IntCountedArray, Optional, OptionalNbt, ShortCountedArray};
use minecraft_protocol::packets::chunk::{count_sections, ChunkData, ChunkSection, MapChunkBulk};
use minecraft_protocol::packets::entity::{
    DestroyEntities, EntityMetadataPacket, EntityProperties, Property, PropertyModifier, SpawnObject,
    SpawnPlayer, UpdateEntityNBT, Velocity,
};
use minecraft_protocol::packets::login::{EncryptionResponse, Handshake, SetCompressionLogin};
use minecraft_protocol::packets::player::{
    CombatDeath, CombatEnd, CombatEvent, CombatEventKind, JoinGame, KeepAliveClientbound, ObjectiveInfo,
    ObjectiveMode, PlayerListAction, PlayerListAdd, PlayerListDisplayName, PlayerListItem, PlayerProperty,
    ScoreboardObjective, Statistic, Statistics, TabCompleteClientbound, TeamCreation, TeamInfo, Teams,
    TeamsMode, Title, TitleAction, TitleTimes, UpdateScore,
};
use minecraft_protocol::packets::plugin::{PluginMessageClientbound, PluginMessageServerbound};
use minecraft_protocol::packets::serverbound::{
    AnimationServerbound, ClickWindow, PlayerAbilitiesServerbound, PlayerBlockPlacement, ResourcePackStatus,
    TabCompleteServerbound, UpdateSignServerbound,
};
use minecraft_protocol::packets::window::{is_horse_window, OpenWindow, SetSlot, WindowItems};
use minecraft_protocol::packets::world::{
    ChunkMeta, Explosion, ExplosionRecord, MapArea, MapData, MapIcon, Particle, UpdateBlockEntity, WorldBorder,
    WorldBorderAction, WorldBorderCenter, WorldBorderInit, WorldBorderLerp,
};
use minecraft_protocol::packets::{malformed, unsendable, ClientboundPacket, ServerboundPacket};
use minecraft_protocol::slot::Slot;
use minecraft_protocol::text::VarString;
use minecraft_protocol::varint::{VarInt, VarLong};
use minecraft_protocol::wire::Wire;

fn s(text: &str) -> VarString {
    VarString(text.to_string())
}

fn encoded<T: Wire>(v: &T) -> Vec<u8> {
    assert!(v.check());
    let mut out = Vec::new();
    v.encode(&mut out);
    out
}

// a value is read back from its bytes, and leaves alone what follows them
fn round_trip<T: Wire + PartialEq + std::fmt::Debug>(v: T, expected: &[u8]) {
    let bytes = encoded(&v);
    assert_eq!(bytes, expected);
    let mut longer = bytes.clone();
    longer.extend([0xAB, 0xCD]);
    let (back, n) = T::decode(&longer).unwrap();
    assert_eq!(n, bytes.len());
    assert_eq!(back, v);
    if !bytes.is_empty() {
        assert!(T::decode(&bytes[..bytes.len() - 1]).map_or(true, |(_, k)| k < bytes.len()));
    }
}

#[test]
fn join_game_is_flat() {
    let bytes = [0, 0, 1, 0x2C, 1, 0xFF, 2, 20, 7, b'd', b'e', b'f', b'a', b'u', b'l', b't', 0];
    let expected = JoinGame {
        entity_id: Int(300),
        game_mode: UnsignedByte(1),
        dimension: Byte(-1),
        difficulty: UnsignedByte(2),
        max_players: UnsignedByte(20),
        level_type: s("default"),
        reduced_debug_info: Boolean(false),
    };
    assert_eq!(JoinGame::parse(&bytes), Ok(expected.clone()));
    assert_eq!(JoinGame::id(), IDS::JoinGame);
    assert_eq!(JoinGame::id().direction(), Direction::Clientbound);
    round_trip(expected, &bytes);
    assert!(JoinGame::parse(&bytes[..16]).is_err());
    assert!(JoinGame::parse(&[]).is_err());
}

#[test]
fn parse_names_the_packet_in_its_error() {
    assert_eq!(JoinGame::parse(&[1, 2]), Err("malformed packet: JoinGame".to_string()));
    assert_eq!(malformed("X"), "malformed packet: X");
    assert_eq!(unsendable("Y"), "packet cannot be written: Y");
}

#[test]
fn parse_leaves_trailing_bytes_aside() {
    assert_eq!(KeepAliveClientbound::parse(&[5, 9, 9]), Ok(KeepAliveClientbound { keep_alive_id: VarInt(5) }));
    assert_eq!(SetCompressionLogin::parse(&[0x80, 0x02]), Ok(SetCompressionLogin { threshold: VarInt(256) }));
}

#[test]
fn handshake_fields() {
    let h = Handshake::new(VarInt(47), s("localhost"), UnsignedShort(25565), VarInt(2));
    assert_eq!(h.id(), IDS::Handshake);
    assert_eq!(
        h.to_bytes(),
        Ok(vec![0x2F, 0x09, 0x6C, 0x6F, 0x63, 0x61, 0x6C, 0x68, 0x6F, 0x73, 0x74, 0x63, 0xDD, 0x02])
    );
    let long = Handshake::new(VarInt(47), s(&"x".repeat(40000)), UnsignedShort(1), VarInt(1));
    assert_eq!(long.to_bytes(), Err("packet cannot be written: Handshake".to_string()));
}

#[test]
fn encryption_response_fields() {
    let r = EncryptionResponse::new(ByteArray { bytes: vec![1, 2] }, ByteArray { bytes: vec![] });
    assert_eq!(r.to_bytes(), Ok(vec![2, 1, 2, 0]));
    assert_eq!(r.id(), IDS::EncryptionResponse);
}

#[test]
fn packet_without_fields() {
    let p = AnimationServerbound::new();
    assert_eq!(p.to_bytes(), Ok(vec![]));
    assert_eq!(p.id(), IDS::AnimationServerbound);
    assert_eq!(<AnimationServerbound as Wire>::decode(&[1, 2]), Some((AnimationServerbound {}, 0)));
}

#[test]
fn spawn_player_with_metadata() {
    let mut bytes = vec![5];
    bytes.extend(0u8..16);
    bytes.extend([0, 0, 0, 1, 0, 0, 0, 2, 0xFF, 0xFF, 0xFF, 0xFD, 64, 128, 0, 9]);
    bytes.extend([0x00, 0x01, 0x7F]);
    let mut id = [0u8; 16];
    for (i, b) in id.iter_mut().enumerate() {
        *b = i as u8;
    }
    let expected = SpawnPlayer {
        entity_id: VarInt(5),
        player_uuid: UUID(id),
        x: Int(1),
        y: Int(2),
        z: Int(-3),
        yaw: Angle(64),
        pitch: Angle(128),
        current_item: Short(9),
        metadata: EntityMetadata { entries: vec![MetadataEntry { index: 0, value: MetadataValue::Byte(1) }] },
    };
    assert_eq!(SpawnPlayer::parse(&bytes), Ok(expected.clone()));
    round_trip(expected, &bytes);
    let meta = EntityMetadataPacket { entity_id: VarInt(1), metadata: EntityMetadata { entries: vec![] } };
    assert_eq!(EntityMetadataPacket::id(), IDS::EntityMetadata);
    round_trip(meta, &[1, 0x7F]);
}

#[test]
fn spawn_object_velocity_only_with_data() {
    let head = [1, 2, 0, 0, 0, 1, 0, 0, 0, 2, 0, 0, 0, 3, 10, 20];
    let mut without = head.to_vec();
    without.extend([0, 0, 0, 0]);
    let mut with = head.to_vec();
    with.extend([0, 0, 0, 7, 0, 1, 0, 2, 0xFF, 0xFF]);
    let base = SpawnObject {
        entity_id: VarInt(1),
        _type: Byte(2),
        x: Int(1),
        y: Int(2),
        z: Int(3),
        pitch: Angle(10),
        yaw: Angle(20),
        data: Int(0),
        velocity: None,
    };
    let moving = SpawnObject {
        data: Int(7),
        velocity: Some(Velocity { x: Short(1), y: Short(2), z: Short(-1) }),
        ..base.clone()
    };
    // without data the velocity is not read, though bytes follow
    let mut followed = without.clone();
    followed.extend([0, 1, 0, 2, 0, 3]);
    assert_eq!(<SpawnObject as Wire>::decode(&followed), Some((base.clone(), without.len())));
    round_trip(base.clone(), &without);
    round_trip(moving.clone(), &with);
    assert!(SpawnObject::parse(&with[..with.len() - 1]).is_err());
    // a velocity without data, or data without a velocity, is not written
    assert!(!SpawnObject { velocity: moving.velocity, ..base.clone() }.check());
    assert!(!SpawnObject { data: Int(1), ..base }.check());
}

#[test]
fn destroy_entities_is_one_counted_run() {
    let p = DestroyEntities { entity_ids: VarIntArray { elements: vec![VarInt(1), VarInt(2)] } };
    round_trip(p, &[2, 1, 2]);
}

#[test]
fn entity_properties_nest_runs() {
    let p = EntityProperties {
        entity_id: VarInt(9),
        properties: CountedArray {
            elements: vec![
                Property {
                    key: s("a"),
                    value: Double(1.0f64.to_bits()),
                    modifiers: CountedArray {
                        elements: vec![PropertyModifier {
                            uuid: UUID([3; 16]),
                            amount: Double(0),
                            operation: Byte(2),
                        }],
                    },
                },
                Property { key: s("b"), value: Double(0), modifiers: CountedArray { elements: vec![] } },
            ],
        },
    };
    let mut bytes = vec![9, 2, 1, b'a', 0x3F, 0xF0, 0, 0, 0, 0, 0, 0, 1];
    bytes.extend([3; 16]);
    bytes.extend([0; 8]);
    bytes.push(2);
    bytes.extend([1, b'b', 0, 0, 0, 0, 0, 0, 0, 0, 0]);
    assert_eq!(EntityProperties::parse(&bytes), Ok(p.clone()));
    round_trip(p, &bytes);
}

#[test]
fn explosion_counts_with_an_int() {
    let p = Explosion {
        x: Float(0),
        y: Float(0),
        z: Float(0),
        radius: Float(1.0f32.to_bits()),
        records: IntCountedArray {
            elements: vec![
                ExplosionRecord { x: Byte(1), y: Byte(-1), z: Byte(0) },
                ExplosionRecord { x: Byte(2), y: Byte(2), z: Byte(2) },
            ],
        },
        player_motion_x: Float(0),
        player_motion_y: Float(0),
        player_motion_z: Float(2),
    };
    let mut bytes = vec![0; 12];
    bytes.extend([0x3F, 0x80, 0, 0]);
    bytes.extend([0, 0, 0, 2, 1, 0xFF, 0, 2, 2, 2]);
    bytes.extend([0, 0, 0, 0, 0, 0, 0, 0, 0, 0, 0, 2]);
    assert_eq!(Explosion::parse(&bytes), Ok(p.clone()));
    round_trip(p, &bytes);
}

#[test]
fn window_items_count_with_a_short() {
    let filled = Slot { present: true, item_id: 1, item_count: 2, item_damage: 3, nbt: None };
    let empty = Slot { present: false, item_id: 0, item_count: 0, item_damage: 0, nbt: None };
    let p = WindowItems { window_id: UnsignedByte(4), slots: ShortCountedArray { elements: vec![filled.clone(), empty] } };
    let bytes = [4, 0, 2, 1, 0, 1, 2, 0, 3, 0, 0];
    assert_eq!(WindowItems::parse(&bytes), Ok(p.clone()));
    round_trip(p, &bytes);
    round_trip(SetSlot { window_id: Byte(-1), slot: Short(-1), slot_data: filled }, &[0xFF, 0xFF, 0xFF, 1, 0, 1, 2, 0, 3, 0]);
}

#[test]
fn open_window_names_its_horse() {
    assert!(is_horse_window(&s("EntityHorse")));
    assert!(!is_horse_window(&s("EnityHorse")));
    assert!(!is_horse_window(&s("minecraft:chest")));
    let chest = OpenWindow {
        window_id: UnsignedByte(1),
        window_type: s("minecraft:chest"),
        window_title: s("{}"),
        number_of_slots: UnsignedByte(27),
        entity_id: None,
    };
    let mut chest_bytes = vec![1, 15];
    chest_bytes.extend(b"minecraft:chest");
    chest_bytes.extend([2, b'{', b'}', 27]);
    round_trip(chest.clone(), &chest_bytes);
    let horse = OpenWindow { window_type: s("EntityHorse"), entity_id: Some(Int(77)), ..chest.clone() };
    let mut horse_bytes = vec![1, 11];
    horse_bytes.extend(b"EntityHorse");
    horse_bytes.extend([2, b'{', b'}', 27, 0, 0, 0, 77]);
    round_trip(horse.clone(), &horse_bytes);
    assert_eq!(OpenWindow::parse(&horse_bytes), Ok(horse));
    assert!(OpenWindow::parse(&horse_bytes[..horse_bytes.len() - 2]).is_err());
    assert!(!OpenWindow { entity_id: Some(Int(1)), ..chest }.check());
}

#[test]
fn map_area_only_with_columns() {
    let none = MapData {
        item_damage: VarInt(1),
        scale: Byte(2),
        icons: CountedArray { elements: vec![MapIcon { direction_and_type: Byte(1), x: Byte(2), z: Byte(3) }] },
        columns: Byte(0),
        area: None,
    };
    round_trip(none.clone(), &[1, 2, 1, 1, 2, 3, 0]);
    let some = MapData {
        columns: Byte(2),
        area: Some(MapArea { rows: Byte(1), x: Byte(0), z: Byte(0), data: ByteArray { bytes: vec![9, 8] } }),
        ..none.clone()
    };
    round_trip(some.clone(), &[1, 2, 1, 1, 2, 3, 2, 1, 0, 0, 2, 9, 8]);
    assert_eq!(MapData::id(), IDS::MapData);
    // columns below zero carry no area
    let negative = MapData { columns: Byte(-1), ..none };
    round_trip(negative, &[1, 2, 1, 1, 2, 3, 0xFF]);
    assert!(MapData::parse(&[1, 2, 0, 2, 1, 0]).is_err());
}

#[test]
fn world_border_actions() {
    let one = Double(1.0f64.to_bits());
    let two = Double(2.0f64.to_bits());
    let d1 = 1.0f64.to_be_bytes();
    let d2 = 2.0f64.to_be_bytes();
    let cat = |parts: &[&[u8]]| parts.concat();

    round_trip(WorldBorder { action: WorldBorderAction::SetSize(one) }, &cat(&[&[0], &d1]));
    round_trip(
        WorldBorder {
            action: WorldBorderAction::LerpSize(WorldBorderLerp { old_radius: one, new_radius: two, speed: VarLong(300) }),
        },
        &cat(&[&[1], &d1, &d2, &[0xAC, 0x02]]),
    );
    round_trip(
        WorldBorder { action: WorldBorderAction::SetCenter(WorldBorderCenter { x: two, z: one }) },
        &cat(&[&[2], &d2, &d1]),
    );
    round_trip(
        WorldBorder {
            action: WorldBorderAction::Initialize(WorldBorderInit {
                x: one,
                z: two,
                old_radius: one,
                new_radius: two,
                speed: VarLong(-1),
                portal_teleport_boundary: VarInt(29999984),
                warning_time: VarInt(15),
                warning_blocks: VarInt(5),
            }),
        },
        &cat(&[&[3], &d1, &d2, &d1, &d2, &[0xFF; 9], &[0x01], &[0xF0, 0x86, 0xA7, 0x0E], &[15, 5]]),
    );
    round_trip(WorldBorder { action: WorldBorderAction::SetWarningTime(VarInt(15)) }, &[4, 15]);
    round_trip(WorldBorder { action: WorldBorderAction::SetWarningBlocks(VarInt(5)) }, &[5, 5]);
    assert!(WorldBorder::parse(&[6, 0, 0]).is_err());
    assert!(WorldBorder::parse(&[0, 0, 0]).is_err());
    assert!(WorldBorder::parse(&[]).is_err());
    // the fields of other actions are not read
    assert_eq!(<WorldBorder as Wire>::decode(&[4, 15, 1, 2, 3]).map(|(_, n)| n), Some(2));
}

#[test]
fn title_actions() {
    round_trip(Title { action: TitleAction::SetTitle(s("a")) }, &[0, 1, b'a']);
    round_trip(Title { action: TitleAction::SetSubtitle(s("b")) }, &[1, 1, b'b']);
    round_trip(
        Title { action: TitleAction::SetTimes(TitleTimes { fade_in: Int(1), stay: Int(2), fade_out: Int(3) }) },
        &[2, 0, 0, 0, 1, 0, 0, 0, 2, 0, 0, 0, 3],
    );
    round_trip(Title { action: TitleAction::Hide }, &[3]);
    round_trip(Title { action: TitleAction::Reset }, &[4]);
    assert!(Title::parse(&[5]).is_err());
    assert!(Title::parse(&[2, 0, 0, 0, 1]).is_err());
}

#[test]
fn combat_events() {
    round_trip(CombatEvent { event: CombatEventKind::EnterCombat }, &[0]);
    round_trip(
        CombatEvent { event: CombatEventKind::EndCombat(CombatEnd { duration: VarInt(20), entity_id: Int(7) }) },
        &[1, 20, 0, 0, 0, 7],
    );
    round_trip(
        CombatEvent {
            event: CombatEventKind::EntityDead(CombatDeath { player_id: VarInt(1), entity_id: Int(-1), message: s("x") }),
        },
        &[2, 1, 0xFF, 0xFF, 0xFF, 0xFF, 1, b'x'],
    );
    assert!(CombatEvent::parse(&[3]).is_err());
}

#[test]
fn scoreboard_objective_and_score() {
    let info = ObjectiveInfo { objective_value: s("v"), _type: s("integer") };
    let mut create = vec![1, b'o', 0, 1, b'v', 7];
    create.extend(b"integer");
    round_trip(ScoreboardObjective { objective_name: s("o"), mode: ObjectiveMode::Create(info.clone()) }, &create);
    round_trip(ScoreboardObjective { objective_name: s("o"), mode: ObjectiveMode::Remove }, &[1, b'o', 1]);
    let mut update = create.clone();
    update[2] = 2;
    round_trip(ScoreboardObjective { objective_name: s("o"), mode: ObjectiveMode::Update(info) }, &update);
    assert!(ScoreboardObjective::parse(&[1, b'o', 3]).is_err());

    let set = UpdateScore { score_name: s("p"), action: Byte(0), objective_name: s("o"), value: Some(VarInt(5)) };
    round_trip(set.clone(), &[1, b'p', 0, 1, b'o', 5]);
    let remove = UpdateScore { score_name: s("p"), action: Byte(1), objective_name: s("o"), value: None };
    round_trip(remove.clone(), &[1, b'p', 1, 1, b'o']);
    assert!(!UpdateScore { value: None, ..set }.check());
    assert!(!UpdateScore { value: Some(VarInt(1)), ..remove }.check());
}

#[test]
fn teams_modes() {
    let info = TeamInfo {
        team_display_name: s("d"),
        team_prefix: s("p"),
        team_suffix: s("s"),
        friendly_fire: Byte(3),
        name_tag_visibility: s("always"),
        color: Byte(-1),
    };
    let mut info_bytes = vec![1, b'd', 1, b'p', 1, b's', 3, 6];
    info_bytes.extend(b"always");
    info_bytes.push(0xFF);
    let players = CountedArray { elements: vec![s("a"), s("bc")] };
    let player_bytes = [2, 1, b'a', 2, b'b', b'c'];
    let name = [1, b't'];

    let create = Teams {
        team_name: s("t"),
        mode: TeamsMode::Create(TeamCreation { info: info.clone(), players: players.clone() }),
    };
    round_trip(create, &[&name[..], &[0], &info_bytes, &player_bytes].concat());
    round_trip(Teams { team_name: s("t"), mode: TeamsMode::Remove }, &[&name[..], &[1]].concat());
    round_trip(Teams { team_name: s("t"), mode: TeamsMode::Update(info) }, &[&name[..], &[2], &info_bytes].concat());
    round_trip(
        Teams { team_name: s("t"), mode: TeamsMode::AddPlayers(players.clone()) },
        &[&name[..], &[3], &player_bytes].concat(),
    );
    round_trip(
        Teams { team_name: s("t"), mode: TeamsMode::RemovePlayers(players) },
        &[&name[..], &[4], &player_bytes].concat(),
    );
    assert!(Teams::parse(&[1, b't', 5]).is_err());
}

#[test]
fn player_list_actions() {
    let id = UUID([7; 16]);
    let add = PlayerListItem {
        action: PlayerListAction::AddPlayer(CountedArray {
            elements: vec![PlayerListAdd {
                uuid: id,
                name: s("n"),
                properties: CountedArray {
                    elements: vec![
                        PlayerProperty { name: s("t"), value: s("v"), signature: Optional { value: Some(s("g")) } },
                        PlayerProperty { name: s("u"), value: s("w"), signature: Optional { value: None } },
                    ],
                },
                gamemode: VarInt(1),
                ping: VarInt(50),
                display_name: Optional { value: None },
            }],
        }),
    };
    let mut bytes = vec![0, 1];
    bytes.extend([7; 16]);
    bytes.extend([1, b'n', 2, 1, b't', 1, b'v', 1, 1, b'g', 1, b'u', 1, b'w', 0, 1, 50, 0]);
    assert_eq!(PlayerListItem::parse(&bytes), Ok(add.clone()));
    round_trip(add, &bytes);

    let rename = PlayerListItem {
        action: PlayerListAction::UpdateDisplayName(CountedArray {
            elements: vec![PlayerListDisplayName { uuid: id, display_name: Optional { value: Some(s("x")) } }],
        }),
    };
    let mut bytes = vec![3, 1];
    bytes.extend([7; 16]);
    bytes.extend([1, 1, b'x']);
    round_trip(rename, &bytes);

    let remove = PlayerListItem { action: PlayerListAction::RemovePlayer(CountedArray { elements: vec![id, id] }) };
    let mut bytes = vec![4, 2];
    bytes.extend([7; 32]);
    round_trip(remove, &bytes);
    assert!(PlayerListItem::parse(&[5, 0]).is_err());
    assert!(PlayerListItem::parse(&[4, 1, 7, 7]).is_err());
}

#[test]
fn statistics_and_tab_complete() {
    let p = Statistics {
        statistics: CountedArray {
            elements: vec![Statistic { name: s("a"), value: VarInt(1) }, Statistic { name: s("b"), value: VarInt(300) }],
        },
    };
    round_trip(p, &[2, 1, b'a', 1, 1, b'b', 0xAC, 0x02]);
    round_trip(TabCompleteClientbound { matches: CountedArray { elements: vec![s("/tp"), s("/tell")] } }, b"\x02\x03/tp\x05/tell");
    round_trip(TabCompleteClientbound { matches: CountedArray { elements: vec![] } }, &[0]);
}

#[test]
fn particle_ends_with_a_run() {
    let p = Particle {
        particle_id: Int(1),
        long_distance: Boolean(true),
        x: Float(1),
        y: Float(2),
        z: Float(3),
        offset_x: Float(4),
        offset_y: Float(5),
        offset_z: Float(6),
        particle_data: Float(7),
        particle_count: Int(8),
        data: VarIntArray { elements: vec![VarInt(9)] },
    };
    let mut bytes = vec![0, 0, 0, 1, 1];
    for i in 1u8..=7 {
        bytes.extend([0, 0, 0, i]);
    }
    bytes.extend([0, 0, 0, 8, 1, 9]);
    round_trip(p, &bytes);
}

#[test]
fn nbt_packets() {
    let tag = vec![0x0A, 0x00, 0x00, 0x01, 0x00, 0x01, b'a', 0x05, 0x00];
    let p = UpdateBlockEntity { location: Position { x: 1, y: 2, z: 3 }, action: UnsignedByte(1), nbt_data: OptionalNbt { tag: Some(tag.clone()) } };
    let mut bytes = ((1u64 << 38) | (2u64 << 26) | 3).to_be_bytes().to_vec();
    bytes.push(1);
    bytes.extend(&tag);
    assert_eq!(UpdateBlockEntity::parse(&bytes), Ok(p.clone()));
    round_trip(p, &bytes);
    let e = UpdateEntityNBT { entity_id: VarInt(2), tag: OptionalNbt { tag: None } };
    round_trip(e, &[2, 0]);
    assert!(UpdateEntityNBT::parse(&[2, 0x0A, 0x00]).is_err());
    assert!(!UpdateEntityNBT { entity_id: VarInt(1), tag: OptionalNbt { tag: Some(vec![1]) } }.check());
}

#[test]
fn tab_complete_serverbound_block_only_with_flag() {
    let origin = Position { x: 0, y: 0, z: 0 };
    let without = TabCompleteServerbound::new(s("/t"), Boolean(false), origin);
    assert_eq!(without.to_bytes(), Ok(vec![2, b'/', b't', 0]));
    // whatever the block holds, it is left out
    let stray = TabCompleteServerbound::new(s("/t"), Boolean(false), Position { x: 1, y: 1, z: 1 });
    assert_eq!(stray.to_bytes(), Ok(vec![2, b'/', b't', 0]));
    let with = TabCompleteServerbound::new(s("/t"), Boolean(true), Position { x: -1, y: -1, z: -1 });
    let mut expected = vec![2, b'/', b't', 1];
    expected.extend([0xFF; 8]);
    assert_eq!(with.to_bytes(), Ok(expected.clone()));
    assert_eq!(with.id(), IDS::TabCompleteServerbound);
    assert_eq!(<TabCompleteServerbound as Wire>::decode(&expected), Some((with, 12)));
    assert_eq!(<TabCompleteServerbound as Wire>::decode(&[2, b'/', b't', 0, 9]), Some((without, 4)));
    // a block out of range cannot be written
    let far = TabCompleteServerbound::new(s("/t"), Boolean(true), Position { x: 1 << 26, y: 0, z: 0 });
    assert!(far.to_bytes().is_err());
}

#[test]
fn serverbound_packets_with_slots_and_strings() {
    let item = Slot { present: true, item_id: 276, item_count: 1, item_damage: 0, nbt: None };
    let click = ClickWindow::new(UnsignedByte(0), Short(36), Byte(0), Short(1), Byte(0), item.clone());
    assert_eq!(click.to_bytes(), Ok(vec![0, 0, 36, 0, 0, 1, 0, 1, 0x01, 0x14, 1, 0, 0, 0]));
    assert_eq!(click.id(), IDS::ClickWindow);
    let broken = Slot { nbt: Some(vec![0x0A]), ..item.clone() };
    assert!(ClickWindow::new(UnsignedByte(0), Short(36), Byte(0), Short(1), Byte(0), broken).to_bytes().is_err());
    let place = PlayerBlockPlacement::new(Position { x: 0, y: 0, z: 0 }, Byte(1), item, Byte(8), Byte(8), Byte(8));
    assert_eq!(place.to_bytes().map(|b| b.len()), Ok(8 + 1 + 7 + 3));
    let sign = UpdateSignServerbound::new(Position { x: 0, y: 64, z: 0 }, s("a"), s(""), s("b"), s(""));
    assert_eq!(sign.to_bytes(), Ok(vec![0, 0, 0, 1, 0, 0, 0, 0, 1, b'a', 0, 1, b'b', 0]));
    assert_eq!(ResourcePackStatus::new(s("h"), VarInt(3)).id(), IDS::ResourcePackStatus);
    assert_eq!(PlayerAbilitiesServerbound::new(Byte(1), Float(0), Float(0)).to_bytes().map(|b| b.len()), Ok(9));
    assert_eq!(PlayerAbilitiesServerbound::new(Byte(1), Float(0), Float(0)).id().direction(), Direction::Serverbound);
}

#[test]
fn plugin_messages_take_the_rest() {
    let p = PluginMessageServerbound::new(s("MC|Brand"), b"vanilla".to_vec());
    let bytes = p.to_bytes().unwrap();
    assert_eq!(bytes, b"\x08MC|Brandvanilla".to_vec());
    assert_eq!(p.id(), IDS::PluginMessageServerbound);
    assert_eq!(PluginMessageServerbound::parse(&bytes), Some(p));
    assert_eq!(
        PluginMessageClientbound::parse(&bytes),
        Ok(PluginMessageClientbound::new(s("MC|Brand"), b"vanilla".to_vec()))
    );
    assert_eq!(PluginMessageClientbound::parse(&[1, b'c']), Ok(PluginMessageClientbound::new(s("c"), vec![])));
    assert!(PluginMessageClientbound::parse(&[2, b'c']).is_err());
    assert!(PluginMessageServerbound::new(s(&"c".repeat(40000)), vec![]).to_bytes().is_err());
    let mut out = vec![9];
    PluginMessageClientbound::new(s("c"), vec![1, 2]).write(&mut out);
    assert_eq!(out, vec![9, 1, b'c', 1, 2]);
}

fn section(seed: u8, sky: bool) -> (ChunkSection, Vec<u8>) {
    let block_ids: Vec<u8> = (0..4096u32).map(|i| (i as u8).wrapping_add(seed)).collect();
    let block_metadata = vec![seed; 2048];
    let block_light = vec![seed.wrapping_add(1); 2048];
    let sky_light = if sky { Some(vec![seed.wrapping_add(2); 2048]) } else { None };
    let mut bytes = block_ids.clone();
    bytes.extend(&block_metadata);
    bytes.extend(&block_light);
    if let Some(v) = &sky_light {
        bytes.extend(v);
    }
    (ChunkSection { block_ids, block_metadata, block_light, sky_light }, bytes)
}

#[test]
fn sections_are_counted_by_the_mask() {
    assert_eq!(count_sections(0), 0);
    assert_eq!(count_sections(1), 1);
    assert_eq!(count_sections(0b1010_0000_0000_0001), 3);
    assert_eq!(count_sections(0xFFFF), 16);
}

#[test]
fn chunk_data_reads_the_sections_of_its_mask() {
    let (a, a_bytes) = section(1, true);
    let (b, b_bytes) = section(9, true);
    let mut bytes = vec![0, 0, 0, 1, 0xFF, 0xFF, 0xFF, 0xFF, 1, 0x00, 0x05];
    bytes.extend([0x80, 0xA0, 0x01]);
    bytes.extend(&a_bytes);
    bytes.extend(&b_bytes);
    let expected = ChunkData {
        chunk_x: Int(1),
        chunk_z: Int(-1),
        ground_up_continuous: Boolean(true),
        primary_bit_mask: UnsignedShort(5),
        data_size: VarInt(20480),
        data: vec![a.clone(), b],
    };
    assert_eq!(ChunkData::parse(&bytes), Ok(expected.clone()));
    assert_eq!(ChunkData::decode_with(&bytes, true), Some((expected.clone(), bytes.len())));
    let mut out = Vec::new();
    expected.write(&mut out);
    assert_eq!(out, bytes);
    assert!(ChunkData::parse(&bytes[..bytes.len() - 1]).is_err());

    // without sky light a section is shorter
    let (c, c_bytes) = section(3, false);
    let mut dark = vec![0, 0, 0, 0, 0, 0, 0, 0, 0, 0x80, 0x00, 0x00];
    dark.extend(&c_bytes);
    let (packet, n) = ChunkData::decode_with(&dark, false).unwrap();
    assert_eq!(n, dark.len());
    assert_eq!(packet.data, vec![c]);
    assert_eq!(ChunkData::decode_with(&dark, true), None);

    // an empty mask has no sections
    let none = [0, 0, 0, 0, 0, 0, 0, 0, 1, 0, 0, 0];
    assert_eq!(ChunkData::parse(&none).map(|p| p.data.len()), Ok(0));
}

#[test]
fn map_chunk_bulk_reads_columns_in_order() {
    for sky in [true, false] {
        let (a, a_bytes) = section(1, sky);
        let (b, b_bytes) = section(2, sky);
        let (c, c_bytes) = section(3, sky);
        let mut bytes = vec![sky as u8, 3];
        bytes.extend([0, 0, 0, 1, 0, 0, 0, 2, 0, 0b11]);
        bytes.extend([0, 0, 0, 3, 0, 0, 0, 4, 0, 0]);
        bytes.extend([0, 0, 0, 5, 0, 0, 0, 6, 0x80, 0]);
        bytes.extend(&a_bytes);
        bytes.extend(&b_bytes);
        bytes.extend(&c_bytes);
        let expected = MapChunkBulk {
            sky_light_sent: Boolean(sky),
            chunk_meta: vec![
                ChunkMeta { chunk_x: Int(1), chunk_z: Int(2), primary_bit_mask: UnsignedShort(3) },
                ChunkMeta { chunk_x: Int(3), chunk_z: Int(4), primary_bit_mask: UnsignedShort(0) },
                ChunkMeta { chunk_x: Int(5), chunk_z: Int(6), primary_bit_mask: UnsignedShort(0x8000) },
            ],
            chunk_data: vec![vec![a, b], vec![], vec![c]],
        };
        assert_eq!(MapChunkBulk::parse(&bytes), Ok(expected.clone()));
        assert_eq!(MapChunkBulk::decode(&bytes).map(|(_, n)| n), Some(bytes.len()));
        let mut out = Vec::new();
        expected.write(&mut out);
        assert_eq!(out, bytes);
        assert!(MapChunkBulk::parse(&bytes[..bytes.len() - 1]).is_err());
    }
    assert_eq!(
        MapChunkBulk::parse(&[1, 0]),
        Ok(MapChunkBulk { sky_light_sent: Boolean(true), chunk_meta: vec![], chunk_data: vec![] })
    );
    assert!(MapChunkBulk::parse(&[1, 1, 0, 0]).is_err());
}

#[test]
fn every_long_field() {
    round_trip(
        minecraft_protocol::packets::world::TimeUpdate { world_age: Long(1), time_of_day: Long(-1) },
        &[0, 0, 0, 0, 0, 0, 0, 1, 0xFF, 0xFF, 0xFF, 0xFF, 0xFF, 0xFF, 0xFF, 0xFF],
    );
}
