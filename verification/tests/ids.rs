use minecraft_protocol::registry::{PacketRegistry, V47Registry};
use minecraft_protocol::ids::{Direction, Phase, IDS};
use minecraft_protocol::version::ProtocolVersion;

#[test]
fn login_clientbound_numbers() {
    assert_eq!(IDS::from_login_clientbound_id(0), Some(IDS::DisconnectLogin));
    assert_eq!(IDS::from_login_clientbound_id(1), Some(IDS::EncryptionRequest));
    assert_eq!(IDS::from_login_clientbound_id(2), Some(IDS::LoginSuccess));
    assert_eq!(IDS::from_login_clientbound_id(3), Some(IDS::SetCompressionLogin));
    assert_eq!(IDS::from_login_clientbound_id(4), None);
    assert_eq!(IDS::from_login_clientbound_id(-1), None);
}

#[test]
fn play_clientbound_numbers() {
    assert_eq!(IDS::from_play_clientbound_id(0x00), Some(IDS::KeepAliveClientbound));
    assert_eq!(IDS::from_play_clientbound_id(0x0D), Some(IDS::CollectItem));
    assert_eq!(IDS::from_play_clientbound_id(0x1C), Some(IDS::EntityMetadata));
    assert_eq!(IDS::from_play_clientbound_id(0x22), Some(IDS::MultiBlockChange));
    assert_eq!(IDS::from_play_clientbound_id(0x34), Some(IDS::MapData));
    assert_eq!(IDS::from_play_clientbound_id(0x3F), Some(IDS::PluginMessageClientbound));
    assert_eq!(IDS::from_play_clientbound_id(0x40), Some(IDS::DisconnectPlayClientbound));
    assert_eq!(IDS::from_play_clientbound_id(0x46), Some(IDS::SetCompressionPlay));
    assert_eq!(IDS::from_play_clientbound_id(0x49), Some(IDS::UpdateEntityNBT));
    assert_eq!(IDS::from_play_clientbound_id(0x4A), None);
    assert_eq!(IDS::from_play_clientbound_id(-1), None);
}

#[test]
fn every_play_clientbound_packet_is_found_under_its_number() {
    for id in 0..0x4A {
        let name = IDS::from_play_clientbound_id(id).unwrap();
        assert_eq!(name.parse(), id);
        assert_eq!(name.phase(), Phase::Play);
        assert_eq!(name.direction(), Direction::Clientbound);
        assert_eq!(IDS::from_clientbound_id(Phase::Play, id), Some(name));
    }
}

#[test]
fn every_serverbound_packet_is_found_under_its_number() {
    for id in 0..0x1A {
        let name = IDS::from_serverbound_id(Phase::Play, id).unwrap();
        assert_eq!(name.parse(), id);
        assert_eq!(name.phase(), Phase::Play);
        assert_eq!(name.direction(), Direction::Serverbound);
    }
    assert_eq!(IDS::from_serverbound_id(Phase::Play, 0x1A), None);
    assert_eq!(IDS::from_serverbound_id(Phase::Play, 0x02), Some(IDS::UseEntity));
    assert_eq!(IDS::from_serverbound_id(Phase::Play, 0x19), Some(IDS::ResourcePackStatus));
    assert_eq!(IDS::from_serverbound_id(Phase::Handshaking, 0), Some(IDS::Handshake));
    assert_eq!(IDS::from_serverbound_id(Phase::Handshaking, 1), None);
    assert_eq!(IDS::from_serverbound_id(Phase::Login, 0), Some(IDS::LoginStart));
    assert_eq!(IDS::from_serverbound_id(Phase::Login, 1), Some(IDS::EncryptionResponse));
    assert_eq!(IDS::from_serverbound_id(Phase::Login, 2), None);
}

#[test]
fn same_number_names_different_packets() {
    assert_eq!(IDS::Handshake.parse(), 0);
    assert_eq!(IDS::LoginStart.parse(), 0);
    assert_eq!(IDS::DisconnectLogin.parse(), 0);
    assert_eq!(IDS::KeepAliveClientbound.parse(), 0);
    assert_eq!(IDS::KeepAliveServerbound.parse(), 0);
    assert_eq!(IDS::from_clientbound_id(Phase::Login, 0), Some(IDS::DisconnectLogin));
    assert_eq!(IDS::from_clientbound_id(Phase::Play, 0), Some(IDS::KeepAliveClientbound));
    assert_eq!(IDS::from_clientbound_id(Phase::Handshaking, 0), None);
    assert_eq!(IDS::from_clientbound_id(Phase::Login, 3), Some(IDS::SetCompressionLogin));
    assert_eq!(IDS::from_clientbound_id(Phase::Play, 3), Some(IDS::TimeUpdate));
}

#[test]
fn phases_and_directions() {
    assert_eq!(IDS::Handshake.phase(), Phase::Handshaking);
    assert_eq!(IDS::Handshake.direction(), Direction::Serverbound);
    assert_eq!(IDS::EncryptionRequest.phase(), Phase::Login);
    assert_eq!(IDS::EncryptionRequest.direction(), Direction::Clientbound);
    assert_eq!(IDS::EncryptionResponse.direction(), Direction::Serverbound);
    assert_eq!(IDS::WorldBorder.phase(), Phase::Play);
    assert_eq!(IDS::UseEntity.direction(), Direction::Serverbound);
}

#[test]
fn phases_only_go_forward() {
    assert!(Phase::Handshaking.may_become(Phase::Handshaking));
    assert!(Phase::Handshaking.may_become(Phase::Login));
    assert!(Phase::Handshaking.may_become(Phase::Play));
    assert!(Phase::Login.may_become(Phase::Play));
    assert!(!Phase::Login.may_become(Phase::Handshaking));
    assert!(!Phase::Play.may_become(Phase::Login));
    assert!(!Phase::Play.may_become(Phase::Handshaking));
    assert!(Phase::Play.may_become(Phase::Play));
}

#[test]
fn protocol_version_number() {
    assert_eq!(ProtocolVersion::V47.id(), 47);
}

#[test]
fn registry_of_version_47() {
    assert_eq!(V47Registry::id_to_label(Phase::Handshaking, Direction::Serverbound, 0), Some(IDS::Handshake));
    assert_eq!(V47Registry::id_to_label(Phase::Login, Direction::Serverbound, 0), Some(IDS::LoginStart));
    assert_eq!(V47Registry::id_to_label(Phase::Login, Direction::Clientbound, 2), Some(IDS::LoginSuccess));
    assert_eq!(V47Registry::id_to_label(Phase::Login, Direction::Clientbound, 3), Some(IDS::SetCompressionLogin));
    assert_eq!(V47Registry::id_to_label(Phase::Play, Direction::Clientbound, 0x44), Some(IDS::WorldBorder));
    assert_eq!(V47Registry::id_to_label(Phase::Play, Direction::Clientbound, 0x4A), None);
    assert_eq!(V47Registry::id_to_label(Phase::Handshaking, Direction::Clientbound, 0), None);
    assert_eq!(V47Registry::label_to_id(IDS::Handshake), 0);
    assert_eq!(V47Registry::label_to_id(IDS::LoginSuccess), 2);
    assert_eq!(V47Registry::label_to_id(IDS::SetCompressionLogin), 3);
    assert_eq!(V47Registry::label_to_id(IDS::UpdateEntityNBT), 0x49);
}
