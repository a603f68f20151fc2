use minecraft_protocol::join::{minecraft_hex, undashed, JoinServerRequest};
use minecraft_protocol::minecraft_server::MinecraftServer;

fn hash_of(name: &str) -> String {
    MinecraftServer::generate_server_hash(name.to_string(), Vec::new(), Vec::new())
}

#[test]
fn server_hash_of_jeb_is_negative() {
    assert_eq!(hash_of("jeb_"), "-7c9d5b0044c130109a5d7b5fb5c317c02b4e28c1");
}

#[test]
fn server_hash_of_notch_is_positive() {
    assert_eq!(hash_of("Notch"), "4ed1f46bbe04bc756bcb17c0c7ce3e4632f06a48");
}

#[test]
fn server_hash_of_simon_has_no_leading_zero() {
    assert_eq!(hash_of("simon"), "88e16a1019277b15d58faf0541e11910eb756f6");
}

#[test]
fn server_hash_joins_id_secret_and_key() {
    let whole = MinecraftServer::generate_server_hash(String::new(), vec![0; 16], b"key".to_vec());
    assert_eq!(whole, "3603239cf614239f5ad9eb2e8b8ea740ab9e561a");
    let split = MinecraftServer::generate_server_hash("je".to_string(), b"b".to_vec(), b"_".to_vec());
    assert_eq!(split, hash_of("jeb_"));
}

#[test]
fn hex_of_a_digest() {
    assert_eq!(minecraft_hex(&[0x00, 0x01]), "1");
    assert_eq!(minecraft_hex(&[0x00]), "0");
    assert_eq!(minecraft_hex(&[0xFF]), "-1");
    assert_eq!(minecraft_hex(&[0x80, 0x00]), "-8000");
    assert_eq!(minecraft_hex(&[0x7F, 0xFF]), "7fff");
    assert_eq!(minecraft_hex(&[0x0A, 0xBC]), "abc");
    assert_eq!(minecraft_hex(&[]), "0");
}

#[test]
fn shared_secret_has_sixteen_bytes() {
    let a = MinecraftServer::create_shared_secret();
    let b = MinecraftServer::create_shared_secret();
    assert_eq!(a.len(), 16);
    assert_eq!(b.len(), 16);
    assert_ne!(a, b);
}

#[test]
fn profile_id_loses_its_dashes() {
    assert_eq!(undashed("069a79f4-44e9-4726-a5be-fca90e38aaf5"), "069a79f444e94726a5befca90e38aaf5");
    assert_eq!(undashed("069a79f444e94726a5befca90e38aaf5"), "069a79f444e94726a5befca90e38aaf5");
    assert_eq!(undashed("---"), "");
    assert_eq!(undashed(""), "");
}

#[test]
fn join_request() {
    let r = JoinServerRequest::new("token", "069a79f4-44e9-4726-a5be-fca90e38aaf5", "-7c9d");
    assert_eq!(r.access_token, "token");
    assert_eq!(r.selected_profile, "069a79f444e94726a5befca90e38aaf5");
    assert_eq!(r.server_id, "-7c9d");
}
