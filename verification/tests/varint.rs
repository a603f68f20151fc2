use minecraft_protocol::varint::{read_var_int, write_var_int, VarInt, VarLong};

fn encoded(v: i32) -> Vec<u8> {
    let mut out = Vec::new();
    VarInt(v).write(&mut out);
    out
}

#[test]
fn varint_boundary_sizes() {
    let values = [0, 1, 127, 128, 16383, 16384, 2097151, 2097152, 268435455, i32::MIN, i32::MAX, -1];
    let sizes = [1usize, 1, 1, 2, 2, 3, 3, 4, 4, 5, 5, 5];
    for (v, n) in values.iter().zip(sizes.iter()) {
        assert_eq!(encoded(*v).len(), *n);
        assert_eq!(VarInt(*v).size(), *n);
    }
}

#[test]
fn varint_minus_one_bytes() {
    assert_eq!(encoded(-1), vec![0xFF, 0xFF, 0xFF, 0xFF, 0x0F]);
}

#[test]
fn varint_round_trip_with_trailing_bytes() {
    for v in [0, 1, 127, 128, 255, 300, 25565, 2097151, 2097152, i32::MAX, i32::MIN, -1, -25565] {
        let mut bytes = encoded(v);
        let n = bytes.len();
        bytes.extend_from_slice(&[0xAA, 0xBB]);
        assert_eq!(VarInt::parse(&bytes), Some((VarInt(v), n)));
    }
}

#[test]
fn varint_rejects_sixth_byte() {
    assert_eq!(VarInt::parse(&[0x80, 0x80, 0x80, 0x80, 0x80, 0x01]), None);
    assert_eq!(VarInt::parse(&[0xFF, 0xFF, 0xFF, 0xFF, 0xFF]), None);
}

#[test]
fn varint_rejects_truncated() {
    assert_eq!(VarInt::parse(&[]), None);
    assert_eq!(VarInt::parse(&[0x80]), None);
    assert_eq!(VarInt::parse(&[0xFF, 0xFF]), None);
}

#[test]
fn varint_accepts_padded_zero() {
    assert_eq!(VarInt::parse(&[0x80, 0x00]), Some((VarInt(0), 2)));
}

#[test]
fn varint_drops_bits_beyond_32() {
    assert_eq!(VarInt::parse(&[0xFF, 0xFF, 0xFF, 0xFF, 0x7F]), Some((VarInt(-1), 5)));
}

#[test]
fn varlong_round_trip() {
    for v in [0i64, 1, 127, 128, i64::MAX, i64::MIN, -1, 1 << 40] {
        let mut out = Vec::new();
        VarLong(v).write(&mut out);
        assert!(out.len() >= 1 && out.len() <= 10);
        if v < 0 {
            assert_eq!(out.len(), 10);
        }
        assert_eq!(VarLong::parse(&out), Some((VarLong(v), out.len())));
    }
}

#[test]
fn varlong_rejects_eleventh_byte() {
    assert_eq!(VarLong::parse(&[0x80; 11]), None);
}

#[test]
fn free_var_int_functions() {
    let mut buf = Vec::new();
    write_var_int(&mut buf, 0xDEAD);
    assert_eq!(buf, vec![0xAD, 0xBD, 0x03]);
    buf.push(7);
    assert_eq!(read_var_int(&mut buf), 0xDEAD);
    assert_eq!(buf, vec![7]);
}
