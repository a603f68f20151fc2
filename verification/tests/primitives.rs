use minecraft_protocol::arrays::{ByteArray, CountedArray, VarIntArray};
use minecraft_protocol::basic::{Angle, Boolean, Position, UUID};
use minecraft_protocol::fixed::{Byte, Double, Float, Int, Long, Short, UnsignedByte, UnsignedShort};
use minecraft_protocol::optional::{IntCountedArray, Optional, ShortCountedArray};
use minecraft_protocol::text::VarString;
use minecraft_protocol::varint::{read_unsigned_short, write_unsigned_short, VarInt};
use minecraft_protocol::wire::Wire;

fn written<T: Wire>(v: &T) -> Vec<u8> {
    let mut out = vec![0xEE];
    v.encode(&mut out);
    assert_eq!(out[0], 0xEE);
    out[1..].to_vec()
}

#[test]
fn fixed_numbers_are_big_endian() {
    assert_eq!(written(&Byte(-1)), vec![0xFF]);
    assert_eq!(written(&UnsignedByte(200)), vec![200]);
    assert_eq!(written(&Short(-2)), vec![0xFF, 0xFE]);
    assert_eq!(written(&UnsignedShort(25565)), vec![0x63, 0xDD]);
    assert_eq!(written(&Int(0x01020304)), vec![1, 2, 3, 4]);
    assert_eq!(written(&Int(-1)), vec![0xFF; 4]);
    assert_eq!(written(&Long(0x0102030405060708)), vec![1, 2, 3, 4, 5, 6, 7, 8]);
    assert_eq!(written(&Long(i64::MIN)), vec![0x80, 0, 0, 0, 0, 0, 0, 0]);
}

#[test]
fn fixed_numbers_round_trip() {
    for v in [i8::MIN, -1, 0, 1, i8::MAX] {
        assert_eq!(Byte::parse(&written(&Byte(v))), Some((Byte(v), 1)));
    }
    for v in [i16::MIN, -1, 0, 1, 255, 256, i16::MAX] {
        assert_eq!(Short::parse(&written(&Short(v))), Some((Short(v), 2)));
    }
    for v in [0u16, 1, 255, 256, 25565, u16::MAX] {
        assert_eq!(UnsignedShort::parse(&written(&UnsignedShort(v))), Some((UnsignedShort(v), 2)));
    }
    for v in [i32::MIN, -1, 0, 1, 65536, i32::MAX] {
        assert_eq!(Int::parse(&written(&Int(v))), Some((Int(v), 4)));
    }
    for v in [i64::MIN, -1, 0, 1, 1 << 40, i64::MAX] {
        assert_eq!(Long::parse(&written(&Long(v))), Some((Long(v), 8)));
    }
}

#[test]
fn fixed_numbers_need_all_their_bytes() {
    assert_eq!(Byte::parse(&[]), None);
    assert_eq!(UnsignedByte::parse(&[]), None);
    assert_eq!(Short::parse(&[1]), None);
    assert_eq!(UnsignedShort::parse(&[1]), None);
    assert_eq!(Int::parse(&[1, 2, 3]), None);
    assert_eq!(Long::parse(&[1, 2, 3, 4, 5, 6, 7]), None);
    assert_eq!(Float::parse(&[1, 2, 3]), None);
    assert_eq!(Double::parse(&[0; 7]), None);
}

#[test]
fn fixed_numbers_leave_what_follows() {
    assert_eq!(Int::parse(&[0, 0, 0, 5, 9, 9]), Some((Int(5), 4)));
    assert_eq!(Short::parse(&[0xFF, 0xFF, 1]), Some((Short(-1), 2)));
}

#[test]
fn floats_travel_as_their_bits() {
    let one = Float(1.0f32.to_bits());
    assert_eq!(written(&one), vec![0x3F, 0x80, 0, 0]);
    assert_eq!(Float::parse(&[0x3F, 0x80, 0, 0]), Some((one, 4)));
    let (back, _) = Float::parse(&written(&Float((-2.5f32).to_bits()))).unwrap();
    assert_eq!(f32::from_bits(back.0), -2.5f32);

    let half = Double(0.5f64.to_bits());
    assert_eq!(written(&half), vec![0x3F, 0xE0, 0, 0, 0, 0, 0, 0]);
    let (back, n) = Double::parse(&written(&half)).unwrap();
    assert_eq!(n, 8);
    assert_eq!(f64::from_bits(back.0), 0.5f64);
}

#[test]
fn boolean_reads_any_nonzero_byte_as_true() {
    assert_eq!(Boolean::parse(&[0]), Some((Boolean(false), 1)));
    assert_eq!(Boolean::parse(&[1]), Some((Boolean(true), 1)));
    assert_eq!(Boolean::parse(&[7]), Some((Boolean(true), 1)));
    assert_eq!(Boolean::parse(&[]), None);
    assert_eq!(written(&Boolean(true)), vec![1]);
    assert_eq!(written(&Boolean(false)), vec![0]);
}

#[test]
fn angle_is_one_byte() {
    assert_eq!(Angle::parse(&[64, 1]), Some((Angle(64), 1)));
    assert_eq!(written(&Angle(128)), vec![128]);
    assert_eq!(Angle::parse(&[]), None);
    // a quarter turn is 64 steps of 360/256 degrees
    assert_eq!(64.0f32 * 360.0 / 256.0, 90.0);
}

#[test]
fn uuid_is_sixteen_bytes() {
    let bytes: Vec<u8> = (0u8..20).collect();
    let (id, n) = UUID::parse(&bytes).unwrap();
    assert_eq!(n, 16);
    assert_eq!(id.0.to_vec(), bytes[..16].to_vec());
    assert_eq!(written(&id), bytes[..16].to_vec());
    assert_eq!(UUID::parse(&bytes[..15]), None);
}

#[test]
fn position_minus_one_is_all_ones() {
    let p = Position { x: -1, y: -1, z: -1 };
    assert_eq!(written(&p), vec![0xFF; 8]);
    assert_eq!(Position::parse(&[0xFF; 8]), Some((p, 8)));
}

#[test]
fn position_packs_x_y_z_from_the_top() {
    let p = Position { x: 18357644, y: 831, z: -20882616 };
    let bytes = 0x4607630CFEC15B48u64.to_be_bytes().to_vec();
    assert_eq!(written(&p), bytes);
    assert_eq!(Position::parse(&bytes), Some((p, 8)));
}

#[test]
fn position_unpacks_with_sign_extension() {
    let bytes = 0x4C0073FFF07D1688u64.to_be_bytes();
    assert_eq!(Position::parse(&bytes), Some((Position { x: 19923407, y: -4, z: 8197768 }, 8)));
    // y alone negative
    let p = Position { x: 5, y: -2048, z: 7 };
    assert!(p.in_range());
    assert_eq!(Position::parse(&written(&p)), Some((p, 8)));
}

#[test]
fn position_range_and_truncation() {
    assert!(Position { x: -33554432, y: 2047, z: 33554431 }.in_range());
    assert!(!Position { x: 33554432, y: 0, z: 0 }.in_range());
    assert!(!Position { x: 0, y: 2048, z: 0 }.in_range());
    assert!(!Position { x: 0, y: 0, z: -33554433 }.in_range());
    // what does not fit loses its high bits
    let mut out = Vec::new();
    Position { x: 33554432, y: 0, z: 0 }.write(&mut out);
    assert_eq!(Position::parse(&out), Some((Position { x: -33554432, y: 0, z: 0 }, 8)));
    assert_eq!(Position::parse(&[0; 7]), None);
}

#[test]
fn string_is_length_then_utf8() {
    let s = VarString("localhost".to_string());
    assert_eq!(written(&s), b"\x09localhost".to_vec());
    assert_eq!(VarString::parse(b"\x09localhostXYZ"), Some((s, 10)));
    let e = VarString("é€".to_string());
    assert_eq!(written(&e), vec![5, 0xC3, 0xA9, 0xE2, 0x82, 0xAC]);
    assert_eq!(VarString::parse(&written(&e)), Some((e, 6)));
    assert_eq!(VarString::parse(&[0]), Some((VarString(String::new()), 1)));
}

#[test]
fn string_rejects_what_is_malformed() {
    assert_eq!(VarString::parse(&[]), None);
    assert_eq!(VarString::parse(&[3, b'a', b'b']), None);
    assert_eq!(VarString::parse(&[2, 0xC3, 0x28]), None);
    assert_eq!(VarString::parse(&[1, 0xFF]), None);
    // a negative length
    assert_eq!(VarString::parse(&[0xFF, 0xFF, 0xFF, 0xFF, 0x0F, b'a']), None);
}

#[test]
fn string_limit_is_32767_characters() {
    let longest = VarString("a".repeat(32767));
    assert!(longest.fits());
    let bytes = written(&longest);
    assert_eq!(bytes.len(), 3 + 32767);
    assert_eq!(VarString::parse(&bytes), Some((longest, 3 + 32767)));

    let too_long = VarString("a".repeat(32768));
    assert!(!too_long.fits());
    let mut wire = Vec::new();
    VarInt(32768).write(&mut wire);
    wire.extend(std::iter::repeat(b'a').take(32768));
    assert_eq!(VarString::parse(&wire), None);

    // the limit counts characters, not bytes
    let wide = VarString("€".repeat(32767));
    assert!(wide.fits());
    let bytes = written(&wide);
    assert_eq!(VarString::parse(&bytes).map(|(v, _)| v), Some(wide));
}

#[test]
fn var_int_array_is_count_then_numbers() {
    let a = VarIntArray { elements: vec![VarInt(1), VarInt(300), VarInt(-1)] };
    let bytes = a.write();
    assert_eq!(bytes, vec![3, 1, 0xAC, 0x02, 0xFF, 0xFF, 0xFF, 0xFF, 0x0F]);
    assert_eq!(VarIntArray::parse(&bytes), Some((a, 9)));
    assert_eq!(VarIntArray::parse(&[0, 9]), Some((VarIntArray { elements: vec![] }, 1)));
    assert_eq!(VarIntArray::parse(&[2, 1]), None);
    assert_eq!(VarIntArray::parse(&[]), None);
}

#[test]
fn negative_count_is_refused() {
    let bytes = [0xFF, 0xFF, 0xFF, 0xFF, 0x0F, 7];
    assert_eq!(VarIntArray::parse(&bytes), None);
    assert_eq!(<CountedArray<VarInt> as Wire>::decode(&bytes), None);
    assert_eq!(<ByteArray as Wire>::decode(&bytes), None);
    assert_eq!(<IntCountedArray<Byte> as Wire>::decode(&[0xFF, 0xFF, 0xFF, 0xFF, 7]), None);
    assert_eq!(<ShortCountedArray<Byte> as Wire>::decode(&[0xFF, 0xFF, 7]), None);
    // a count of zero is an empty run
    assert_eq!(VarIntArray::parse(&[0, 7]), Some((VarIntArray { elements: vec![] }, 1)));
    assert_eq!(<ByteArray as Wire>::decode(&[0, 7]), Some((ByteArray { bytes: vec![] }, 1)));
    assert_eq!(
        <IntCountedArray<Byte> as Wire>::decode(&[0, 0, 0, 0, 7]),
        Some((IntCountedArray { elements: vec![] }, 4))
    );
    assert_eq!(
        <ShortCountedArray<Byte> as Wire>::decode(&[0, 0, 7]),
        Some((ShortCountedArray { elements: vec![] }, 2))
    );
}

#[test]
fn counted_array_of_strings() {
    let a = CountedArray { elements: vec![VarString("a".into()), VarString("bc".into())] };
    assert!(a.check());
    let bytes = written(&a);
    assert_eq!(bytes, vec![2, 1, b'a', 2, b'b', b'c']);
    assert_eq!(<CountedArray<VarString> as Wire>::decode(&bytes), Some((a, 6)));
    let bad = CountedArray { elements: vec![VarString("a".repeat(40000))] };
    assert!(!bad.check());
}

#[test]
fn byte_array_is_count_then_bytes() {
    let a = ByteArray { bytes: vec![9, 8, 7] };
    assert_eq!(written(&a), vec![3, 9, 8, 7]);
    assert_eq!(<ByteArray as Wire>::decode(&[3, 9, 8, 7, 6]), Some((a, 4)));
    assert_eq!(<ByteArray as Wire>::decode(&[3, 9, 8]), None);
}

#[test]
fn optional_value_behind_a_flag() {
    let some = Optional { value: Some(VarInt(5)) };
    let none: Optional<VarInt> = Optional { value: None };
    assert_eq!(written(&some), vec![1, 5]);
    assert_eq!(written(&none), vec![0]);
    assert_eq!(<Optional<VarInt> as Wire>::decode(&[1, 5, 9]), Some((some, 2)));
    assert_eq!(<Optional<VarInt> as Wire>::decode(&[0, 5]), Some((none, 1)));
    assert_eq!(<Optional<VarInt> as Wire>::decode(&[2, 5]), Some((Optional { value: Some(VarInt(5)) }, 2)));
    assert_eq!(<Optional<VarInt> as Wire>::decode(&[1]), None);
}

#[test]
fn unsigned_short_helpers() {
    let mut buf = vec![1];
    write_unsigned_short(&mut buf, 25565);
    assert_eq!(buf, vec![1, 0x63, 0xDD]);
    assert_eq!(read_unsigned_short(&buf[1..]), 25565);
    assert_eq!(read_unsigned_short(&[0xFF, 0xFF, 0]), 65535);
}

#[test]
fn angle_in_millionths_of_a_degree() {
    assert_eq!(Angle(0).microdegrees(), 0);
    assert_eq!(Angle(1).microdegrees(), 1_406_250);
    assert_eq!(Angle(64).microdegrees(), 90_000_000);
    assert_eq!(Angle(128).microdegrees(), 180_000_000);
    assert_eq!(Angle(255).microdegrees(), 358_593_750);
}
