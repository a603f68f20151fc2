use minecraft_protocol::metadata::{EntityMetadata, MetadataEntry, MetadataValue};
use minecraft_protocol::optional::OptionalNbt;
use minecraft_protocol::slot::{is_well_formed_tag, nbt_length, readable_prefix, Slot, MAX_NBT_NESTING};
use minecraft_protocol::wire::Wire;

// a compound with the empty name that holds the byte "a" = 5
fn small_tag() -> Vec<u8> {
    vec![0x0A, 0x00, 0x00, 0x01, 0x00, 0x01, b'a', 0x05, 0x00]
}

#[test]
fn empty_slot_is_one_byte() {
    let empty = Slot { present: false, item_id: 0, item_count: 0, item_damage: 0, nbt: None };
    assert_eq!(Slot::parse(&[0, 9, 9]), Some((empty.clone(), 1)));
    let mut out = Vec::new();
    empty.write(&mut out);
    assert_eq!(out, vec![0]);
    assert!(empty.is_valid());
    assert_eq!(Slot::parse(&[]), None);
}

#[test]
fn slot_without_tag() {
    let bytes = [1, 0x01, 0x04, 64, 0x00, 0x03, 0x00, 0xAA];
    let slot = Slot { present: true, item_id: 260, item_count: 64, item_damage: 3, nbt: None };
    assert_eq!(Slot::parse(&bytes), Some((slot.clone(), 7)));
    let mut out = Vec::new();
    slot.write(&mut out);
    assert_eq!(out, bytes[..7].to_vec());
}

#[test]
fn slot_with_tag_takes_exactly_the_tag() {
    let mut bytes = vec![1, 0xFF, 0xFF, 1, 0x00, 0x00];
    bytes.extend(small_tag());
    let end = bytes.len();
    bytes.extend([0xDE, 0xAD]);
    let slot = Slot { present: true, item_id: -1, item_count: 1, item_damage: 0, nbt: Some(small_tag()) };
    assert_eq!(Slot::parse(&bytes), Some((slot.clone(), end)));
    assert!(slot.is_valid());
    let mut out = Vec::new();
    slot.write(&mut out);
    assert_eq!(out, bytes[..end].to_vec());
}

#[test]
fn slot_cut_short_or_with_broken_tag() {
    assert_eq!(Slot::parse(&[1, 0, 1, 1, 0, 0]), None);
    assert_eq!(Slot::parse(&[1, 0, 1]), None);
    // a compound that never ends
    assert_eq!(Slot::parse(&[1, 0, 1, 1, 0, 0, 0x0A, 0x00, 0x00, 0x01, 0x00, 0x01, b'a']), None);
    // a tag that is no tag
    assert_eq!(Slot::parse(&[1, 0, 1, 1, 0, 0, 0x63, 0x00]), None);
}

#[test]
fn slot_validity() {
    let stray = Slot { present: false, item_id: 1, item_count: 0, item_damage: 0, nbt: None };
    assert!(!stray.is_valid());
    let broken = Slot { present: true, item_id: 1, item_count: 1, item_damage: 0, nbt: Some(vec![0x0A, 0, 0]) };
    assert!(!broken.is_valid());
    let trailing = {
        let mut t = small_tag();
        t.push(0);
        Slot { present: true, item_id: 1, item_count: 1, item_damage: 0, nbt: Some(t) }
    };
    assert!(!trailing.is_valid());
    let none = Slot { present: true, item_id: 1, item_count: 1, item_damage: 0, nbt: Some(vec![]) };
    assert!(!none.is_valid());
}

#[test]
fn nbt_length_counts_the_document() {
    let mut data = small_tag();
    data.extend([1, 2, 3]);
    assert_eq!(nbt_length(&data), Some(9));
    assert_eq!(nbt_length(&data[..8]), None);
    assert_eq!(nbt_length(&[]), None);
    assert!(is_well_formed_tag(&small_tag()));
    assert!(!is_well_formed_tag(&data));
    // a nested compound with a list of two shorts
    let nested = vec![
        0x0A, 0, 0, 0x0A, 0, 1, b'n', 0x09, 0, 1, b'l', 0x02, 0, 0, 0, 2, 0, 1, 0, 2, 0x00, 0x00,
    ];
    assert_eq!(nbt_length(&nested), Some(nested.len()));
}

#[test]
fn optional_nbt() {
    assert_eq!(<OptionalNbt as Wire>::decode(&[0, 1]), Some((OptionalNbt { tag: None }, 1)));
    let mut data = small_tag();
    data.push(0x77);
    assert_eq!(<OptionalNbt as Wire>::decode(&data), Some((OptionalNbt { tag: Some(small_tag()) }, 9)));
    assert_eq!(<OptionalNbt as Wire>::decode(&[0x0A, 0]), None);
    assert_eq!(<OptionalNbt as Wire>::decode(&[]), None);
    assert!(OptionalNbt { tag: Some(small_tag()) }.check());
    assert!(!OptionalNbt { tag: Some(vec![1, 2]) }.check());
}

fn entry(index: u8, value: MetadataValue) -> MetadataEntry {
    MetadataEntry { index, value }
}

#[test]
fn metadata_reads_up_to_the_end_mark() {
    let bytes = [
        0x00, 0x0A, // index 0, byte 10
        0x21, 0xAC, 0x02, // index 1, varint 300
        0x42, 0x3F, 0x80, 0x00, 0x00, // index 2, float 1.0
        0x63, 0x02, b'h', b'i', // index 3, string "hi"
        0xC4, 0x01, // index 4, boolean true
        0x7F, 0x99,
    ];
    let expected = EntityMetadata {
        entries: vec![
            entry(0, MetadataValue::Byte(10)),
            entry(1, MetadataValue::VarInt(300)),
            entry(2, MetadataValue::Float(1.0f32.to_bits())),
            entry(3, MetadataValue::String("hi".to_string())),
            entry(4, MetadataValue::Boolean(true)),
        ],
    };
    assert_eq!(EntityMetadata::parse(&bytes), Some((expected.clone(), bytes.len() - 1)));
    assert!(expected.is_valid());
    let mut out = Vec::new();
    expected.write(&mut out);
    assert_eq!(out, bytes[..bytes.len() - 1].to_vec());
}

#[test]
fn metadata_chat_slot_and_rotation() {
    let mut bytes = vec![0x85, 0x01, b'x']; // index 5, chat "x"
    bytes.extend([0xA6, 1, 0, 5, 2, 0, 0, 0]); // index 6, slot
    bytes.extend([0xE7]); // index 7, rotation
    bytes.extend(1.0f32.to_be_bytes());
    bytes.extend(2.0f32.to_be_bytes());
    bytes.extend(3.0f32.to_be_bytes());
    bytes.push(0x7F);
    let expected = EntityMetadata {
        entries: vec![
            entry(5, MetadataValue::Chat("x".to_string())),
            entry(6, MetadataValue::Slot(Slot { present: true, item_id: 5, item_count: 2, item_damage: 0, nbt: None })),
            entry(7, MetadataValue::Rotation(1.0f32.to_bits(), 2.0f32.to_bits(), 3.0f32.to_bits())),
        ],
    };
    assert_eq!(EntityMetadata::parse(&bytes), Some((expected.clone(), bytes.len())));
    let mut out = Vec::new();
    expected.write(&mut out);
    assert_eq!(out, bytes);
}

#[test]
fn metadata_only_end_mark() {
    assert_eq!(EntityMetadata::parse(&[0x7F]), Some((EntityMetadata { entries: vec![] }, 1)));
    let mut out = Vec::new();
    EntityMetadata { entries: vec![] }.write(&mut out);
    assert_eq!(out, vec![0x7F]);
}

#[test]
fn metadata_without_end_or_cut_short() {
    assert_eq!(EntityMetadata::parse(&[]), None);
    assert_eq!(EntityMetadata::parse(&[0x00, 0x0A]), None);
    assert_eq!(EntityMetadata::parse(&[0x00]), None);
    assert_eq!(EntityMetadata::parse(&[0x42, 0x3F, 0x80]), None);
    assert_eq!(EntityMetadata::parse(&[0xE7, 0, 0, 0, 0, 0, 0, 0, 0, 0, 0, 0, 0x7F]), None);
}

#[test]
fn metadata_values_by_kind() {
    assert_eq!(MetadataValue::decode(8, &[0, 0, 0, 0, 0, 0, 0, 9, 1]), Some((MetadataValue::Position(9), 8)));
    assert_eq!(MetadataValue::decode(9, &[0, 1]), Some((MetadataValue::OptionalUuid(None), 1)));
    let mut with_id = vec![1];
    with_id.extend(0u8..16);
    let id = minecraft_protocol::basic::UUID::parse(&with_id[1..]).unwrap().0;
    assert_eq!(MetadataValue::decode(9, &with_id), Some((MetadataValue::OptionalUuid(Some(id)), 17)));
    assert_eq!(MetadataValue::decode(9, &with_id[..10]), None);
    assert_eq!(MetadataValue::decode(10, &[0x2A]), Some((MetadataValue::BlockId(42), 1)));
    assert_eq!(MetadataValue::decode(11, &[1, 2]), Some((MetadataValue::Unknown(11), 0)));
    assert_eq!(MetadataValue::decode(200, &[]), Some((MetadataValue::Unknown(200), 0)));
    assert_eq!(MetadataValue::Unknown(11).kind(), 11);
    assert_eq!(MetadataValue::BlockId(1).kind(), 10);
}

#[test]
fn metadata_validity() {
    let ok = EntityMetadata { entries: vec![entry(31, MetadataValue::Byte(1))] };
    assert!(ok.is_valid());
    let wide_index = EntityMetadata { entries: vec![entry(32, MetadataValue::Byte(1))] };
    assert!(!wide_index.is_valid());
    let end_mark = EntityMetadata { entries: vec![entry(31, MetadataValue::String(String::new()))] };
    assert!(!end_mark.is_valid());
    let high_kind = EntityMetadata { entries: vec![entry(0, MetadataValue::BlockId(1))] };
    assert!(!high_kind.is_valid());
    let long = EntityMetadata { entries: vec![entry(0, MetadataValue::Chat("a".repeat(40000)))] };
    assert!(!long.is_valid());
}

#[test]
fn tag_with_a_named_root_is_taken_whole() {
    // a compound named "root" that holds the string "s" = "é"
    let tag = vec![
        0x0A, 0x00, 0x04, b'r', b'o', b'o', b't', 0x08, 0x00, 0x01, b's', 0x00, 0x02, 0xC3, 0xA9, 0x00,
    ];
    let mut data = tag.clone();
    data.extend([0x0A, 0x00]);
    assert_eq!(nbt_length(&data), Some(tag.len()));
    let mut bytes = vec![1, 0, 1, 1, 0, 0];
    bytes.extend(&data);
    let (slot, n) = Slot::parse(&bytes).unwrap();
    assert_eq!(n, 6 + tag.len());
    assert_eq!(slot.nbt, Some(tag));
}

#[test]
fn tag_must_be_a_compound() {
    // a bare int is no document
    assert_eq!(nbt_length(&[0x03, 0x00, 0x00, 0, 0, 0, 1]), None);
    assert_eq!(nbt_length(&[0x00]), None);
    // an array that is longer than what is there
    assert_eq!(nbt_length(&[0x0A, 0, 0, 0x07, 0, 1, b'a', 0x7F, 0xFF, 0xFF, 0xFF, 1, 2, 0]), None);
}

// compounds with the empty name, `count` of them, each within the one before
fn nested_compounds(count: usize) -> Vec<u8> {
    let mut tag = Vec::new();
    for _ in 0..count {
        tag.extend([0x0A, 0x00, 0x00]);
    }
    tag.extend(std::iter::repeat(0x00).take(count));
    tag
}

// a compound that holds lists within lists, `count` of them, the innermost empty
fn nested_lists(count: usize) -> Vec<u8> {
    let mut tag = vec![0x0A, 0x00, 0x00, 0x09, 0x00, 0x01, b'l'];
    for _ in 1..count {
        tag.extend([0x09, 0, 0, 0, 1]);
    }
    tag.extend([0x00, 0, 0, 0, 0, 0x00]);
    tag
}

#[test]
fn nesting_within_the_limit_is_read() {
    assert_eq!(MAX_NBT_NESTING, 512);
    let tag = nested_compounds(512);
    let mut data = tag.clone();
    data.extend([0x0A, 0x0A, 0x09]);
    assert_eq!(nbt_length(&data), Some(tag.len()));
    assert!(is_well_formed_tag(&tag));
    let lists = nested_lists(511);
    assert_eq!(nbt_length(&lists), Some(lists.len()));
    assert!(is_well_formed_tag(&lists));
}

#[test]
fn nesting_beyond_the_limit_is_refused() {
    let tag = nested_compounds(513);
    assert_eq!(nbt_length(&tag), None);
    assert!(!is_well_formed_tag(&tag));
    let lists = nested_lists(512);
    assert_eq!(nbt_length(&lists), None);
    let mut bytes = vec![1, 0, 1, 1, 0, 0];
    bytes.extend(nested_compounds(100_000));
    assert_eq!(Slot::parse(&bytes), None);
    assert_eq!(<OptionalNbt as Wire>::decode(&nested_compounds(100_000)), None);
    assert_eq!(<OptionalNbt as Wire>::decode(&nested_lists(100_000)), None);
    let deep = Slot { present: true, item_id: 1, item_count: 1, item_damage: 0, nbt: Some(nested_compounds(5000)) };
    assert!(!deep.is_valid());
}

#[test]
fn marks_are_counted_wherever_they_stand() {
    // a compound that holds one string of 600 line feeds
    let mut tag = vec![0x0A, 0x00, 0x00, 0x08, 0x00, 0x01, b's', 0x02, 0x58];
    tag.extend(std::iter::repeat(b'\n').take(600));
    tag.push(0x00);
    assert_eq!(nbt_length(&tag), None);
    // and one of 500
    let mut tag = vec![0x0A, 0x00, 0x00, 0x08, 0x00, 0x01, b's', 0x01, 0xF4];
    tag.extend(std::iter::repeat(b'\n').take(500));
    tag.push(0x00);
    assert_eq!(nbt_length(&tag), Some(tag.len()));
}

#[test]
fn reader_is_handed_the_bytes_up_to_the_limit() {
    assert_eq!(readable_prefix(&[]), &[] as &[u8]);
    let plain = [1u8, 2, 3, 9, 10, 11];
    assert_eq!(readable_prefix(&plain), &plain[..]);
    let mut data = vec![10u8; 512];
    data.extend([1, 2, 3]);
    assert_eq!(readable_prefix(&data), &data[..]);
    data.extend([9, 4]);
    assert_eq!(readable_prefix(&data), &data[..515]);
}

#[test]
fn metadata_is_written_only_where_it_reads_back() {
    let ok = EntityMetadata { entries: vec![entry(3, MetadataValue::Byte(7))] };
    let mut out = vec![0xEE];
    assert!(ok.try_write(&mut out));
    assert_eq!(out, vec![0xEE, 3, 7, 0x7F]);
    let wide_index = EntityMetadata { entries: vec![entry(3, MetadataValue::Byte(7)), entry(32, MetadataValue::Byte(1))] };
    let mut out = vec![0xEE];
    assert!(!wide_index.try_write(&mut out));
    assert_eq!(out, vec![0xEE]);
    let broken = Slot { present: true, item_id: 1, item_count: 1, item_damage: 0, nbt: Some(vec![0x0A, 0, 0]) };
    let with_slot = EntityMetadata { entries: vec![entry(1, MetadataValue::Slot(broken))] };
    let mut out = Vec::new();
    assert!(!with_slot.try_write(&mut out));
    assert!(out.is_empty());
}

#[test]
fn metadata_value_is_written_only_where_it_reads_back() {
    let mut out = vec![1];
    assert!(MetadataValue::VarInt(300).try_write(&mut out));
    assert_eq!(out, vec![1, 0xAC, 0x02]);
    let whole = Slot { present: true, item_id: 2, item_count: 1, item_damage: 0, nbt: Some(small_tag()) };
    let mut out = Vec::new();
    assert!(MetadataValue::Slot(whole.clone()).try_write(&mut out));
    assert_eq!(Slot::parse(&out), Some((whole, out.len())));
    let mut out = vec![1];
    assert!(!MetadataValue::Chat("a".repeat(40000)).try_write(&mut out));
    assert_eq!(out, vec![1]);
    let deep = Slot { present: true, item_id: 1, item_count: 1, item_damage: 0, nbt: Some(nested_compounds(600)) };
    assert!(!MetadataValue::Slot(deep).try_write(&mut out));
    assert!(!MetadataValue::Unknown(3).try_write(&mut out));
    assert_eq!(out, vec![1]);
}
