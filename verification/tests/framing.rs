use minecraft_protocol::framing::{
    decode_payload, encode_frame, finish_inflation, frame_compressed, frame_escaped, frame_plain,
    is_unfinished_length, make_body, read_frame, split_body, FrameError,
};
use minecraft_protocol::stream::{VarIntReader, VarIntStep};
use minecraft_protocol::varint::VarInt;

fn varint(v: i32) -> Vec<u8> {
    let mut out = Vec::new();
    VarInt(v).write(&mut out);
    out
}

fn hex(s: &str) -> Vec<u8> {
    (0..s.len()).step_by(2).map(|i| u8::from_str_radix(&s[i..i + 2], 16).unwrap()).collect()
}

fn long_body() -> Vec<u8> {
    let mut body = vec![0x22];
    body.extend(0u8..=255);
    body.extend(0u8..=255);
    body
}

#[test]
fn without_compression_frame_is_length_then_body() {
    for body in [vec![], vec![0x00], vec![1, 2, 3], long_body()] {
        let frame = encode_frame(&body, -1).unwrap();
        let mut expected = varint(body.len() as i32);
        expected.extend(&body);
        assert_eq!(frame, expected);
        assert_eq!(read_frame(&frame, -1), Ok((body.clone(), frame.len())));
        assert_eq!(frame_plain(&body), Ok(expected));
    }
}

#[test]
fn below_threshold_frame_uses_zero_data_length() {
    let body = vec![0x00, 0x2F, 0x09];
    let frame = encode_frame(&body, 256).unwrap();
    assert_eq!(frame, vec![4, 0, 0x00, 0x2F, 0x09]);
    assert_eq!(read_frame(&frame, 256), Ok((body.clone(), 5)));
    assert_eq!(frame_escaped(&body), Ok(frame));
    // one byte below the threshold
    let body = vec![7u8; 255];
    let frame = encode_frame(&body, 256).unwrap();
    let mut expected = varint(256);
    expected.push(0);
    expected.extend(&body);
    assert_eq!(frame, expected);
    assert_eq!(read_frame(&frame, 256), Ok((body, expected.len())));
}

#[test]
fn at_threshold_frame_is_compressed_with_body_length_inside() {
    for (body, threshold) in [(long_body(), 256), (vec![7u8; 256], 256), (vec![1, 2, 3], 0), (vec![9], 1)] {
        let frame = encode_frame(&body, threshold).unwrap();
        let (total, n) = VarInt::parse(&frame).unwrap();
        assert_eq!(total.0 as usize, frame.len() - n);
        let (data_length, k) = VarInt::parse(&frame[n..]).unwrap();
        assert_eq!(data_length.0 as usize, body.len());
        // what follows is a zlib stream, not the body
        assert_eq!(frame[n + k], 0x78);
        assert_eq!(read_frame(&frame, threshold), Ok((body.clone(), frame.len())));
        assert_eq!(decode_payload(&frame[n..], threshold), Ok(body.clone()));
    }
}

#[test]
fn compressed_frame_is_smaller_for_repetitive_body() {
    let body = vec![b'a'; 300];
    let frame = encode_frame(&body, 64).unwrap();
    assert!(frame.len() < 50);
    assert_eq!(read_frame(&frame, 64), Ok((body, frame.len())));
}

#[test]
fn empty_body_is_never_compressed() {
    assert_eq!(encode_frame(&[], 0), Ok(vec![1, 0]));
    assert_eq!(read_frame(&[1, 0], 0), Ok((vec![], 2)));
}

#[test]
fn reads_a_stream_that_another_compressor_made() {
    let z = hex("789c536260646266616563e7e0e4e2e6e1e5e3171014121611151397909492969195935750545256515553d7d0d4d2d6d1d5d33730343236313533b7b0b4b2b6b1b5b37770747276717573f7f0f4f2f6f1f5f30f080c0a0e090d0b8f888c8a8e898d8b4f484c4a4e494d4bcfc8cccacec9cdcb2f282c2a2e292d2bafa8acaaaea9adab6f686c6a6e696d6befe8eceaeee9edeb9f3071d2e42953a74d9f3173d6ec3973e7cd5fb070d1e2254b972d5fb172d5ea356bd7addfb071d3e62d5bb76ddfb173d7ee3d7bf7ed3f70f0d0e123478f1d3f71f2d4e93367cf9dbf70f1d2e52b57af5dbf71f3d6ed3b77efdd7ff0f0d1e3274f9f3d7ff1f2d5eb376fdfbdfff0f1d3e72f5fbf7dfff1f3d7ef3f7ffffd1fe9fe0700279eff23");
    let frame = frame_compressed(513, &z).unwrap();
    let mut expected = varint(2 + z.len() as i32);
    expected.extend(varint(513));
    expected.extend(&z);
    assert_eq!(frame, expected);
    assert_eq!(read_frame(&frame, 256), Ok((long_body(), frame.len())));
}

#[test]
fn frames_follow_one_another() {
    let mut stream = encode_frame(&[1, 2, 3], -1).unwrap();
    let first = stream.len();
    stream.extend(encode_frame(&[4, 5], -1).unwrap());
    assert_eq!(read_frame(&stream, -1), Ok((vec![1, 2, 3], first)));
    assert_eq!(read_frame(&stream[first..], -1), Ok((vec![4, 5], 3)));
}

#[test]
fn frame_errors() {
    assert_eq!(read_frame(&[], -1), Err(FrameError::Incomplete));
    assert_eq!(read_frame(&[0x80], -1), Err(FrameError::Incomplete));
    assert_eq!(read_frame(&[0x80, 0x80, 0x80, 0x80], -1), Err(FrameError::Incomplete));
    assert_eq!(read_frame(&[0x80, 0x80, 0x80, 0x80, 0x80], -1), Err(FrameError::MalformedLength));
    assert_eq!(read_frame(&[0x80, 0x80, 0x80, 0x80, 0x80, 0x01], -1), Err(FrameError::MalformedLength));
    // a length below zero
    assert_eq!(read_frame(&[0xFF, 0xFF, 0xFF, 0xFF, 0x0F], -1), Err(FrameError::MalformedLength));
    assert_eq!(read_frame(&[3, 1, 2], -1), Err(FrameError::Incomplete));
    // compression on: the data length is missing, cut short or below zero
    assert_eq!(read_frame(&[0], 10), Err(FrameError::MalformedDataLength));
    assert_eq!(read_frame(&[1, 0x80], 10), Err(FrameError::MalformedDataLength));
    assert_eq!(read_frame(&[5, 0xFF, 0xFF, 0xFF, 0xFF, 0x0F], 10), Err(FrameError::MalformedDataLength));
    // not a zlib stream
    assert_eq!(read_frame(&[4, 3, 1, 2, 3], 0), Err(FrameError::InflateFailed));
}

#[test]
fn data_length_must_match_what_is_inflated() {
    let frame = encode_frame(&[5u8; 100], 10).unwrap();
    let (_, n) = VarInt::parse(&frame).unwrap();
    let (_, k) = VarInt::parse(&frame[n..]).unwrap();
    let stream = &frame[n + k..];
    for wrong in [99usize, 101, 1] {
        let lying = frame_compressed(wrong, stream).unwrap();
        assert_eq!(read_frame(&lying, 10), Err(FrameError::LengthMismatch));
    }
    // a stream that is cut short
    let cut = frame_compressed(100, &stream[..stream.len() - 4]).unwrap();
    assert_eq!(read_frame(&cut, 10), Err(FrameError::InflateFailed));
}

#[test]
fn finish_inflation_by_cases() {
    assert_eq!(finish_inflation(3, Some(vec![1, 2, 3])), Ok(vec![1, 2, 3]));
    assert_eq!(finish_inflation(2, Some(vec![1, 2, 3])), Err(FrameError::LengthMismatch));
    assert_eq!(finish_inflation(4, Some(vec![1, 2, 3])), Err(FrameError::LengthMismatch));
    assert_eq!(finish_inflation(0, None), Err(FrameError::InflateFailed));
}

#[test]
fn unfinished_length() {
    assert!(is_unfinished_length(&[]));
    assert!(is_unfinished_length(&[0x80, 0xFF]));
    assert!(!is_unfinished_length(&[0x80, 0x01]));
    assert!(!is_unfinished_length(&[0x80; 5]));
}

#[test]
fn body_is_number_then_fields() {
    assert_eq!(make_body(0x00, &[0xAD, 0xBD, 0x03]), vec![0x00, 0xAD, 0xBD, 0x03]);
    assert_eq!(make_body(300, &[]), vec![0xAC, 0x02]);
    assert_eq!(split_body(&[0xAC, 0x02, 9, 8]), Ok((300, vec![9, 8])));
    assert_eq!(split_body(&[0x03, 0x80, 0x02]), Ok((3, vec![0x80, 0x02])));
    assert_eq!(split_body(&[]), Err(FrameError::MissingPacketId));
    assert_eq!(split_body(&[0x80]), Err(FrameError::MissingPacketId));
}

#[test]
fn reader_takes_a_length_byte_by_byte() {
    let mut reader = VarIntReader::new();
    assert_eq!(reader.push(0x80), VarIntStep::NeedMore);
    assert_eq!(reader.push(0x02), VarIntStep::Done(256));
    // it begins anew
    assert_eq!(reader.push(0x10), VarIntStep::Done(16));
    for b in [0xFF, 0xFF, 0xFF, 0xFF] {
        assert_eq!(reader.push(b), VarIntStep::NeedMore);
    }
    assert_eq!(reader.push(0x0F), VarIntStep::Done(-1));
    for b in [0x80, 0x80, 0x80, 0x80] {
        assert_eq!(reader.push(b), VarIntStep::NeedMore);
    }
    assert_eq!(reader.push(0x80), VarIntStep::TooLong);
    assert_eq!(reader.push(0x00), VarIntStep::Done(0));
}

#[test]
fn reader_agrees_with_parse() {
    for v in [0, 1, 127, 128, 25565, 2097151, i32::MAX, i32::MIN, -1] {
        let bytes = varint(v);
        let mut reader = VarIntReader::new();
        for (i, b) in bytes.iter().enumerate() {
            let step = reader.push(*b);
            if i + 1 == bytes.len() {
                assert_eq!(step, VarIntStep::Done(v));
            } else {
                assert_eq!(step, VarIntStep::NeedMore);
            }
        }
    }
}

#[test]
fn lengths_beyond_a_var_int_are_refused() {
    assert_eq!(frame_compressed(0x8000_0000, &[]), Err(FrameError::TooLarge));
    assert_eq!(frame_compressed(0x7FFF_FFFF, &[]).map(|f| f.len()), Ok(1 + 5));
    assert_eq!(frame_compressed(usize::MAX, &[1, 2]), Err(FrameError::TooLarge));
}
