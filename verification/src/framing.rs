//! Frames: how a packet body travels on the stream.
//!
//! A frame is a `VarInt` length and then that many bytes. Without compression
//! those bytes are the body. With compression they begin with a second
//! `VarInt`, the data length: zero where the body follows as it is, or else the
//! length of the body, which then follows as a zlib stream.
//!
//! A body is the number of a packet, as a `VarInt`, and then the packet's
//! fields.

use vstd::prelude::*;
use std::io::Read;
use std::io::Write;
use crate::arrays::{append_bytes, copy_bytes};
use crate::varint::VarInt;
use crate::wire::{lemma_field_read, lemma_join, tail, Wire};

verus! {

/// The zlib stream that `flate2` makes of `data` at its default level; `None`
/// where its encoder reports an error.
pub uninterp spec fn zlib_deflated(data: Seq<u8>) -> Option<Seq<u8>>;

/// What `flate2` inflates the zlib stream `data` to, read up to `limit` bytes;
/// `None` where it refuses the stream.
pub uninterp spec fn zlib_inflated(data: Seq<u8>, limit: nat) -> Option<Seq<u8>>;

/// Compresses `data` into a zlib stream.
///
/// Trusted: this is `flate2::write::ZlibEncoder` at the default level, writing
/// into a vector. The contract names what comes out, a stream or the report of
/// an error, and claims of a stream that inflating it again, with room for one
/// byte more than went in, gives back what went in.
#[verifier::external_body]
fn zlib_compress(data: &[u8]) -> (r: Option<Vec<u8>>)
    ensures
        match r {
            Some(z) => zlib_deflated(data@) == Some(z@) && zlib_inflated(
                z@,
                (data@.len() + 1) as nat,
            ) == Some(data@),
            None => zlib_deflated(data@) is None,
        },
{
    let mut encoder = flate2::write::ZlibEncoder::new(Vec::new(), flate2::Compression::default());
    match encoder.write_all(data) {
        Ok(_) => encoder.finish().ok(),
        Err(_) => None,
    }
}

/// Inflates the zlib stream `data`, reading no more than `limit` bytes of what
/// it inflates to.
///
/// Trusted: this is `flate2::read::ZlibDecoder`, read to the end through a
/// reader that stops after `limit` bytes. The contract names what comes out.
#[verifier::external_body]
fn zlib_decompress(data: &[u8], limit: usize) -> (r: Option<Vec<u8>>)
    ensures
        match r {
            Some(v) => zlib_inflated(data@, limit as nat) == Some(v@),
            None => zlib_inflated(data@, limit as nat) is None,
        },
{
    let mut out = Vec::new();
    match flate2::read::ZlibDecoder::new(data).take(limit as u64).read_to_end(&mut out) {
        Ok(_) => Some(out),
        Err(_) => None,
    }
}

/// Why a frame could not be made or read.
#[derive(Debug, Clone, Copy, PartialEq, Eq, Structural)]
pub enum FrameError {
    /// The bytes end before the frame does.
    Incomplete,
    /// The length of the frame is not a `VarInt` of five bytes at most, or is
    /// below zero.
    MalformedLength,
    /// The data length is not a `VarInt` of five bytes at most, is cut short,
    /// or is below zero.
    MalformedDataLength,
    /// The body is not a zlib stream.
    InflateFailed,
    /// The body inflates to another length than the data length announces.
    LengthMismatch,
    /// The body does not begin with the number of a packet.
    MissingPacketId,
    /// The body, or the frame made of it, is longer than a `VarInt` can say.
    TooLarge,
    /// The compressor reported an error.
    CompressionFailed,
}

/// The `VarInt` that stands for the length `n`.
pub open spec fn length_prefix(n: nat) -> Seq<u8> {
    VarInt::wire(VarInt(n as i32))
}

/// The frame of a body that is sent without compression.
pub open spec fn plain_frame(body: Seq<u8>) -> Seq<u8> {
    length_prefix(body.len()) + body
}

/// The frame of a body that is sent as it is although compression is on: the
/// data length is zero.
pub open spec fn escaped_frame(body: Seq<u8>) -> Seq<u8> {
    length_prefix(body.len() + 1) + seq![0u8] + body
}

/// The frame of a body of `body_len` bytes that is sent as the zlib stream
/// `deflated`.
pub open spec fn compressed_frame(body_len: nat, deflated: Seq<u8>) -> Seq<u8> {
    length_prefix(length_prefix(body_len).len() + deflated.len()) + length_prefix(body_len)
        + deflated
}

/// Whether a body of `body_len` bytes is compressed: compression is on, and
/// the body has at least `threshold` bytes and is not empty. (An empty body
/// has the data length zero either way, which says that it is not compressed.)
pub open spec fn compresses(body_len: int, threshold: int) -> bool {
    threshold >= 0 && body_len >= threshold && body_len > 0
}

/// What framing `body` under the compression threshold `threshold` gives, where
/// `deflated` is what compressing `body` gives. A threshold below zero means
/// that compression is off.
///
/// A body that is not compressed is framed unless a length that the frame has to
/// say does not fit a `VarInt`. A body that is compressed is framed unless it is
/// too long itself, the compressor reports an error, or what came out of it is
/// too long.
pub open spec fn framed(body: Seq<u8>, threshold: int, deflated: Option<Seq<u8>>) -> Result<
    Seq<u8>,
    FrameError,
> {
    if threshold < 0 {
        if body.len() <= i32::MAX {
            Ok(plain_frame(body))
        } else {
            Err(FrameError::TooLarge)
        }
    } else if !compresses(body.len() as int, threshold) {
        if body.len() + 1 <= i32::MAX {
            Ok(escaped_frame(body))
        } else {
            Err(FrameError::TooLarge)
        }
    } else if body.len() > i32::MAX {
        Err(FrameError::TooLarge)
    } else {
        match deflated {
            Some(stream) => if length_prefix(body.len()).len() + stream.len() <= i32::MAX {
                Ok(compressed_frame(body.len(), stream))
            } else {
                Err(FrameError::TooLarge)
            },
            None => Err(FrameError::CompressionFailed),
        }
    }
}

/// The body that an inflated stream gives, where `data_length` was announced.
pub open spec fn inflated_body(data_length: int, inflated: Option<Seq<u8>>) -> Result<
    Seq<u8>,
    FrameError,
> {
    match inflated {
        Some(body) => if body.len() == data_length {
            Ok(body)
        } else {
            Err(FrameError::LengthMismatch)
        },
        None => Err(FrameError::InflateFailed),
    }
}

/// The body that the bytes of a frame hold, its length left aside.
pub open spec fn payload_decoded(payload: Seq<u8>, threshold: int) -> Result<Seq<u8>, FrameError> {
    if threshold < 0 {
        Ok(payload)
    } else {
        match VarInt::decoded(payload) {
            Some((data_length, n)) => if data_length.0 < 0 {
                Err(FrameError::MalformedDataLength)
            } else if data_length.0 == 0 {
                Ok(payload.skip(n))
            } else {
                inflated_body(
                    data_length.0 as int,
                    zlib_inflated(payload.skip(n), (data_length.0 + 1) as nat),
                )
            },
            None => Err(FrameError::MalformedDataLength),
        }
    }
}

/// Whether `s` is the beginning of a `VarInt` that has not ended yet: fewer than
/// five bytes, all with the continuation flag.
pub open spec fn unfinished_length(s: Seq<u8>) -> bool {
    s.len() < 5 && forall|i: int| 0 <= i < s.len() ==> s[i] >= 128
}

/// The body of the frame at the front of `s` and the number of bytes that the
/// frame takes up.
pub open spec fn frame_decoded(s: Seq<u8>, threshold: int) -> Result<(Seq<u8>, int), FrameError> {
    match VarInt::decoded(s) {
        Some((length, n)) => if length.0 < 0 {
            Err(FrameError::MalformedLength)
        } else if s.len() < n + length.0 {
            Err(FrameError::Incomplete)
        } else {
            match payload_decoded(s.subrange(n, n + length.0), threshold) {
                Ok(body) => Ok((body, n + length.0)),
                Err(e) => Err(e),
            }
        },
        None => if unfinished_length(s) {
            Err(FrameError::Incomplete)
        } else {
            Err(FrameError::MalformedLength)
        },
    }
}

/// A frame that was made without compression is read back as the body it was
/// made of, and is the length of the body followed by the body.
pub proof fn lemma_plain_round_trip(
    body: Seq<u8>,
    deflated: Option<Seq<u8>>,
    threshold: int,
    rest: Seq<u8>,
)
    requires
        threshold < 0,
        body.len() <= i32::MAX,
    ensures
        framed(body, threshold, deflated) == Ok::<Seq<u8>, FrameError>(
            length_prefix(body.len()) + body,
        ),
        frame_decoded(plain_frame(body) + rest, threshold) == Ok::<(Seq<u8>, int), FrameError>(
            (body, plain_frame(body).len() as int),
        ),
{
    let head = length_prefix(body.len());
    let frame = head + body;
    let s = frame + rest;
    lemma_join(head, body, rest);
    assert(s.skip(0) =~= s);
    lemma_field_read::<VarInt>(s, 0, VarInt(body.len() as i32), body + rest);
    assert(s.subrange(head.len() as int, (head.len() + body.len()) as int) =~= body);
}

/// With compression on, a body below the threshold (or an empty one) is framed
/// as the length of what follows, a zero byte and the body, and is read back as
/// it was.
pub proof fn lemma_escaped_round_trip(
    body: Seq<u8>,
    deflated: Option<Seq<u8>>,
    threshold: int,
    rest: Seq<u8>,
)
    requires
        threshold >= 0,
        body.len() < threshold || body.len() == 0,
        body.len() + 1 <= i32::MAX,
    ensures
        framed(body, threshold, deflated) == Ok::<Seq<u8>, FrameError>(
            length_prefix(body.len() + 1) + seq![0u8] + body,
        ),
        frame_decoded(escaped_frame(body) + rest, threshold) == Ok::<(Seq<u8>, int), FrameError>(
            (body, escaped_frame(body).len() as int),
        ),
{
    let head = length_prefix(body.len() + 1);
    let payload = seq![0u8] + body;
    let frame = head + seq![0u8] + body;
    let s = frame + rest;
    lemma_join(head, seq![0u8], body);
    lemma_join(head, payload, rest);
    assert(s.skip(0) =~= s);
    lemma_field_read::<VarInt>(s, 0, VarInt((body.len() + 1) as i32), payload + rest);
    assert(s.subrange(head.len() as int, (head.len() + payload.len()) as int) =~= payload);
    VarInt::lemma_decoded_wire(VarInt(0), body);
    reveal(crate::varint::signed_groups);
    reveal_with_fuel(crate::varint::varint_groups, 2);
    assert(VarInt::wire(VarInt(0)) =~= seq![0u8]);
    assert(payload.skip(1) =~= body);
}

/// With compression on, a body of at least the threshold is framed with its own
/// length as the data length, and is read back as it was, provided that the
/// zlib stream it travels as inflates to it.
pub proof fn lemma_compressed_round_trip(
    body: Seq<u8>,
    stream: Seq<u8>,
    threshold: int,
    rest: Seq<u8>,
)
    requires
        0 <= threshold <= body.len(),
        1 <= body.len() <= i32::MAX,
        length_prefix(body.len()).len() + stream.len() <= i32::MAX,
        zlib_inflated(stream, (body.len() + 1) as nat) == Some(body),
    ensures
        framed(body, threshold, Some(stream)) == Ok::<Seq<u8>, FrameError>(
            length_prefix(length_prefix(body.len()).len() + stream.len()) + length_prefix(
                body.len(),
            ) + stream,
        ),
        frame_decoded(compressed_frame(body.len(), stream) + rest, threshold) == Ok::<
            (Seq<u8>, int),
            FrameError,
        >((body, compressed_frame(body.len(), stream).len() as int)),
{
    let inner = length_prefix(body.len());
    let payload = inner + stream;
    let head = length_prefix(payload.len());
    let frame = head + inner + stream;
    let s = frame + rest;
    lemma_join(head, inner, stream);
    lemma_join(head, payload, rest);
    assert(s.skip(0) =~= s);
    lemma_field_read::<VarInt>(s, 0, VarInt(payload.len() as i32), payload + rest);
    assert(s.subrange(head.len() as int, (head.len() + payload.len()) as int) =~= payload);
    VarInt::lemma_decoded_wire(VarInt(body.len() as i32), stream);
    assert(payload.skip(inner.len() as int) =~= stream);
}

/// Whatever was framed is read back as the body it was made of, whatever
/// follows the frame, provided that the zlib stream it may travel as inflates to
/// it.
pub proof fn lemma_framed_round_trip(
    body: Seq<u8>,
    threshold: int,
    deflated: Option<Seq<u8>>,
    rest: Seq<u8>,
)
    requires
        framed(body, threshold, deflated) is Ok,
        deflated matches Some(stream) ==> zlib_inflated(stream, (body.len() + 1) as nat) == Some(
            body,
        ),
    ensures
        frame_decoded(framed(body, threshold, deflated)->Ok_0 + rest, threshold) == Ok::<
            (Seq<u8>, int),
            FrameError,
        >((body, framed(body, threshold, deflated)->Ok_0.len() as int)),
{
    if threshold < 0 {
        lemma_plain_round_trip(body, deflated, threshold, rest);
    } else if !compresses(body.len() as int, threshold) {
        lemma_escaped_round_trip(body, deflated, threshold, rest);
    } else {
        lemma_compressed_round_trip(body, deflated->Some_0, threshold, rest);
    }
}

/// The frame of a body that is sent without compression. `TooLarge` exactly
/// when the body has more bytes than a `VarInt` can say.
pub fn frame_plain(body: &[u8]) -> (r: Result<Vec<u8>, FrameError>)
    ensures
        match r {
            Ok(frame) => body@.len() <= i32::MAX && frame@ == plain_frame(body@),
            Err(e) => e == FrameError::TooLarge && body@.len() > i32::MAX,
        },
{
    if body.len() > 0x7fff_ffff {
        return Err(FrameError::TooLarge);
    }
    let mut frame = Vec::new();
    VarInt(body.len() as i32).write(&mut frame);
    append_bytes(body, &mut frame);
    Ok(frame)
}

/// The frame of a body that is sent as it is although compression is on.
/// `TooLarge` exactly when the body and the zero byte before it have more bytes
/// than a `VarInt` can say.
pub fn frame_escaped(body: &[u8]) -> (r: Result<Vec<u8>, FrameError>)
    ensures
        match r {
            Ok(frame) => body@.len() + 1 <= i32::MAX && frame@ == escaped_frame(body@),
            Err(e) => e == FrameError::TooLarge && body@.len() + 1 > i32::MAX,
        },
{
    if body.len() >= 0x7fff_ffff {
        return Err(FrameError::TooLarge);
    }
    let mut frame = Vec::new();
    VarInt((body.len() + 1) as i32).write(&mut frame);
    frame.push(0);
    append_bytes(body, &mut frame);
    Ok(frame)
}

/// The frame of a body of `body_len` bytes that is sent as the zlib stream
/// `deflated`. `TooLarge` exactly when one of the two lengths that the frame
/// has to say does not fit a `VarInt`.
pub fn frame_compressed(body_len: usize, deflated: &[u8]) -> (r: Result<Vec<u8>, FrameError>)
    ensures
        match r {
            Ok(frame) => body_len <= i32::MAX && length_prefix(body_len as nat).len()
                + deflated@.len() <= i32::MAX && frame@ == compressed_frame(
                body_len as nat,
                deflated@,
            ),
            Err(e) => e == FrameError::TooLarge && !(body_len <= i32::MAX && length_prefix(
                body_len as nat,
            ).len() + deflated@.len() <= i32::MAX),
        },
{
    if body_len > 0x7fff_ffff {
        return Err(FrameError::TooLarge);
    }
    let inner = VarInt(body_len as i32);
    let inner_size = inner.size();
    if deflated.len() > 0x7fff_ffff - inner_size {
        return Err(FrameError::TooLarge);
    }
    let mut frame = Vec::new();
    VarInt((inner_size + deflated.len()) as i32).write(&mut frame);
    inner.write(&mut frame);
    append_bytes(deflated, &mut frame);
    Ok(frame)
}

/// The frame of `body` under the compression threshold `threshold`; a
/// threshold below zero means that compression is off.
///
/// A body below the threshold, or any body without compression, is framed
/// unless it is too large. A body of at least the threshold is compressed
/// first: it is framed unless the compressor reports an error or what comes
/// out is too large. A frame that was made is read back as the body it was made
/// of.
pub fn encode_frame(body: &[u8], threshold: i32) -> (r: Result<Vec<u8>, FrameError>)
    ensures
        match r {
            Ok(frame) => framed(body@, threshold as int, zlib_deflated(body@)) == Ok::<
                Seq<u8>,
                FrameError,
            >(frame@) && frame_decoded(frame@, threshold as int) == Ok::<
                (Seq<u8>, int),
                FrameError,
            >((body@, frame@.len() as int)),
            Err(e) => framed(body@, threshold as int, zlib_deflated(body@)) == Err::<
                Seq<u8>,
                FrameError,
            >(e),
        },
{
    let ghost nothing = Seq::<u8>::empty();
    if threshold < 0 {
        let r = frame_plain(body);
        proof {
            if r is Ok {
                lemma_plain_round_trip(body@, zlib_deflated(body@), threshold as int, nothing);
                assert(r.unwrap()@ + nothing =~= r.unwrap()@);
            }
        }
        return r;
    }
    if body.len() < threshold as usize || body.len() == 0 {
        let r = frame_escaped(body);
        proof {
            if r is Ok {
                lemma_escaped_round_trip(body@, zlib_deflated(body@), threshold as int, nothing);
                assert(r.unwrap()@ + nothing =~= r.unwrap()@);
            }
        }
        return r;
    }
    if body.len() > 0x7fff_ffff {
        return Err(FrameError::TooLarge);
    }
    match zlib_compress(body) {
        Some(deflated) => {
            let r = frame_compressed(body.len(), deflated.as_slice());
            proof {
                if r is Ok {
                    lemma_compressed_round_trip(body@, deflated@, threshold as int, nothing);
                    assert(r.unwrap()@ + nothing =~= r.unwrap()@);
                }
            }
            r
        },
        None => Err(FrameError::CompressionFailed),
    }
}

/// The body that an inflated stream gives, where `data_length` was announced:
/// the inflated bytes where they are as many as announced, and an error where
/// they are not or where inflating failed.
pub fn finish_inflation(data_length: usize, inflated: Option<Vec<u8>>) -> (r: Result<
    Vec<u8>,
    FrameError,
>)
    ensures
        match r {
            Ok(body) => inflated matches Some(v) && v@ == body@ && inflated_body(
                data_length as int,
                Some(v@),
            ) == Ok::<Seq<u8>, FrameError>(body@),
            Err(e) => match inflated {
                Some(v) => inflated_body(data_length as int, Some(v@)) == Err::<
                    Seq<u8>,
                    FrameError,
                >(e),
                None => e == FrameError::InflateFailed,
            },
        },
{
    match inflated {
        Some(body) => if body.len() == data_length {
            Ok(body)
        } else {
            Err(FrameError::LengthMismatch)
        },
        None => Err(FrameError::InflateFailed),
    }
}

/// The body that the bytes of a frame hold, its length left aside.
pub fn decode_payload(payload: &[u8], threshold: i32) -> (r: Result<Vec<u8>, FrameError>)
    ensures
        match r {
            Ok(body) => payload_decoded(payload@, threshold as int) == Ok::<Seq<u8>, FrameError>(
                body@,
            ),
            Err(e) => payload_decoded(payload@, threshold as int) == Err::<Seq<u8>, FrameError>(e),
        },
{
    if threshold < 0 {
        let body = copy_bytes(payload, 0, payload.len());
        assert(body@ =~= payload@);
        return Ok(body);
    }
    let (data_length, n) = match VarInt::parse(payload) {
        Some(x) => x,
        None => {
            return Err(FrameError::MalformedDataLength);
        },
    };
    proof {
        VarInt::lemma_decoded_bounds(payload@);
    }
    if data_length.0 < 0 {
        return Err(FrameError::MalformedDataLength);
    }
    let rest = tail(payload, n);
    if data_length.0 == 0 {
        let body = copy_bytes(rest, 0, rest.len());
        assert(body@ =~= rest@);
        return Ok(body);
    }
    let wanted = data_length.0 as usize;
    let inflated = zlib_decompress(rest, wanted + 1);
    finish_inflation(wanted, inflated)
}

/// Reads the frame at the front of `data`: the body it holds and the number of
/// bytes it takes up.
///
/// `Incomplete` says that `data` ends within the frame and may go on; the
/// other errors that what is there is no frame.
pub fn read_frame(data: &[u8], threshold: i32) -> (r: Result<(Vec<u8>, usize), FrameError>)
    ensures
        match r {
            Ok((body, n)) => frame_decoded(data@, threshold as int) == Ok::<
                (Seq<u8>, int),
                FrameError,
            >((body@, n as int)),
            Err(e) => frame_decoded(data@, threshold as int) == Err::<(Seq<u8>, int), FrameError>(
                e,
            ),
        },
{
    let (length, n) = match VarInt::parse(data) {
        Some(x) => x,
        None => {
            if is_unfinished_length(data) {
                return Err(FrameError::Incomplete);
            }
            return Err(FrameError::MalformedLength);
        },
    };
    proof {
        VarInt::lemma_decoded_bounds(data@);
    }
    if length.0 < 0 {
        return Err(FrameError::MalformedLength);
    }
    let len = length.0 as usize;
    if data.len() - n < len {
        return Err(FrameError::Incomplete);
    }
    let payload = vstd::slice::slice_subrange(data, n, n + len);
    match decode_payload(payload, threshold) {
        Ok(body) => Ok((body, n + len)),
        Err(e) => Err(e),
    }
}

/// Whether `data` is the beginning of a `VarInt` that has not ended yet.
pub fn is_unfinished_length(data: &[u8]) -> (b: bool)
    ensures
        b == unfinished_length(data@),
{
    if data.len() >= 5 {
        return false;
    }
    let mut i: usize = 0;
    while i < data.len()
        invariant
            i <= data@.len(),
            forall|j: int| 0 <= j < i ==> data@[j] >= 128,
        decreases data@.len() - i,
    {
        if data[i] < 128 {
            return false;
        }
        i = i + 1;
    }
    true
}

/// The body of a packet with the number `id` and the fields `fields`.
pub open spec fn packet_body(id: int, fields: Seq<u8>) -> Seq<u8> {
    VarInt::wire(VarInt(id as i32)) + fields
}

/// Makes the body of a packet: its number, then its fields.
pub fn make_body(id: i32, fields: &[u8]) -> (body: Vec<u8>)
    ensures
        body@ == packet_body(id as int, fields@),
{
    let mut body = Vec::new();
    VarInt(id).write(&mut body);
    append_bytes(fields, &mut body);
    body
}

/// Splits a body into the number of the packet and the packet's fields.
/// `MissingPacketId` exactly when the body does not begin with a `VarInt`.
pub fn split_body(body: &[u8]) -> (r: Result<(i32, Vec<u8>), FrameError>)
    ensures
        match r {
            Ok((id, fields)) => VarInt::decoded(body@) matches Some((v, n)) && v.0 == id
                && fields@ == body@.skip(n),
            Err(e) => e == FrameError::MissingPacketId && VarInt::decoded(body@) is None,
        },
{
    match VarInt::parse(body) {
        Some((id, n)) => {
            proof {
                VarInt::lemma_decoded_bounds(body@);
            }
            let rest = tail(body, n);
            let fields = copy_bytes(rest, 0, rest.len());
            assert(fields@ =~= rest@);
            Ok((id.0, fields))
        },
        None => Err(FrameError::MissingPacketId),
    }
}

/// A body that was made of a number and fields is split into them again.
pub proof fn lemma_split_made_body(id: i32, fields: Seq<u8>)
    ensures
        VarInt::decoded(packet_body(id as int, fields)) == Some(
            (VarInt(id), VarInt::wire(VarInt(id)).len() as int),
        ),
        packet_body(id as int, fields).skip(VarInt::wire(VarInt(id)).len() as int) == fields,
{
    VarInt::lemma_decoded_wire(VarInt(id), fields);
    assert(packet_body(id as int, fields).skip(VarInt::wire(VarInt(id)).len() as int) =~= fields);
}

} // verus!
