//! The transport of one connection: frames, compression and encryption, without
//! the socket.
//!
//! What is to be sent goes in as a packet and comes out as the bytes for the
//! socket. What the socket delivers is decrypted as it comes, and packets are
//! read from the decrypted bytes.

use vstd::prelude::*;
use crate::arrays::append_bytes;
use crate::cipher::{cfb8_decrypted, cfb8_encrypted, register_after, CipherStream};
use crate::framing::{
    compresses, encode_frame, frame_decoded, framed, make_body, packet_body,
    read_frame, split_body, zlib_deflated, FrameError,
};
use crate::join::{hash_input, minecraft_hex, sha1_digest, signed_hex, signed_value};
use crate::varint::VarInt;
use crate::wire::Wire;

verus! {

/// A packet as it travels: its number and the bytes of its fields.
#[derive(Debug, Clone, PartialEq, Eq)]
pub struct Packet {
    pub id: i32,
    pub data: Vec<u8>,
}

/// Why the transport or the session refused something.
#[derive(Debug, Clone, Copy, PartialEq, Eq, Structural)]
pub enum SessionError {
    /// A frame could not be made or read.
    Frame(FrameError),
    /// Compression is on already, with another threshold.
    CompressionAlreadySet,
    /// The cipher is installed already.
    CipherAlreadyInstalled,
    /// The shared secret does not have sixteen bytes.
    BadSecretLength,
    /// The packet does not belong to the phase that the session is in.
    PhaseMismatch,
    /// The session would go back to a phase that it has left.
    PhaseRegression,
    /// The server has ended the session.
    Closed,
    /// The packet holds what cannot be written.
    Unsendable,
    /// The payload is not a well-formed packet of its kind.
    Malformed,
}

/// The two directions of an encrypted connection. Both have the same key.
pub struct CipherPair {
    outgoing: CipherStream,
    incoming: CipherStream,
}

impl CipherPair {
    #[verifier::type_invariant]
    spec fn same_key(&self) -> bool {
        self.outgoing.key() == self.incoming.key()
    }

    /// The key of both directions.
    pub closed spec fn key(&self) -> Seq<u8> {
        self.outgoing.key()
    }

    /// The register of the outgoing stream.
    pub closed spec fn outgoing_register(&self) -> Seq<u8> {
        self.outgoing.register()
    }

    /// The register of the incoming stream.
    pub closed spec fn incoming_register(&self) -> Seq<u8> {
        self.incoming.register()
    }

    /// Both directions at their beginning, with the shared secret as key and as
    /// initial vector. `None` exactly when the secret does not have sixteen
    /// bytes.
    pub fn new(shared_secret: &[u8]) -> (r: Option<Self>)
        ensures
            match r {
                Some(pair) => shared_secret@.len() == 16 && pair.key() == shared_secret@
                    && pair.outgoing_register() == shared_secret@ && pair.incoming_register()
                    == shared_secret@,
                None => shared_secret@.len() != 16,
            },
    {
        let outgoing = match CipherStream::new(shared_secret) {
            Some(s) => s,
            None => {
                return None;
            },
        };
        let incoming = match CipherStream::new(shared_secret) {
            Some(s) => s,
            None => {
                return None;
            },
        };
        Some(CipherPair { outgoing, incoming })
    }

    /// Encrypts the next outgoing bytes.
    pub fn seal(self, data: &[u8]) -> (r: (Self, Vec<u8>))
        ensures
            r.1@ == cfb8_encrypted(self.key(), self.outgoing_register(), data@),
            r.1@.len() == data@.len(),
            r.0.key() == self.key(),
            r.0.outgoing_register() == register_after(self.outgoing_register(), r.1@),
            r.0.incoming_register() == self.incoming_register(),
    {
        proof {
            use_type_invariant(&self);
        }
        let CipherPair { outgoing, incoming } = self;
        let mut outgoing = outgoing;
        let out = outgoing.encrypt(data);
        (CipherPair { outgoing, incoming }, out)
    }

    /// Decrypts the next incoming bytes.
    pub fn open(self, data: &[u8]) -> (r: (Self, Vec<u8>))
        ensures
            r.1@ == cfb8_decrypted(self.key(), self.incoming_register(), data@),
            r.1@.len() == data@.len(),
            r.0.key() == self.key(),
            r.0.incoming_register() == register_after(self.incoming_register(), data@),
            r.0.outgoing_register() == self.outgoing_register(),
    {
        proof {
            use_type_invariant(&self);
        }
        let CipherPair { outgoing, incoming } = self;
        let mut incoming = incoming;
        let out = incoming.decrypt(data);
        (CipherPair { outgoing, incoming }, out)
    }
}

/// The transport of one connection.
pub struct MinecraftServer {
    compress_threshold: i32,
    cipher: Option<CipherPair>,
}

impl MinecraftServer {
    /// The compression threshold: below zero while compression is off.
    pub closed spec fn threshold(&self) -> int {
        self.compress_threshold as int
    }

    /// Whether the cipher is installed.
    pub closed spec fn encrypted(&self) -> bool {
        self.cipher is Some
    }

    /// The key of the cipher.
    pub closed spec fn key(&self) -> Seq<u8>
        recommends
            self.encrypted(),
    {
        self.cipher->0.key()
    }

    /// The register of the outgoing stream.
    pub closed spec fn outgoing_register(&self) -> Seq<u8>
        recommends
            self.encrypted(),
    {
        self.cipher->0.outgoing_register()
    }

    /// The register of the incoming stream.
    pub closed spec fn incoming_register(&self) -> Seq<u8>
        recommends
            self.encrypted(),
    {
        self.cipher->0.incoming_register()
    }

    /// Whether `self` is what `before` may have become: compression and
    /// encryption, once on, stay on as they are.
    pub open spec fn continues(&self, before: &MinecraftServer) -> bool {
        &&& before.threshold() >= 0 ==> self.threshold() == before.threshold()
        &&& before.encrypted() ==> self.encrypted() && self.key() == before.key()
    }

    /// A transport at its beginning: without compression and without cipher.
    pub fn new() -> (r: Self)
        ensures
            r.threshold() == -1,
            !r.encrypted(),
    {
        MinecraftServer { compress_threshold: -1, cipher: None }
    }

    /// The compression threshold: below zero while compression is off.
    pub fn compress_threshold(&self) -> (t: i32)
        ensures
            t == self.threshold(),
    {
        self.compress_threshold
    }

    /// Whether the cipher is installed.
    pub fn is_encrypted(&self) -> (b: bool)
        ensures
            b == self.encrypted(),
    {
        self.cipher.is_some()
    }

    /// Sets the compression threshold.
    ///
    /// While compression is off any threshold is taken, and one below zero
    /// leaves it off. Once it is on only the same threshold is taken again;
    /// another is refused and changes nothing.
    pub fn set_compression(&mut self, threshold: i32) -> (r: Result<(), SessionError>)
        ensures
            match r {
                Ok(_) => {
                    &&& old(self).threshold() < 0 || old(self).threshold() == threshold
                    &&& final(self).threshold() == threshold
                },
                Err(e) => {
                    &&& e == SessionError::CompressionAlreadySet
                    &&& old(self).threshold() >= 0
                    &&& old(self).threshold() != threshold
                    &&& final(self).threshold() == old(self).threshold()
                },
            },
            final(self).same_cipher(old(self)),
            final(self).continues(old(self)),
    {
        if self.compress_threshold >= 0 && self.compress_threshold != threshold {
            return Err(SessionError::CompressionAlreadySet);
        }
        self.compress_threshold = threshold;
        Ok(())
    }

    /// Installs the cipher in both directions, with the shared secret as key
    /// and as initial vector.
    ///
    /// Refused, with nothing changed, when the cipher is installed already or
    /// the secret does not have sixteen bytes.
    pub fn install_cipher(&mut self, shared_secret: &[u8]) -> (r: Result<(), SessionError>)
        ensures
            match r {
                Ok(_) => {
                    &&& !old(self).encrypted()
                    &&& shared_secret@.len() == 16
                    &&& final(self).encrypted()
                    &&& final(self).key() == shared_secret@
                    &&& final(self).outgoing_register() == shared_secret@
                    &&& final(self).incoming_register() == shared_secret@
                },
                Err(SessionError::CipherAlreadyInstalled) => {
                    &&& old(self).encrypted()
                    &&& *final(self) == *old(self)
                },
                Err(SessionError::BadSecretLength) => {
                    &&& !old(self).encrypted()
                    &&& shared_secret@.len() != 16
                    &&& *final(self) == *old(self)
                },
                Err(_) => false,
            },
            final(self).threshold() == old(self).threshold(),
            final(self).continues(old(self)),
    {
        if self.cipher.is_some() {
            return Err(SessionError::CipherAlreadyInstalled);
        }
        match CipherPair::new(shared_secret) {
            Some(pair) => {
                self.cipher = Some(pair);
                Ok(())
            },
            None => Err(SessionError::BadSecretLength),
        }
    }

    /// What `data` becomes on its way out: its ciphertext where the cipher is
    /// installed, and itself where it is not.
    pub open spec fn sealed(&self, data: Seq<u8>) -> Seq<u8> {
        if self.encrypted() {
            cfb8_encrypted(self.key(), self.outgoing_register(), data)
        } else {
            data
        }
    }

    /// What `data` becomes on its way in: its plaintext where the cipher is
    /// installed, and itself where it is not.
    pub open spec fn opened(&self, data: Seq<u8>) -> Seq<u8> {
        if self.encrypted() {
            cfb8_decrypted(self.key(), self.incoming_register(), data)
        } else {
            data
        }
    }

    /// Encrypts the next outgoing bytes in place. Without a cipher they stay as
    /// they are.
    pub fn encrypt(&mut self, data: &mut Vec<u8>)
        ensures
            final(data)@ == old(self).sealed(old(data)@),
            final(data)@.len() == old(data)@.len(),
            final(self).threshold() == old(self).threshold(),
            final(self).encrypted() == old(self).encrypted(),
            final(self).encrypted() ==> {
                &&& final(self).key() == old(self).key()
                &&& final(self).outgoing_register() == register_after(
                    old(self).outgoing_register(),
                    final(data)@,
                )
                &&& final(self).incoming_register() == old(self).incoming_register()
            },
            final(self).continues(old(self)),
    {
        match self.cipher.take() {
            Some(pair) => {
                let (pair, out) = pair.seal(data.as_slice());
                *data = out;
                self.cipher = Some(pair);
            },
            None => {},
        }
    }

    /// Decrypts the next incoming bytes in place. Without a cipher they stay as
    /// they are.
    pub fn decrypt(&mut self, data: &mut Vec<u8>)
        ensures
            final(data)@ == old(self).opened(old(data)@),
            final(data)@.len() == old(data)@.len(),
            final(self).threshold() == old(self).threshold(),
            final(self).encrypted() == old(self).encrypted(),
            final(self).encrypted() ==> {
                &&& final(self).key() == old(self).key()
                &&& final(self).incoming_register() == register_after(
                    old(self).incoming_register(),
                    old(data)@,
                )
                &&& final(self).outgoing_register() == old(self).outgoing_register()
            },
            final(self).continues(old(self)),
    {
        match self.cipher.take() {
            Some(pair) => {
                let (pair, out) = pair.open(data.as_slice());
                *data = out;
                self.cipher = Some(pair);
            },
            None => {},
        }
    }

    /// What framing the packet with the number `id` and the fields `fields`
    /// gives under the threshold of this transport: its frame, before
    /// encryption, or the reason why there is none.
    pub open spec fn framed(&self, id: int, fields: Seq<u8>) -> Result<Seq<u8>, FrameError> {
        let body = packet_body(id, fields);
        framed(body, self.threshold(), zlib_deflated(body))
    }

    /// Whether the frame of such a packet can be made under the threshold of
    /// this transport.
    pub open spec fn can_frame(&self, id: int, fields: Seq<u8>) -> bool {
        self.framed(id, fields) is Ok
    }

    /// The frame of such a packet under the threshold of this transport, before
    /// encryption, where it can be made.
    pub open spec fn frame_of(&self, id: int, fields: Seq<u8>) -> Seq<u8> {
        self.framed(id, fields)->Ok_0
    }

    /// Whether such a packet is compressed under the threshold of this
    /// transport.
    pub open spec fn compresses(&self, id: int, fields: Seq<u8>) -> bool {
        compresses(packet_body(id, fields).len() as int, self.threshold())
    }

    /// Whether `self` has the cipher that `before` has, in the same state.
    pub open spec fn same_cipher(&self, before: &MinecraftServer) -> bool {
        &&& self.encrypted() == before.encrypted()
        &&& self.encrypted() ==> {
            &&& self.key() == before.key()
            &&& self.outgoing_register() == before.outgoing_register()
            &&& self.incoming_register() == before.incoming_register()
        }
    }

    /// The bytes that send `packet`: its number and fields as one frame,
    /// compressed where the threshold asks for it, and encrypted where the
    /// cipher is installed.
    ///
    /// The packet is sent exactly where its frame can be made, and the frame
    /// reads back as the packet's number and fields. An error is the reason why
    /// there is no frame, and changes nothing.
    pub fn send_packet(&mut self, packet: &Packet) -> (r: Result<Vec<u8>, FrameError>)
        ensures
            match r {
                Ok(bytes) => {
                    let frame = old(self).frame_of(packet.id as int, packet.data@);
                    &&& old(self).can_frame(packet.id as int, packet.data@)
                    &&& bytes@ == old(self).sealed(frame)
                    &&& frame_decoded(frame, old(self).threshold()) == Ok::<
                        (Seq<u8>, int),
                        FrameError,
                    >((packet_body(packet.id as int, packet.data@), frame.len() as int))
                    &&& final(self).encrypted() ==> final(self).outgoing_register()
                        == register_after(old(self).outgoing_register(), bytes@)
                },
                Err(e) => {
                    &&& old(self).framed(packet.id as int, packet.data@) == Err::<
                        Seq<u8>,
                        FrameError,
                    >(e)
                    &&& *final(self) == *old(self)
                },
            },
            final(self).threshold() == old(self).threshold(),
            final(self).encrypted() == old(self).encrypted(),
            final(self).encrypted() ==> final(self).key() == old(self).key()
                && final(self).incoming_register() == old(self).incoming_register(),
            final(self).continues(old(self)),
    {
        let body = make_body(packet.id, packet.data.as_slice());
        let mut frame = match encode_frame(body.as_slice(), self.compress_threshold) {
            Ok(f) => f,
            Err(e) => {
                return Err(e);
            },
        };
        self.encrypt(&mut frame);
        Ok(frame)
    }

    /// Reads the packet at the front of `data`, which is what the socket has
    /// delivered, decrypted: the packet, and the number of bytes that its frame
    /// takes up.
    ///
    /// `Incomplete` says that more bytes are needed; every other error that
    /// what is there is no frame of a packet.
    pub fn receive_packet(&self, data: &[u8]) -> (r: Result<(Packet, usize), FrameError>)
        ensures
            match r {
                Ok((packet, n)) => {
                    &&& frame_decoded(data@, self.threshold()) matches Ok((body, k))
                    &&& k == n
                    &&& VarInt::decoded(body) matches Some((id, used))
                    &&& id.0 == packet.id
                    &&& packet.data@ == body.skip(used)
                },
                Err(FrameError::MissingPacketId) => {
                    &&& frame_decoded(data@, self.threshold()) matches Ok((body, _))
                    &&& VarInt::decoded(body) is None
                },
                Err(e) => frame_decoded(data@, self.threshold()) == Err::<
                    (Seq<u8>, int),
                    FrameError,
                >(e),
            },
    {
        let (body, n) = match read_frame(data, self.compress_threshold) {
            Ok(x) => x,
            Err(e) => {
                proof {
                    lemma_no_missing_id(data@, self.threshold());
                }
                return Err(e);
            },
        };
        match split_body(body.as_slice()) {
            Ok((id, fields)) => Ok((Packet { id, data: fields }, n)),
            Err(e) => Err(e),
        }
    }

    /// The server hash: the SHA-1 digest of the server's id, the shared secret
    /// and the public key, read as a signed number and written in hexadecimal.
    pub fn generate_server_hash(
        server_id: String,
        shared_secret: Vec<u8>,
        public_key: Vec<u8>,
    ) -> (r: String)
        ensures
            r@ == signed_hex(
                signed_value(
                    sha1_digest(
                        hash_input(
                            vstd::utf8::encode_utf8(server_id@),
                            shared_secret@,
                            public_key@,
                        ),
                    ),
                ),
            ),
    {
        let mut input = Vec::new();
        append_bytes(server_id.as_str().as_bytes(), &mut input);
        append_bytes(shared_secret.as_slice(), &mut input);
        append_bytes(public_key.as_slice(), &mut input);
        let digest = crate::join::digest_of(input.as_slice());
        minecraft_hex(digest.as_slice())
    }

    /// A new shared secret: sixteen bytes from the random number generator.
    pub fn create_shared_secret() -> (r: Vec<u8>)
        ensures
            r@.len() == 16,
    {
        let mut secret: Vec<u8> = Vec::new();
        while secret.len() < 16
            invariant
                secret@.len() <= 16,
            decreases 16 - secret@.len(),
        {
            secret.push(0);
        }
        crate::join::fill_random(&mut secret);
        secret
    }
}

/// Reading a frame never fails for want of a packet number: that is found out
/// later, when the body is split.
pub proof fn lemma_no_missing_id(s: Seq<u8>, threshold: int)
    ensures
        frame_decoded(s, threshold) != Err::<(Seq<u8>, int), FrameError>(
            FrameError::MissingPacketId,
        ),
{
}

} // verus!
