//! The session engine: the state of one connection, and what it does with the
//! packets that go out and come in.
//!
//! A session is in one of three phases, which it never goes back through. It
//! may switch compression and encryption on, and neither is ever switched off
//! again. Once the server has ended the session nothing more is sent.
//!
//! The session holds no socket. What it sends it hands out as the bytes for the
//! socket, and what the socket delivers it is handed as bytes.

use vstd::prelude::*;
use crate::arrays::ByteArray;
use crate::cipher::register_after;
use crate::framing::{frame_decoded, packet_body, FrameError};
use crate::ids::{Direction, Phase, IDS};
use crate::minecraft_server::{MinecraftServer, Packet, SessionError};
use crate::packets::login::{
    DisconnectLogin, EncryptionRequest, EncryptionResponse, LoginSuccess, SetCompressionLogin,
};
use crate::packets::player::{DisconnectPlayClientbound, KeepAliveClientbound, SetCompressionPlay};
use crate::packets::serverbound::KeepAliveServerbound;
use crate::packets::{ClientboundPacket, ServerboundPacket};
use crate::varint::{lemma_var_int_len, VarInt};
use crate::version::ProtocolVersion;
use crate::wire::Wire;

verus! {

/// A packet that has come in.
#[derive(Debug, Clone, PartialEq, Eq)]
pub enum Received {
    /// A packet of the catalogue: its name and the bytes of its fields.
    Known { id: IDS, payload: Vec<u8> },
    /// A packet whose number names nothing in the phase it came in: the
    /// number, the phase and the bytes that followed the number. The session
    /// goes on.
    Unknown { number: i32, phase: Phase, payload: Vec<u8> },
}

/// What is to be done after a packet has come in.
#[derive(Debug, Clone, PartialEq, Eq)]
pub enum Reaction {
    /// Nothing: the packet is the caller's to read.
    Nothing,
    /// These bytes are to be written to the socket.
    Reply(Vec<u8>),
    /// The server asks for encryption: the join handshake is to be run.
    EncryptionRequested(EncryptionRequest),
    /// The server has ended the session and given this reason, a chat
    /// component in JSON.
    Disconnected(String),
}

/// The state of one connection to a server.
pub struct MinecraftSever {
    state: Phase,
    link: MinecraftServer,
    closed: bool,
}

impl MinecraftSever {
    /// The phase that the session is in.
    pub closed spec fn phase(&self) -> Phase {
        self.state
    }

    /// The transport of the session.
    pub closed spec fn transport(&self) -> MinecraftServer {
        self.link
    }

    /// Whether the server has ended the session.
    pub closed spec fn ended(&self) -> bool {
        self.closed
    }

    /// The compression threshold: below zero while compression is off.
    pub open spec fn threshold(&self) -> int {
        self.transport().threshold()
    }

    /// Whether the cipher is installed.
    pub open spec fn encrypted(&self) -> bool {
        self.transport().encrypted()
    }

    /// Whether `self` is what `before` may have become: the phase has not gone
    /// back, compression and encryption are still on where they were, and a
    /// session that was ended still is.
    pub open spec fn continues(&self, before: &MinecraftSever) -> bool {
        &&& before.phase().rank() <= self.phase().rank()
        &&& self.transport().continues(&before.transport())
        &&& before.ended() ==> self.ended()
    }

    /// Whether `self` differs from `before` in nothing but, at most, the
    /// compression threshold.
    pub open spec fn same_but_threshold(&self, before: &MinecraftSever) -> bool {
        &&& self.phase() == before.phase()
        &&& self.ended() == before.ended()
        &&& self.transport().same_cipher(&before.transport())
    }

    /// The bytes that send the packet with the number `id` and the fields
    /// `fields`: its frame, encrypted where the cipher is installed.
    pub open spec fn wire_of(&self, id: int, fields: Seq<u8>) -> Seq<u8> {
        self.transport().sealed(self.transport().frame_of(id, fields))
    }

    /// Why a packet is not sent, or `None` where it is sent. The packet belongs
    /// to the phase `phase`, has the number `id` and the fields `fields`, and
    /// `sendable` says whether it holds only what can be written.
    ///
    /// The reasons, in this order: the session is ended; the packet does not
    /// belong to the phase of the session; the packet holds what cannot be
    /// written; the frame cannot be made.
    pub open spec fn refusal(
        &self,
        phase: Phase,
        sendable: bool,
        id: int,
        fields: Seq<u8>,
    ) -> Option<SessionError> {
        if self.ended() {
            Some(SessionError::Closed)
        } else if phase != self.phase() {
            Some(SessionError::PhaseMismatch)
        } else if !sendable {
            Some(SessionError::Unsendable)
        } else {
            match self.transport().framed(id, fields) {
                Ok(_) => None,
                Err(e) => Some(SessionError::Frame(e)),
            }
        }
    }

    /// Whether the frame of the packet with the number `id` and the fields
    /// `fields` reads back, under the threshold of the session, as that number
    /// and those fields and nothing more.
    pub open spec fn reads_back(&self, id: int, fields: Seq<u8>) -> bool {
        let frame = self.transport().frame_of(id, fields);
        frame_decoded(frame, self.threshold()) == Ok::<(Seq<u8>, int), FrameError>(
            (packet_body(id, fields), frame.len() as int),
        )
    }

    /// A session at its beginning: handshaking, without compression, without
    /// cipher.
    pub fn connect() -> (r: Self)
        ensures
            r.phase() == Phase::Handshaking,
            r.threshold() == -1,
            !r.encrypted(),
            !r.ended(),
    {
        MinecraftSever { state: Phase::Handshaking, link: MinecraftServer::new(), closed: false }
    }

    /// The version of the protocol that the session speaks.
    pub fn version(&self) -> (v: ProtocolVersion)
        ensures
            v == ProtocolVersion::V47,
    {
        ProtocolVersion::V47
    }

    /// The phase that the session is in.
    pub fn state(&self) -> (p: Phase)
        ensures
            p == self.phase(),
    {
        self.state
    }

    /// The compression threshold: below zero while compression is off.
    pub fn compression_threshold(&self) -> (t: i32)
        ensures
            t == self.threshold(),
    {
        self.link.compress_threshold()
    }

    /// Whether the cipher is installed.
    pub fn is_encrypted(&self) -> (b: bool)
        ensures
            b == self.encrypted(),
    {
        self.link.is_encrypted()
    }

    /// Whether the server has ended the session.
    pub fn is_closed(&self) -> (b: bool)
        ensures
            b == self.ended(),
    {
        self.closed
    }

    /// Takes the session to another phase. Going back to a phase that the
    /// session has left is refused and changes nothing.
    pub fn set_state(&mut self, state: Phase) -> (r: Result<(), SessionError>)
        ensures
            match r {
                Ok(_) => {
                    &&& old(self).phase().rank() <= state.rank()
                    &&& final(self).phase() == state
                },
                Err(e) => {
                    &&& e == SessionError::PhaseRegression
                    &&& old(self).phase().rank() > state.rank()
                    &&& final(self).phase() == old(self).phase()
                },
            },
            final(self).transport() == old(self).transport(),
            final(self).ended() == old(self).ended(),
            final(self).continues(old(self)),
    {
        if !self.state.may_become(state) {
            return Err(SessionError::PhaseRegression);
        }
        self.state = state;
        Ok(())
    }

    /// Sets the compression threshold.
    ///
    /// While compression is off any threshold is taken, and one below zero
    /// leaves it off. Once it is on only the same threshold is taken again;
    /// another is refused and changes nothing.
    pub fn set_compression(&mut self, level: i32) -> (r: Result<(), SessionError>)
        ensures
            match r {
                Ok(_) => {
                    &&& old(self).threshold() < 0 || old(self).threshold() == level
                    &&& final(self).threshold() == level
                },
                Err(e) => {
                    &&& e == SessionError::CompressionAlreadySet
                    &&& old(self).threshold() >= 0
                    &&& old(self).threshold() != level
                    &&& final(self).threshold() == old(self).threshold()
                },
            },
            final(self).same_but_threshold(old(self)),
            final(self).continues(old(self)),
    {
        self.link.set_compression(level)
    }

    /// Installs the cipher in both directions, with the shared secret as key
    /// and as initial vector. Refused, with nothing changed, when the cipher is
    /// installed already or the secret does not have sixteen bytes.
    pub fn install_cipher(&mut self, shared_secret: &[u8]) -> (r: Result<(), SessionError>)
        ensures
            match r {
                Ok(_) => {
                    &&& !old(self).encrypted()
                    &&& shared_secret@.len() == 16
                    &&& final(self).encrypted()
                    &&& final(self).transport().key() == shared_secret@
                    &&& final(self).transport().outgoing_register() == shared_secret@
                    &&& final(self).transport().incoming_register() == shared_secret@
                },
                Err(SessionError::CipherAlreadyInstalled) => {
                    &&& old(self).encrypted()
                    &&& *final(self) == *old(self)
                },
                Err(SessionError::BadSecretLength) => {
                    &&& !old(self).encrypted()
                    &&& shared_secret@.len() != 16
                    &&& *final(self) == *old(self)
                },
                Err(_) => false,
            },
            final(self).threshold() == old(self).threshold(),
            final(self).phase() == old(self).phase(),
            final(self).ended() == old(self).ended(),
            final(self).continues(old(self)),
    {
        self.link.install_cipher(shared_secret)
    }

    /// Decrypts the next bytes that the socket has delivered, in place. Without
    /// a cipher they stay as they are.
    pub fn decrypt(&mut self, data: &mut Vec<u8>)
        ensures
            final(data)@ == old(self).transport().opened(old(data)@),
            final(self).phase() == old(self).phase(),
            final(self).ended() == old(self).ended(),
            final(self).threshold() == old(self).threshold(),
            final(self).encrypted() == old(self).encrypted(),
            final(self).encrypted() ==> {
                &&& final(self).transport().key() == old(self).transport().key()
                &&& final(self).transport().incoming_register() == register_after(
                    old(self).transport().incoming_register(),
                    old(data)@,
                )
                &&& final(self).transport().outgoing_register() == old(
                    self,
                ).transport().outgoing_register()
            },
            final(self).continues(old(self)),
    {
        self.link.decrypt(data)
    }

    /// The bytes that send `packet`.
    ///
    /// Refused, in this order and with nothing changed: when the session is
    /// ended; when the packet does not belong to the phase of the session;
    /// when the packet holds what cannot be written; when the frame cannot be
    /// made. Otherwise the packet's number and fields are framed, compressed and
    /// encrypted as the transport says, and the frame reads back as that number
    /// and those fields.
    pub fn send_packet<T: ServerboundPacket>(&mut self, packet: T) -> (r: Result<
        Vec<u8>,
        SessionError,
    >)
        ensures
            match r {
                Ok(bytes) => {
                    &&& !old(self).ended()
                    &&& packet.packet_id().spec_phase() == old(self).phase()
                    &&& T::sendable(packet@)
                    &&& old(self).transport().can_frame(
                        packet.packet_id().number(),
                        T::payload(packet@),
                    )
                    &&& bytes@ == old(self).wire_of(
                        packet.packet_id().number(),
                        T::payload(packet@),
                    )
                    &&& old(self).reads_back(packet.packet_id().number(), T::payload(packet@))
                    &&& final(self).encrypted() ==> final(self).transport().outgoing_register()
                        == register_after(old(self).transport().outgoing_register(), bytes@)
                },
                Err(e) => old(self).refusal(
                    packet.packet_id().spec_phase(),
                    T::sendable(packet@),
                    packet.packet_id().number(),
                    T::payload(packet@),
                ) == Some(e),
            },
            r is Err ==> *final(self) == *old(self),
            final(self).phase() == old(self).phase(),
            final(self).ended() == old(self).ended(),
            final(self).threshold() == old(self).threshold(),
            final(self).encrypted() == old(self).encrypted(),
            final(self).encrypted() ==> {
                &&& final(self).transport().key() == old(self).transport().key()
                &&& final(self).transport().incoming_register() == old(
                    self,
                ).transport().incoming_register()
            },
            final(self).continues(old(self)),
    {
        if self.closed {
            return Err(SessionError::Closed);
        }
        let id = packet.id();
        if id.phase() != self.state {
            return Err(SessionError::PhaseMismatch);
        }
        let data = match packet.to_bytes() {
            Ok(d) => d,
            Err(_) => {
                return Err(SessionError::Unsendable);
            },
        };
        let raw = Packet { id: id.parse(), data };
        match self.link.send_packet(&raw) {
            Ok(bytes) => Ok(bytes),
            Err(e) => Err(SessionError::Frame(e)),
        }
    }

    /// Reads the packet at the front of `data`, which is what the socket has
    /// delivered, decrypted: the packet and the number of bytes that its frame
    /// takes up.
    ///
    /// The number of the packet is looked up in the catalogue of the phase
    /// that the session is in. A number that names nothing there is no error:
    /// the packet is handed out as unknown.
    pub fn read_and_parse_packet(&self, data: &[u8]) -> (r: Result<(Received, usize), SessionError>)
        ensures
            match r {
                Ok((received, n)) => {
                    &&& frame_decoded(data@, self.threshold()) matches Ok((body, k))
                    &&& k == n
                    &&& VarInt::decoded(body) matches Some((number, used))
                    &&& match received {
                        Received::Known { id, payload } => {
                            &&& IDS::named(self.phase(), Direction::Clientbound, number.0 as int)
                                == Some(id)
                            &&& payload@ == body.skip(used)
                        },
                        Received::Unknown { number: n, phase, payload } => {
                            &&& IDS::named(self.phase(), Direction::Clientbound, number.0 as int)
                                is None
                            &&& n == number.0
                            &&& phase == self.phase()
                            &&& payload@ == body.skip(used)
                        },
                    }
                },
                Err(SessionError::Frame(FrameError::MissingPacketId)) => {
                    &&& frame_decoded(data@, self.threshold()) matches Ok((body, _))
                    &&& VarInt::decoded(body) is None
                },
                Err(SessionError::Frame(e)) => frame_decoded(data@, self.threshold()) == Err::<
                    (Seq<u8>, int),
                    FrameError,
                >(e),
                Err(_) => false,
            },
    {
        let (packet, n) = match self.link.receive_packet(data) {
            Ok(x) => x,
            Err(e) => {
                return Err(SessionError::Frame(e));
            },
        };
        let Packet { id, data: payload } = packet;
        match IDS::from_clientbound_id(self.state, id) {
            Some(name) => Ok((Received::Known { id: name, payload }, n)),
            None => Ok((Received::Unknown { number: id, phase: self.state, payload }, n)),
        }
    }

    /// What a packet that sets the compression threshold to `threshold` does to
    /// a session: the threshold is set where compression was off or had that
    /// threshold already, and the packet is refused otherwise.
    pub open spec fn threshold_set(
        before: &MinecraftSever,
        after: &MinecraftSever,
        threshold: int,
        r: Result<Reaction, SessionError>,
    ) -> bool {
        &&& after.same_but_threshold(before)
        &&& if before.threshold() < 0 || before.threshold() == threshold {
            r == Ok::<Reaction, SessionError>(Reaction::Nothing) && after.threshold() == threshold
        } else {
            r == Err::<Reaction, SessionError>(SessionError::CompressionAlreadySet)
                && after.threshold() == before.threshold()
        }
    }

    /// What a disconnect with the reason `reason` does to a session: the
    /// session is ended, and the reason is handed out.
    pub open spec fn disconnected(
        before: &MinecraftSever,
        after: &MinecraftSever,
        reason: Seq<char>,
        r: Result<Reaction, SessionError>,
    ) -> bool {
        &&& r matches Ok(Reaction::Disconnected(given))
        &&& given@ == reason
        &&& after.ended()
        &&& after.phase() == before.phase()
        &&& after.transport() == before.transport()
    }

    /// What a keep-alive with the number `number` does to a session: the
    /// answer with the same number is handed out for sending, and reads back as
    /// such, unless the session is ended or the frame of the answer cannot be
    /// made. (The answer has six bytes at most, so making its frame can only fail
    /// where the threshold is so low that even it is compressed.)
    pub open spec fn keep_alive_answered(
        before: &MinecraftSever,
        after: &MinecraftSever,
        number: VarInt,
        r: Result<Reaction, SessionError>,
    ) -> bool {
        match r {
            Ok(Reaction::Reply(bytes)) => {
                &&& before.refusal(before.phase(), true, 0, VarInt::wire(number)) is None
                &&& bytes@ == before.wire_of(0, VarInt::wire(number))
                &&& before.reads_back(0, VarInt::wire(number))
                &&& after.phase() == before.phase()
                &&& !after.ended()
                &&& after.threshold() == before.threshold()
                &&& after.encrypted() == before.encrypted()
                &&& after.encrypted() ==> {
                    &&& after.transport().key() == before.transport().key()
                    &&& after.transport().incoming_register()
                        == before.transport().incoming_register()
                    &&& after.transport().outgoing_register() == register_after(
                        before.transport().outgoing_register(),
                        bytes@,
                    )
                }
            },
            Ok(_) => false,
            Err(e) => {
                &&& before.refusal(before.phase(), true, 0, VarInt::wire(number)) == Some(e)
                &&& e is Frame ==> before.transport().compresses(0, VarInt::wire(number))
                &&& *after == *before
            },
        }
    }

    /// Does what a packet that has come in asks of the session itself.
    ///
    /// - A packet that sets the compression threshold sets it.
    /// - The success of the login takes the session to the play phase.
    /// - A disconnect ends the session; its reason is handed out.
    /// - A request for encryption is handed out.
    /// - A keep-alive is answered with the same number.
    ///
    /// Every other packet asks nothing, and neither does one whose number is
    /// unknown. A packet of another phase than the session's is refused, and so
    /// is one of those above whose payload is malformed; a refusal changes
    /// nothing.
    pub fn react(&mut self, received: &Received) -> (r: Result<Reaction, SessionError>)
        ensures
            final(self).continues(old(self)),
            match received {
                Received::Unknown { .. } => {
                    &&& r == Ok::<Reaction, SessionError>(Reaction::Nothing)
                    &&& *final(self) == *old(self)
                },
                Received::Known { id, payload } => if id.spec_phase() != old(self).phase() {
                    &&& r == Err::<Reaction, SessionError>(SessionError::PhaseMismatch)
                    &&& *final(self) == *old(self)
                } else {
                    match id {
                        IDS::SetCompressionLogin => match SetCompressionLogin::parsed(payload@) {
                            Some(p) => Self::threshold_set(
                                old(self),
                                final(self),
                                p.threshold.0 as int,
                                r,
                            ),
                            None => Self::refused_as_malformed(old(self), final(self), r),
                        },
                        IDS::SetCompressionPlay => match SetCompressionPlay::parsed(payload@) {
                            Some(p) => Self::threshold_set(
                                old(self),
                                final(self),
                                p.threshold.0 as int,
                                r,
                            ),
                            None => Self::refused_as_malformed(old(self), final(self), r),
                        },
                        IDS::LoginSuccess => match LoginSuccess::parsed(payload@) {
                            Some(_) => {
                                &&& r == Ok::<Reaction, SessionError>(Reaction::Nothing)
                                &&& final(self).phase() == Phase::Play
                                &&& final(self).transport() == old(self).transport()
                                &&& final(self).ended() == old(self).ended()
                            },
                            None => Self::refused_as_malformed(old(self), final(self), r),
                        },
                        IDS::DisconnectLogin => match DisconnectLogin::parsed(payload@) {
                            Some(p) => Self::disconnected(old(self), final(self), p.reason, r),
                            None => Self::refused_as_malformed(old(self), final(self), r),
                        },
                        IDS::DisconnectPlayClientbound => match DisconnectPlayClientbound::parsed(
                            payload@,
                        ) {
                            Some(p) => Self::disconnected(old(self), final(self), p.reason, r),
                            None => Self::refused_as_malformed(old(self), final(self), r),
                        },
                        IDS::EncryptionRequest => match EncryptionRequest::parsed(payload@) {
                            Some(p) => {
                                &&& r matches Ok(Reaction::EncryptionRequested(request))
                                &&& request@ == p
                                &&& *final(self) == *old(self)
                            },
                            None => Self::refused_as_malformed(old(self), final(self), r),
                        },
                        IDS::KeepAliveClientbound => match KeepAliveClientbound::parsed(payload@) {
                            Some(p) => Self::keep_alive_answered(
                                old(self),
                                final(self),
                                p.keep_alive_id,
                                r,
                            ),
                            None => Self::refused_as_malformed(old(self), final(self), r),
                        },
                        _ => {
                            &&& r == Ok::<Reaction, SessionError>(Reaction::Nothing)
                            &&& *final(self) == *old(self)
                        },
                    }
                },
            },
    {
        let (id, payload) = match received {
            Received::Unknown { .. } => {
                return Ok(Reaction::Nothing);
            },
            Received::Known { id, payload } => (*id, payload.as_slice()),
        };
        if id.phase() != self.state {
            return Err(SessionError::PhaseMismatch);
        }
        match id {
            IDS::SetCompressionLogin => match SetCompressionLogin::parse(payload) {
                Ok(p) => match self.link.set_compression(p.threshold.0) {
                    Ok(_) => Ok(Reaction::Nothing),
                    Err(e) => Err(e),
                },
                Err(_) => Err(SessionError::Malformed),
            },
            IDS::SetCompressionPlay => match SetCompressionPlay::parse(payload) {
                Ok(p) => match self.link.set_compression(p.threshold.0) {
                    Ok(_) => Ok(Reaction::Nothing),
                    Err(e) => Err(e),
                },
                Err(_) => Err(SessionError::Malformed),
            },
            IDS::LoginSuccess => match LoginSuccess::parse(payload) {
                Ok(_) => {
                    self.state = Phase::Play;
                    Ok(Reaction::Nothing)
                },
                Err(_) => Err(SessionError::Malformed),
            },
            IDS::DisconnectLogin => match DisconnectLogin::parse(payload) {
                Ok(p) => {
                    self.closed = true;
                    Ok(Reaction::Disconnected(p.reason.0))
                },
                Err(_) => Err(SessionError::Malformed),
            },
            IDS::DisconnectPlayClientbound => match DisconnectPlayClientbound::parse(payload) {
                Ok(p) => {
                    self.closed = true;
                    Ok(Reaction::Disconnected(p.reason.0))
                },
                Err(_) => Err(SessionError::Malformed),
            },
            IDS::EncryptionRequest => match EncryptionRequest::parse(payload) {
                Ok(p) => Ok(Reaction::EncryptionRequested(p)),
                Err(_) => Err(SessionError::Malformed),
            },
            IDS::KeepAliveClientbound => match KeepAliveClientbound::parse(payload) {
                Ok(p) => {
                    let answer = KeepAliveServerbound::new(p.keep_alive_id);
                    proof {
                        lemma_var_int_len(p.keep_alive_id);
                        lemma_var_int_len(VarInt(0));
                        assert(KeepAliveServerbound::payload(answer@) == VarInt::wire(
                            p.keep_alive_id,
                        ));
                        assert(answer.packet_id().number() == 0);
                    }
                    match self.send_packet(answer) {
                        Ok(bytes) => Ok(Reaction::Reply(bytes)),
                        Err(e) => Err(e),
                    }
                },
                Err(_) => Err(SessionError::Malformed),
            },
            _ => Ok(Reaction::Nothing),
        }
    }

    /// What a malformed payload does to a session: nothing, and it is refused.
    pub open spec fn refused_as_malformed(
        before: &MinecraftSever,
        after: &MinecraftSever,
        r: Result<Reaction, SessionError>,
    ) -> bool {
        r == Err::<Reaction, SessionError>(SessionError::Malformed) && *after == *before
    }

    /// Answers a request for encryption: the bytes that send the response, after
    /// which the cipher is installed in both directions.
    ///
    /// `encrypted_secret` and `encrypted_token` are the shared secret and the
    /// server's verify token as encrypted under the server's public key. The
    /// response itself still goes out in the clear; everything after it is
    /// encrypted.
    ///
    /// Refused, with nothing changed, in this order: when the cipher is
    /// installed already, when the secret does not have sixteen bytes, and when
    /// the response is not sent, for the reason for which it is not. In every
    /// other case the response is sent, and reads back as such.
    pub fn answer_encryption(
        &mut self,
        shared_secret: &[u8],
        encrypted_secret: Vec<u8>,
        encrypted_token: Vec<u8>,
    ) -> (r: Result<Vec<u8>, SessionError>)
        ensures
            final(self).continues(old(self)),
            r is Err ==> *final(self) == *old(self),
            match r {
                Ok(bytes) => {
                    let fields = ByteArray::wire(encrypted_secret@) + ByteArray::wire(
                        encrypted_token@,
                    );
                    &&& !old(self).encrypted()
                    &&& shared_secret@.len() == 16
                    &&& old(self).refusal(
                        Phase::Login,
                        ByteArray::valid(encrypted_secret@) && ByteArray::valid(encrypted_token@),
                        1,
                        fields,
                    ) is None
                    &&& bytes@ == old(self).transport().frame_of(1, fields)
                    &&& old(self).reads_back(1, fields)
                    &&& final(self).phase() == Phase::Login
                    &&& !final(self).ended()
                    &&& final(self).threshold() == old(self).threshold()
                    &&& final(self).encrypted()
                    &&& final(self).transport().key() == shared_secret@
                    &&& final(self).transport().outgoing_register() == shared_secret@
                    &&& final(self).transport().incoming_register() == shared_secret@
                },
                Err(SessionError::CipherAlreadyInstalled) => old(self).encrypted(),
                Err(SessionError::BadSecretLength) => {
                    &&& !old(self).encrypted()
                    &&& shared_secret@.len() != 16
                },
                Err(e) => {
                    &&& !old(self).encrypted()
                    &&& shared_secret@.len() == 16
                    &&& old(self).refusal(
                        Phase::Login,
                        ByteArray::valid(encrypted_secret@) && ByteArray::valid(encrypted_token@),
                        1,
                        ByteArray::wire(encrypted_secret@) + ByteArray::wire(encrypted_token@),
                    ) == Some(e)
                },
            },
    {
        if self.link.is_encrypted() {
            return Err(SessionError::CipherAlreadyInstalled);
        }
        if shared_secret.len() != 16 {
            return Err(SessionError::BadSecretLength);
        }
        let response = EncryptionResponse::new(
            ByteArray { bytes: encrypted_secret },
            ByteArray { bytes: encrypted_token },
        );
        let bytes = match self.send_packet(response) {
            Ok(b) => b,
            Err(e) => {
                return Err(e);
            },
        };
        match self.link.install_cipher(shared_secret) {
            Ok(_) => Ok(bytes),
            Err(e) => Err(e),
        }
    }
}

/// What a session may become, it may become in steps.
pub proof fn lemma_continues_in_steps(a: &MinecraftSever, b: &MinecraftSever, c: &MinecraftSever)
    requires
        b.continues(a),
        c.continues(b),
    ensures
        c.continues(a),
{
}

} // verus!
