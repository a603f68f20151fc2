//! The packets of the handshake and of the login.

use vstd::prelude::*;
use crate::arrays::ByteArray;
use crate::fixed::UnsignedShort;
use crate::ids::IDS;
use crate::packets::{malformed, unsendable, ClientboundPacket, ServerboundPacket};
use crate::text::VarString;
use crate::varint::VarInt;
use crate::wire::{lemma_field_read, lemma_join, read, tail, taken, Wire};
use crate::version::ProtocolVersion;

verus! {

/// The first packet of a connection: it says which protocol the client speaks,
/// which address it dialled, and whether it wants the server's status (1) or to
/// log in (2).
#[derive(Debug, Clone, PartialEq, Eq)]
pub struct Handshake {
    pub protocol_version: VarInt,
    pub server_address: VarString,
    pub server_port: UnsignedShort,
    pub next_state: VarInt,
}

/// What a `Handshake` holds.
pub struct HandshakeModel {
    pub protocol_version: VarInt,
    pub server_address: Seq<char>,
    pub server_port: UnsignedShort,
    pub next_state: VarInt,
}

impl View for Handshake {
    type V = HandshakeModel;

    open spec fn view(&self) -> HandshakeModel {
        HandshakeModel {
            protocol_version: self.protocol_version@,
            server_address: self.server_address@,
            server_port: self.server_port@,
            next_state: self.next_state@,
        }
    }
}

impl Handshake {
    /// A packet of the given fields.
    pub fn new(
        protocol_version: VarInt,
        server_address: VarString,
        server_port: UnsignedShort,
        next_state: VarInt,
    ) -> (r: Self)
        ensures
            r == (Handshake { protocol_version, server_address, server_port, next_state }),
    {
        Handshake { protocol_version, server_address, server_port, next_state }
    }
}

impl Handshake {
    /// The handshake of version 47 that asks to log in at the given address.
    pub fn for_login(server_address: VarString, server_port: UnsignedShort) -> (r: Self)
        ensures
            r == (Handshake {
                protocol_version: VarInt(47),
                server_address,
                server_port,
                next_state: VarInt(2),
            }),
    {
        Handshake {
            protocol_version: VarInt(ProtocolVersion::V47.id()),
            server_address,
            server_port,
            next_state: VarInt(2),
        }
    }

    /// The handshake of version 47 that asks for the status of the server at
    /// the given address.
    pub fn for_status(server_address: VarString, server_port: UnsignedShort) -> (r: Self)
        ensures
            r == (Handshake {
                protocol_version: VarInt(47),
                server_address,
                server_port,
                next_state: VarInt(1),
            }),
    {
        Handshake {
            protocol_version: VarInt(ProtocolVersion::V47.id()),
            server_address,
            server_port,
            next_state: VarInt(1),
        }
    }
}

impl Wire for Handshake {
    open spec fn valid(m: HandshakeModel) -> bool {
        &&& VarInt::valid(m.protocol_version)
        &&& VarString::valid(m.server_address)
        &&& UnsignedShort::valid(m.server_port)
        &&& VarInt::valid(m.next_state)
    }

    open spec fn wire(m: HandshakeModel) -> Seq<u8> {
        VarInt::wire(m.protocol_version)
            + VarString::wire(m.server_address)
            + UnsignedShort::wire(m.server_port)
            + VarInt::wire(m.next_state)
    }

    open spec fn decoded(s: Seq<u8>) -> Option<(HandshakeModel, int)> {
        let r0 = VarInt::decoded(s);
        let n0 = taken(r0);
        let f_protocol_version = read(r0);
        let r1 = VarString::decoded(s.skip(n0));
        let n1 = n0 + taken(r1);
        let f_server_address = read(r1);
        let r2 = UnsignedShort::decoded(s.skip(n1));
        let n2 = n1 + taken(r2);
        let f_server_port = read(r2);
        let r3 = VarInt::decoded(s.skip(n2));
        let n3 = n2 + taken(r3);
        let f_next_state = read(r3);
        if r0 is Some && r1 is Some && r2 is Some && r3 is Some {
            Some(
                (
                    HandshakeModel {
                        protocol_version: f_protocol_version,
                        server_address: f_server_address,
                        server_port: f_server_port,
                        next_state: f_next_state,
                    },
                    n3,
                ),
            )
        } else {
            None
        }
    }

    fn decode(data: &[u8]) -> (r: Option<(Self, usize)>) {
        let (f_protocol_version, k0) = match <VarInt as Wire>::decode(data) {
            Some(x) => x,
            None => {
                return None;
            },
        };
        proof {
            VarInt::lemma_decoded_bounds(data@);
        }
        let n0 = k0;
        let (f_server_address, k1) = match <VarString as Wire>::decode(tail(data, n0)) {
            Some(x) => x,
            None => {
                return None;
            },
        };
        proof {
            VarString::lemma_decoded_bounds(data@.skip(n0 as int));
        }
        let n1 = n0 + k1;
        let (f_server_port, k2) = match <UnsignedShort as Wire>::decode(tail(data, n1)) {
            Some(x) => x,
            None => {
                return None;
            },
        };
        proof {
            UnsignedShort::lemma_decoded_bounds(data@.skip(n1 as int));
        }
        let n2 = n1 + k2;
        let (f_next_state, k3) = match <VarInt as Wire>::decode(tail(data, n2)) {
            Some(x) => x,
            None => {
                return None;
            },
        };
        proof {
            VarInt::lemma_decoded_bounds(data@.skip(n2 as int));
        }
        let n3 = n2 + k3;
        Some(
            (
                Handshake {
                    protocol_version: f_protocol_version,
                    server_address: f_server_address,
                    server_port: f_server_port,
                    next_state: f_next_state,
                },
                n3,
            ),
        )
    }

    fn encode(&self, out: &mut Vec<u8>) {
        self.protocol_version.encode(out);
        self.server_address.encode(out);
        self.server_port.encode(out);
        self.next_state.encode(out);
        assert(out@ =~= old(out)@ + Self::wire(self@));
    }

    fn check(&self) -> (b: bool) {
        self.protocol_version.check()
            && self.server_address.check()
            && self.server_port.check()
            && self.next_state.check()
    }

    proof fn lemma_decoded_bounds(s: Seq<u8>) {
        let r0 = VarInt::decoded(s);
        VarInt::lemma_decoded_bounds(s);
        let n0 = taken(r0);
        let f_protocol_version = read(r0);
        let r1 = VarString::decoded(s.skip(n0));
        VarString::lemma_decoded_bounds(s.skip(n0));
        let n1 = n0 + taken(r1);
        let f_server_address = read(r1);
        let r2 = UnsignedShort::decoded(s.skip(n1));
        UnsignedShort::lemma_decoded_bounds(s.skip(n1));
        let n2 = n1 + taken(r2);
        let f_server_port = read(r2);
        let r3 = VarInt::decoded(s.skip(n2));
        VarInt::lemma_decoded_bounds(s.skip(n2));
        let n3 = n2 + taken(r3);
        let f_next_state = read(r3);
    }

    proof fn lemma_decoded_wire(m: HandshakeModel, rest: Seq<u8>) {
        let s = Self::wire(m) + rest;
        let w0 = VarInt::wire(m.protocol_version);
        let w1 = VarString::wire(m.server_address);
        let w2 = UnsignedShort::wire(m.server_port);
        let w3 = VarInt::wire(m.next_state);
        let p0 = w0;
        let p1 = p0 + w1;
        let p2 = p1 + w2;
        let p3 = p2 + w3;
        let t3 = rest;
        let t2 = w3 + t3;
        let t1 = w2 + t2;
        let t0 = w1 + t1;
        assert(s == p3 + t3);
        lemma_join(p2, w3, t3);
        lemma_join(p1, w2, t2);
        lemma_join(p0, w1, t1);
        assert(s.skip(0) =~= s);
        let a0 = 0int;
        lemma_field_read::<VarInt>(s, a0, m.protocol_version, t0);
        let a1 = a0 + w0.len();
        lemma_field_read::<VarString>(s, a1, m.server_address, t1);
        let a2 = a1 + w1.len();
        lemma_field_read::<UnsignedShort>(s, a2, m.server_port, t2);
        let a3 = a2 + w2.len();
        lemma_field_read::<VarInt>(s, a3, m.next_state, t3);
    }
}

impl ServerboundPacket for Handshake {
    open spec fn packet_id(&self) -> IDS {
        IDS::Handshake
    }

    open spec fn sendable(m: HandshakeModel) -> bool {
        Self::valid(m)
    }

    open spec fn payload(m: HandshakeModel) -> Seq<u8> {
        Self::wire(m)
    }

    fn to_bytes(&self) -> (r: Result<Vec<u8>, String>) {
        if !self.check() {
            return Err(unsendable("Handshake"));
        }
        let mut buf = Vec::new();
        self.encode(&mut buf);
        Ok(buf)
    }

    fn id(&self) -> (r: IDS) {
        IDS::Handshake
    }
}

/// Asks to log in under a player name.
#[derive(Debug, Clone, PartialEq, Eq)]
pub struct LoginStart {
    pub name: VarString,
}

/// What a `LoginStart` holds.
pub struct LoginStartModel {
    pub name: Seq<char>,
}

impl View for LoginStart {
    type V = LoginStartModel;

    open spec fn view(&self) -> LoginStartModel {
        LoginStartModel {
            name: self.name@,
        }
    }
}

impl LoginStart {
    /// A packet of the given fields.
    pub fn new(name: VarString) -> (r: Self)
        ensures
            r == (LoginStart { name }),
    {
        LoginStart { name }
    }
}

impl Wire for LoginStart {
    open spec fn valid(m: LoginStartModel) -> bool {
        &&& VarString::valid(m.name)
    }

    open spec fn wire(m: LoginStartModel) -> Seq<u8> {
        VarString::wire(m.name)
    }

    open spec fn decoded(s: Seq<u8>) -> Option<(LoginStartModel, int)> {
        let r0 = VarString::decoded(s);
        let n0 = taken(r0);
        let f_name = read(r0);
        if r0 is Some {
            Some((LoginStartModel { name: f_name }, n0))
        } else {
            None
        }
    }

    fn decode(data: &[u8]) -> (r: Option<(Self, usize)>) {
        let (f_name, k0) = match <VarString as Wire>::decode(data) {
            Some(x) => x,
            None => {
                return None;
            },
        };
        proof {
            VarString::lemma_decoded_bounds(data@);
        }
        let n0 = k0;
        Some((LoginStart { name: f_name }, n0))
    }

    fn encode(&self, out: &mut Vec<u8>) {
        self.name.encode(out);
        assert(out@ =~= old(out)@ + Self::wire(self@));
    }

    fn check(&self) -> (b: bool) {
        self.name.check()
    }

    proof fn lemma_decoded_bounds(s: Seq<u8>) {
        let r0 = VarString::decoded(s);
        VarString::lemma_decoded_bounds(s);
        let n0 = taken(r0);
        let f_name = read(r0);
    }

    proof fn lemma_decoded_wire(m: LoginStartModel, rest: Seq<u8>) {
        let s = Self::wire(m) + rest;
        let w0 = VarString::wire(m.name);
        let p0 = w0;
        let t0 = rest;
        assert(s == p0 + t0);
        assert(s.skip(0) =~= s);
        let a0 = 0int;
        lemma_field_read::<VarString>(s, a0, m.name, t0);
    }
}

impl ServerboundPacket for LoginStart {
    open spec fn packet_id(&self) -> IDS {
        IDS::LoginStart
    }

    open spec fn sendable(m: LoginStartModel) -> bool {
        Self::valid(m)
    }

    open spec fn payload(m: LoginStartModel) -> Seq<u8> {
        Self::wire(m)
    }

    fn to_bytes(&self) -> (r: Result<Vec<u8>, String>) {
        if !self.check() {
            return Err(unsendable("LoginStart"));
        }
        let mut buf = Vec::new();
        self.encode(&mut buf);
        Ok(buf)
    }

    fn id(&self) -> (r: IDS) {
        IDS::LoginStart
    }
}

/// The answer to an encryption request: the shared secret and the server's
/// verify token, both encrypted under the server's public key.
#[derive(Debug, Clone, PartialEq, Eq)]
pub struct EncryptionResponse {
    pub shared_secret: ByteArray,
    pub verify_token: ByteArray,
}

/// What a `EncryptionResponse` holds.
pub struct EncryptionResponseModel {
    pub shared_secret: Seq<u8>,
    pub verify_token: Seq<u8>,
}

impl View for EncryptionResponse {
    type V = EncryptionResponseModel;

    open spec fn view(&self) -> EncryptionResponseModel {
        EncryptionResponseModel {
            shared_secret: self.shared_secret@,
            verify_token: self.verify_token@,
        }
    }
}

impl EncryptionResponse {
    /// A packet of the given fields.
    pub fn new(shared_secret: ByteArray, verify_token: ByteArray) -> (r: Self)
        ensures
            r == (EncryptionResponse { shared_secret, verify_token }),
    {
        EncryptionResponse { shared_secret, verify_token }
    }
}

impl Wire for EncryptionResponse {
    open spec fn valid(m: EncryptionResponseModel) -> bool {
        &&& ByteArray::valid(m.shared_secret)
        &&& ByteArray::valid(m.verify_token)
    }

    open spec fn wire(m: EncryptionResponseModel) -> Seq<u8> {
        ByteArray::wire(m.shared_secret)
            + ByteArray::wire(m.verify_token)
    }

    open spec fn decoded(s: Seq<u8>) -> Option<(EncryptionResponseModel, int)> {
        let r0 = ByteArray::decoded(s);
        let n0 = taken(r0);
        let f_shared_secret = read(r0);
        let r1 = ByteArray::decoded(s.skip(n0));
        let n1 = n0 + taken(r1);
        let f_verify_token = read(r1);
        if r0 is Some && r1 is Some {
            Some(
                (
                    EncryptionResponseModel {
                        shared_secret: f_shared_secret,
                        verify_token: f_verify_token,
                    },
                    n1,
                ),
            )
        } else {
            None
        }
    }

    fn decode(data: &[u8]) -> (r: Option<(Self, usize)>) {
        let (f_shared_secret, k0) = match <ByteArray as Wire>::decode(data) {
            Some(x) => x,
            None => {
                return None;
            },
        };
        proof {
            ByteArray::lemma_decoded_bounds(data@);
        }
        let n0 = k0;
        let (f_verify_token, k1) = match <ByteArray as Wire>::decode(tail(data, n0)) {
            Some(x) => x,
            None => {
                return None;
            },
        };
        proof {
            ByteArray::lemma_decoded_bounds(data@.skip(n0 as int));
        }
        let n1 = n0 + k1;
        Some(
            (
                EncryptionResponse {
                    shared_secret: f_shared_secret,
                    verify_token: f_verify_token,
                },
                n1,
            ),
        )
    }

    fn encode(&self, out: &mut Vec<u8>) {
        self.shared_secret.encode(out);
        self.verify_token.encode(out);
        assert(out@ =~= old(out)@ + Self::wire(self@));
    }

    fn check(&self) -> (b: bool) {
        self.shared_secret.check()
            && self.verify_token.check()
    }

    proof fn lemma_decoded_bounds(s: Seq<u8>) {
        let r0 = ByteArray::decoded(s);
        ByteArray::lemma_decoded_bounds(s);
        let n0 = taken(r0);
        let f_shared_secret = read(r0);
        let r1 = ByteArray::decoded(s.skip(n0));
        ByteArray::lemma_decoded_bounds(s.skip(n0));
        let n1 = n0 + taken(r1);
        let f_verify_token = read(r1);
    }

    proof fn lemma_decoded_wire(m: EncryptionResponseModel, rest: Seq<u8>) {
        let s = Self::wire(m) + rest;
        let w0 = ByteArray::wire(m.shared_secret);
        let w1 = ByteArray::wire(m.verify_token);
        let p0 = w0;
        let p1 = p0 + w1;
        let t1 = rest;
        let t0 = w1 + t1;
        assert(s == p1 + t1);
        lemma_join(p0, w1, t1);
        assert(s.skip(0) =~= s);
        let a0 = 0int;
        lemma_field_read::<ByteArray>(s, a0, m.shared_secret, t0);
        let a1 = a0 + w0.len();
        lemma_field_read::<ByteArray>(s, a1, m.verify_token, t1);
    }
}

impl ServerboundPacket for EncryptionResponse {
    open spec fn packet_id(&self) -> IDS {
        IDS::EncryptionResponse
    }

    open spec fn sendable(m: EncryptionResponseModel) -> bool {
        Self::valid(m)
    }

    open spec fn payload(m: EncryptionResponseModel) -> Seq<u8> {
        Self::wire(m)
    }

    fn to_bytes(&self) -> (r: Result<Vec<u8>, String>) {
        if !self.check() {
            return Err(unsendable("EncryptionResponse"));
        }
        let mut buf = Vec::new();
        self.encode(&mut buf);
        Ok(buf)
    }

    fn id(&self) -> (r: IDS) {
        IDS::EncryptionResponse
    }
}

/// Ends the connection during login. The reason is a chat component in JSON,
/// which is handed on as it is.
#[derive(Debug, Clone, PartialEq, Eq)]
pub struct DisconnectLogin {
    pub reason: VarString,
}

/// What a `DisconnectLogin` holds.
pub struct DisconnectLoginModel {
    pub reason: Seq<char>,
}

impl View for DisconnectLogin {
    type V = DisconnectLoginModel;

    open spec fn view(&self) -> DisconnectLoginModel {
        DisconnectLoginModel {
            reason: self.reason@,
        }
    }
}

impl DisconnectLogin {
    /// A packet of the given fields.
    pub fn new(reason: VarString) -> (r: Self)
        ensures
            r == (DisconnectLogin { reason }),
    {
        DisconnectLogin { reason }
    }
}

impl Wire for DisconnectLogin {
    open spec fn valid(m: DisconnectLoginModel) -> bool {
        &&& VarString::valid(m.reason)
    }

    open spec fn wire(m: DisconnectLoginModel) -> Seq<u8> {
        VarString::wire(m.reason)
    }

    open spec fn decoded(s: Seq<u8>) -> Option<(DisconnectLoginModel, int)> {
        let r0 = VarString::decoded(s);
        let n0 = taken(r0);
        let f_reason = read(r0);
        if r0 is Some {
            Some((DisconnectLoginModel { reason: f_reason }, n0))
        } else {
            None
        }
    }

    fn decode(data: &[u8]) -> (r: Option<(Self, usize)>) {
        let (f_reason, k0) = match <VarString as Wire>::decode(data) {
            Some(x) => x,
            None => {
                return None;
            },
        };
        proof {
            VarString::lemma_decoded_bounds(data@);
        }
        let n0 = k0;
        Some((DisconnectLogin { reason: f_reason }, n0))
    }

    fn encode(&self, out: &mut Vec<u8>) {
        self.reason.encode(out);
        assert(out@ =~= old(out)@ + Self::wire(self@));
    }

    fn check(&self) -> (b: bool) {
        self.reason.check()
    }

    proof fn lemma_decoded_bounds(s: Seq<u8>) {
        let r0 = VarString::decoded(s);
        VarString::lemma_decoded_bounds(s);
        let n0 = taken(r0);
        let f_reason = read(r0);
    }

    proof fn lemma_decoded_wire(m: DisconnectLoginModel, rest: Seq<u8>) {
        let s = Self::wire(m) + rest;
        let w0 = VarString::wire(m.reason);
        let p0 = w0;
        let t0 = rest;
        assert(s == p0 + t0);
        assert(s.skip(0) =~= s);
        let a0 = 0int;
        lemma_field_read::<VarString>(s, a0, m.reason, t0);
    }
}

impl ClientboundPacket for DisconnectLogin {
    open spec fn listed() -> IDS {
        IDS::DisconnectLogin
    }

    open spec fn parsed(s: Seq<u8>) -> Option<DisconnectLoginModel> {
        match Self::decoded(s) {
            Some((m, _)) => Some(m),
            None => None,
        }
    }

    fn parse(data: &[u8]) -> (r: Result<Self, String>) {
        match Self::decode(data) {
            Some((p, _)) => Ok(p),
            None => Err(malformed("DisconnectLogin")),
        }
    }

    fn id() -> (r: IDS) {
        IDS::DisconnectLogin
    }
}

/// Asks the client to switch to an encrypted connection.
#[derive(Debug, Clone, PartialEq, Eq)]
pub struct EncryptionRequest {
    pub server_id: VarString,
    /// The server's public key, DER-encoded.
    pub public_key: ByteArray,
    pub verify_token: ByteArray,
}

/// What a `EncryptionRequest` holds.
pub struct EncryptionRequestModel {
    pub server_id: Seq<char>,
    pub public_key: Seq<u8>,
    pub verify_token: Seq<u8>,
}

impl View for EncryptionRequest {
    type V = EncryptionRequestModel;

    open spec fn view(&self) -> EncryptionRequestModel {
        EncryptionRequestModel {
            server_id: self.server_id@,
            public_key: self.public_key@,
            verify_token: self.verify_token@,
        }
    }
}

impl EncryptionRequest {
    /// A packet of the given fields.
    pub fn new(server_id: VarString, public_key: ByteArray, verify_token: ByteArray) -> (r: Self)
        ensures
            r == (EncryptionRequest { server_id, public_key, verify_token }),
    {
        EncryptionRequest { server_id, public_key, verify_token }
    }
}

impl Wire for EncryptionRequest {
    open spec fn valid(m: EncryptionRequestModel) -> bool {
        &&& VarString::valid(m.server_id)
        &&& ByteArray::valid(m.public_key)
        &&& ByteArray::valid(m.verify_token)
    }

    open spec fn wire(m: EncryptionRequestModel) -> Seq<u8> {
        VarString::wire(m.server_id)
            + ByteArray::wire(m.public_key)
            + ByteArray::wire(m.verify_token)
    }

    open spec fn decoded(s: Seq<u8>) -> Option<(EncryptionRequestModel, int)> {
        let r0 = VarString::decoded(s);
        let n0 = taken(r0);
        let f_server_id = read(r0);
        let r1 = ByteArray::decoded(s.skip(n0));
        let n1 = n0 + taken(r1);
        let f_public_key = read(r1);
        let r2 = ByteArray::decoded(s.skip(n1));
        let n2 = n1 + taken(r2);
        let f_verify_token = read(r2);
        if r0 is Some && r1 is Some && r2 is Some {
            Some(
                (
                    EncryptionRequestModel {
                        server_id: f_server_id,
                        public_key: f_public_key,
                        verify_token: f_verify_token,
                    },
                    n2,
                ),
            )
        } else {
            None
        }
    }

    fn decode(data: &[u8]) -> (r: Option<(Self, usize)>) {
        let (f_server_id, k0) = match <VarString as Wire>::decode(data) {
            Some(x) => x,
            None => {
                return None;
            },
        };
        proof {
            VarString::lemma_decoded_bounds(data@);
        }
        let n0 = k0;
        let (f_public_key, k1) = match <ByteArray as Wire>::decode(tail(data, n0)) {
            Some(x) => x,
            None => {
                return None;
            },
        };
        proof {
            ByteArray::lemma_decoded_bounds(data@.skip(n0 as int));
        }
        let n1 = n0 + k1;
        let (f_verify_token, k2) = match <ByteArray as Wire>::decode(tail(data, n1)) {
            Some(x) => x,
            None => {
                return None;
            },
        };
        proof {
            ByteArray::lemma_decoded_bounds(data@.skip(n1 as int));
        }
        let n2 = n1 + k2;
        Some(
            (
                EncryptionRequest {
                    server_id: f_server_id,
                    public_key: f_public_key,
                    verify_token: f_verify_token,
                },
                n2,
            ),
        )
    }

    fn encode(&self, out: &mut Vec<u8>) {
        self.server_id.encode(out);
        self.public_key.encode(out);
        self.verify_token.encode(out);
        assert(out@ =~= old(out)@ + Self::wire(self@));
    }

    fn check(&self) -> (b: bool) {
        self.server_id.check()
            && self.public_key.check()
            && self.verify_token.check()
    }

    proof fn lemma_decoded_bounds(s: Seq<u8>) {
        let r0 = VarString::decoded(s);
        VarString::lemma_decoded_bounds(s);
        let n0 = taken(r0);
        let f_server_id = read(r0);
        let r1 = ByteArray::decoded(s.skip(n0));
        ByteArray::lemma_decoded_bounds(s.skip(n0));
        let n1 = n0 + taken(r1);
        let f_public_key = read(r1);
        let r2 = ByteArray::decoded(s.skip(n1));
        ByteArray::lemma_decoded_bounds(s.skip(n1));
        let n2 = n1 + taken(r2);
        let f_verify_token = read(r2);
    }

    proof fn lemma_decoded_wire(m: EncryptionRequestModel, rest: Seq<u8>) {
        let s = Self::wire(m) + rest;
        let w0 = VarString::wire(m.server_id);
        let w1 = ByteArray::wire(m.public_key);
        let w2 = ByteArray::wire(m.verify_token);
        let p0 = w0;
        let p1 = p0 + w1;
        let p2 = p1 + w2;
        let t2 = rest;
        let t1 = w2 + t2;
        let t0 = w1 + t1;
        assert(s == p2 + t2);
        lemma_join(p1, w2, t2);
        lemma_join(p0, w1, t1);
        assert(s.skip(0) =~= s);
        let a0 = 0int;
        lemma_field_read::<VarString>(s, a0, m.server_id, t0);
        let a1 = a0 + w0.len();
        lemma_field_read::<ByteArray>(s, a1, m.public_key, t1);
        let a2 = a1 + w1.len();
        lemma_field_read::<ByteArray>(s, a2, m.verify_token, t2);
    }
}

impl ClientboundPacket for EncryptionRequest {
    open spec fn listed() -> IDS {
        IDS::EncryptionRequest
    }

    open spec fn parsed(s: Seq<u8>) -> Option<EncryptionRequestModel> {
        match Self::decoded(s) {
            Some((m, _)) => Some(m),
            None => None,
        }
    }

    fn parse(data: &[u8]) -> (r: Result<Self, String>) {
        match Self::decode(data) {
            Some((p, _)) => Ok(p),
            None => Err(malformed("EncryptionRequest")),
        }
    }

    fn id() -> (r: IDS) {
        IDS::EncryptionRequest
    }
}

/// Ends the login: from here on the connection is in the play phase.
#[derive(Debug, Clone, PartialEq, Eq)]
pub struct LoginSuccess {
    pub uuid: VarString,
    pub username: VarString,
}

/// What a `LoginSuccess` holds.
pub struct LoginSuccessModel {
    pub uuid: Seq<char>,
    pub username: Seq<char>,
}

impl View for LoginSuccess {
    type V = LoginSuccessModel;

    open spec fn view(&self) -> LoginSuccessModel {
        LoginSuccessModel {
            uuid: self.uuid@,
            username: self.username@,
        }
    }
}

impl LoginSuccess {
    /// A packet of the given fields.
    pub fn new(uuid: VarString, username: VarString) -> (r: Self)
        ensures
            r == (LoginSuccess { uuid, username }),
    {
        LoginSuccess { uuid, username }
    }
}

impl Wire for LoginSuccess {
    open spec fn valid(m: LoginSuccessModel) -> bool {
        &&& VarString::valid(m.uuid)
        &&& VarString::valid(m.username)
    }

    open spec fn wire(m: LoginSuccessModel) -> Seq<u8> {
        VarString::wire(m.uuid)
            + VarString::wire(m.username)
    }

    open spec fn decoded(s: Seq<u8>) -> Option<(LoginSuccessModel, int)> {
        let r0 = VarString::decoded(s);
        let n0 = taken(r0);
        let f_uuid = read(r0);
        let r1 = VarString::decoded(s.skip(n0));
        let n1 = n0 + taken(r1);
        let f_username = read(r1);
        if r0 is Some && r1 is Some {
            Some((LoginSuccessModel { uuid: f_uuid, username: f_username }, n1))
        } else {
            None
        }
    }

    fn decode(data: &[u8]) -> (r: Option<(Self, usize)>) {
        let (f_uuid, k0) = match <VarString as Wire>::decode(data) {
            Some(x) => x,
            None => {
                return None;
            },
        };
        proof {
            VarString::lemma_decoded_bounds(data@);
        }
        let n0 = k0;
        let (f_username, k1) = match <VarString as Wire>::decode(tail(data, n0)) {
            Some(x) => x,
            None => {
                return None;
            },
        };
        proof {
            VarString::lemma_decoded_bounds(data@.skip(n0 as int));
        }
        let n1 = n0 + k1;
        Some((LoginSuccess { uuid: f_uuid, username: f_username }, n1))
    }

    fn encode(&self, out: &mut Vec<u8>) {
        self.uuid.encode(out);
        self.username.encode(out);
        assert(out@ =~= old(out)@ + Self::wire(self@));
    }

    fn check(&self) -> (b: bool) {
        self.uuid.check()
            && self.username.check()
    }

    proof fn lemma_decoded_bounds(s: Seq<u8>) {
        let r0 = VarString::decoded(s);
        VarString::lemma_decoded_bounds(s);
        let n0 = taken(r0);
        let f_uuid = read(r0);
        let r1 = VarString::decoded(s.skip(n0));
        VarString::lemma_decoded_bounds(s.skip(n0));
        let n1 = n0 + taken(r1);
        let f_username = read(r1);
    }

    proof fn lemma_decoded_wire(m: LoginSuccessModel, rest: Seq<u8>) {
        let s = Self::wire(m) + rest;
        let w0 = VarString::wire(m.uuid);
        let w1 = VarString::wire(m.username);
        let p0 = w0;
        let p1 = p0 + w1;
        let t1 = rest;
        let t0 = w1 + t1;
        assert(s == p1 + t1);
        lemma_join(p0, w1, t1);
        assert(s.skip(0) =~= s);
        let a0 = 0int;
        lemma_field_read::<VarString>(s, a0, m.uuid, t0);
        let a1 = a0 + w0.len();
        lemma_field_read::<VarString>(s, a1, m.username, t1);
    }
}

impl ClientboundPacket for LoginSuccess {
    open spec fn listed() -> IDS {
        IDS::LoginSuccess
    }

    open spec fn parsed(s: Seq<u8>) -> Option<LoginSuccessModel> {
        match Self::decoded(s) {
            Some((m, _)) => Some(m),
            None => None,
        }
    }

    fn parse(data: &[u8]) -> (r: Result<Self, String>) {
        match Self::decode(data) {
            Some((p, _)) => Ok(p),
            None => Err(malformed("LoginSuccess")),
        }
    }

    fn id() -> (r: IDS) {
        IDS::LoginSuccess
    }
}

/// Switches compression on during login: packets of at least `threshold` bytes
/// are compressed from here on.
#[derive(Debug, Clone, Copy, PartialEq, Eq, Structural)]
pub struct SetCompressionLogin {
    pub threshold: VarInt,
}

impl View for SetCompressionLogin {
    type V = SetCompressionLogin;

    open spec fn view(&self) -> SetCompressionLogin {
        *self
    }
}

impl SetCompressionLogin {
    /// A packet of the given fields.
    pub fn new(threshold: VarInt) -> (r: Self)
        ensures
            r == (SetCompressionLogin { threshold }),
    {
        SetCompressionLogin { threshold }
    }
}

impl Wire for SetCompressionLogin {
    open spec fn valid(m: SetCompressionLogin) -> bool {
        &&& VarInt::valid(m.threshold)
    }

    open spec fn wire(m: SetCompressionLogin) -> Seq<u8> {
        VarInt::wire(m.threshold)
    }

    open spec fn decoded(s: Seq<u8>) -> Option<(SetCompressionLogin, int)> {
        let r0 = VarInt::decoded(s);
        let n0 = taken(r0);
        let f_threshold = read(r0);
        if r0 is Some {
            Some((SetCompressionLogin { threshold: f_threshold }, n0))
        } else {
            None
        }
    }

    fn decode(data: &[u8]) -> (r: Option<(Self, usize)>) {
        let (f_threshold, k0) = match <VarInt as Wire>::decode(data) {
            Some(x) => x,
            None => {
                return None;
            },
        };
        proof {
            VarInt::lemma_decoded_bounds(data@);
        }
        let n0 = k0;
        Some((SetCompressionLogin { threshold: f_threshold }, n0))
    }

    fn encode(&self, out: &mut Vec<u8>) {
        self.threshold.encode(out);
        assert(out@ =~= old(out)@ + Self::wire(self@));
    }

    fn check(&self) -> (b: bool) {
        self.threshold.check()
    }

    proof fn lemma_decoded_bounds(s: Seq<u8>) {
        let r0 = VarInt::decoded(s);
        VarInt::lemma_decoded_bounds(s);
        let n0 = taken(r0);
        let f_threshold = read(r0);
    }

    proof fn lemma_decoded_wire(m: SetCompressionLogin, rest: Seq<u8>) {
        let s = Self::wire(m) + rest;
        let w0 = VarInt::wire(m.threshold);
        let p0 = w0;
        let t0 = rest;
        assert(s == p0 + t0);
        assert(s.skip(0) =~= s);
        let a0 = 0int;
        lemma_field_read::<VarInt>(s, a0, m.threshold, t0);
    }
}

impl ClientboundPacket for SetCompressionLogin {
    open spec fn listed() -> IDS {
        IDS::SetCompressionLogin
    }

    open spec fn parsed(s: Seq<u8>) -> Option<SetCompressionLogin> {
        match Self::decoded(s) {
            Some((m, _)) => Some(m),
            None => None,
        }
    }

    fn parse(data: &[u8]) -> (r: Result<Self, String>) {
        match Self::decode(data) {
            Some((p, _)) => Ok(p),
            None => Err(malformed("SetCompressionLogin")),
        }
    }

    fn id() -> (r: IDS) {
        IDS::SetCompressionLogin
    }
}

} // verus!
