//! Plugin messages: a channel name, and then whatever bytes the plugin sends.
//!
//! The bytes have no length of their own: they are all that is left of the
//! payload.

use vstd::prelude::*;
use crate::arrays::{append_bytes, copy_bytes};
use crate::ids::IDS;
use crate::packets::{malformed, unsendable, ClientboundPacket, ServerboundPacket};
use crate::text::VarString;
use crate::wire::{tail, Wire};

verus! {

/// What a plugin message holds.
pub struct PluginMessageModel {
    pub channel: Seq<char>,
    pub data: Seq<u8>,
}

/// What a payload holds as a plugin message: the channel, and all the bytes
/// after it.
pub open spec fn plugin_message_parsed(s: Seq<u8>) -> Option<PluginMessageModel> {
    match VarString::decoded(s) {
        Some((channel, n)) => Some(PluginMessageModel { channel, data: s.skip(n) }),
        None => None,
    }
}

/// The payload of a plugin message.
pub open spec fn plugin_message_payload(m: PluginMessageModel) -> Seq<u8> {
    VarString::wire(m.channel) + m.data
}

/// A payload that was made of a plugin message is read back as that message.
pub proof fn lemma_plugin_message_round_trip(m: PluginMessageModel)
    requires
        VarString::valid(m.channel),
    ensures
        plugin_message_parsed(plugin_message_payload(m)) == Some(m),
{
    VarString::lemma_decoded_wire(m.channel, m.data);
    assert(plugin_message_payload(m).skip(VarString::wire(m.channel).len() as int) =~= m.data);
}

/// Reads a channel and the bytes after it.
fn read_plugin_message(data: &[u8]) -> (r: Option<(VarString, Vec<u8>)>)
    ensures
        match r {
            Some((channel, bytes)) => plugin_message_parsed(data@) == Some(
                PluginMessageModel { channel: channel@, data: bytes@ },
            ),
            None => plugin_message_parsed(data@) is None,
        },
{
    match VarString::parse(data) {
        Some((channel, n)) => {
            proof {
                VarString::lemma_decoded_bounds(data@);
            }
            let rest = tail(data, n);
            let bytes = copy_bytes(rest, 0, rest.len());
            assert(bytes@ =~= rest@);
            Some((channel, bytes))
        },
        None => None,
    }
}

/// A message of a plugin of the server.
#[derive(Debug, Clone, PartialEq, Eq)]
pub struct PluginMessageClientbound {
    pub channel: VarString,
    pub data: Vec<u8>,
}

impl View for PluginMessageClientbound {
    type V = PluginMessageModel;

    open spec fn view(&self) -> PluginMessageModel {
        PluginMessageModel { channel: self.channel@, data: self.data@ }
    }
}

impl PluginMessageClientbound {
    /// A packet of the given fields.
    pub fn new(channel: VarString, data: Vec<u8>) -> (r: Self)
        ensures
            r == (PluginMessageClientbound { channel, data }),
    {
        PluginMessageClientbound { channel, data }
    }

    /// Appends the channel and the bytes to `out`.
    pub fn write(&self, out: &mut Vec<u8>)
        requires
            VarString::valid(self.channel@),
        ensures
            final(out)@ == old(out)@ + plugin_message_payload(self@),
    {
        self.channel.write(out);
        append_bytes(self.data.as_slice(), out);
        assert(out@ =~= old(out)@ + plugin_message_payload(self@));
    }
}

impl ClientboundPacket for PluginMessageClientbound {
    open spec fn listed() -> IDS {
        IDS::PluginMessageClientbound
    }

    open spec fn parsed(s: Seq<u8>) -> Option<PluginMessageModel> {
        plugin_message_parsed(s)
    }

    fn parse(data: &[u8]) -> (r: Result<Self, String>) {
        match read_plugin_message(data) {
            Some((channel, data)) => Ok(PluginMessageClientbound { channel, data }),
            None => Err(malformed("PluginMessageClientbound")),
        }
    }

    fn id() -> (r: IDS) {
        IDS::PluginMessageClientbound
    }
}

/// A message to a plugin of the server.
#[derive(Debug, Clone, PartialEq, Eq)]
pub struct PluginMessageServerbound {
    pub channel: VarString,
    pub data: Vec<u8>,
}

impl View for PluginMessageServerbound {
    type V = PluginMessageModel;

    open spec fn view(&self) -> PluginMessageModel {
        PluginMessageModel { channel: self.channel@, data: self.data@ }
    }
}

impl PluginMessageServerbound {
    /// A packet of the given fields.
    pub fn new(channel: VarString, data: Vec<u8>) -> (r: Self)
        ensures
            r == (PluginMessageServerbound { channel, data }),
    {
        PluginMessageServerbound { channel, data }
    }

    /// Reads the packet from a payload: the channel, and all the bytes after
    /// it.
    pub fn parse(data: &[u8]) -> (r: Option<Self>)
        ensures
            match r {
                Some(p) => plugin_message_parsed(data@) == Some(p@),
                None => plugin_message_parsed(data@) is None,
            },
    {
        match read_plugin_message(data) {
            Some((channel, data)) => Some(PluginMessageServerbound { channel, data }),
            None => None,
        }
    }
}

impl ServerboundPacket for PluginMessageServerbound {
    open spec fn packet_id(&self) -> IDS {
        IDS::PluginMessageServerbound
    }

    open spec fn sendable(m: PluginMessageModel) -> bool {
        VarString::valid(m.channel)
    }

    open spec fn payload(m: PluginMessageModel) -> Seq<u8> {
        plugin_message_payload(m)
    }

    fn to_bytes(&self) -> (r: Result<Vec<u8>, String>) {
        if !self.channel.fits() {
            return Err(unsendable("PluginMessageServerbound"));
        }
        let mut buf = Vec::new();
        self.channel.write(&mut buf);
        append_bytes(self.data.as_slice(), &mut buf);
        assert(buf@ =~= plugin_message_payload(self@));
        Ok(buf)
    }

    fn id(&self) -> (r: IDS) {
        IDS::PluginMessageServerbound
    }
}

} // verus!
