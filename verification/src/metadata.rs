//! Entity metadata: a list of indexed values that ends with the byte `0x7F`.
//!
//! Each entry starts with a key byte. Its low five bits are the index of the
//! entry and its high three bits say what kind of value follows.

use vstd::prelude::*;
use vstd::slice::slice_subrange;
use crate::wire::tail;
use crate::arrays::models;
use crate::basic::{Boolean, UUID};
use crate::fixed::{Byte, Float, Long};
use crate::slot::{Slot, SlotModel};
use crate::text::VarString;
use crate::varint::VarInt;
use crate::wire::Wire;

verus! {

/// The byte that ends a list of metadata.
pub const METADATA_END: u8 = 0x7F;

/// One value of entity metadata. Numbers with a fraction are held as their
/// IEEE-754 bit patterns.
#[derive(Debug, Clone, PartialEq, Eq)]
pub enum MetadataValue {
    Byte(i8),
    VarInt(i32),
    Float(u32),
    String(String),
    Chat(String),
    Slot(Slot),
    Boolean(bool),
    Rotation(u32, u32, u32),
    Position(i64),
    OptionalUuid(Option<UUID>),
    BlockId(i32),
    /// A value of a kind that is not known, kept as the number of its kind. It
    /// takes up no bytes.
    Unknown(u8),
}

/// What a value of entity metadata holds.
pub enum MetadataValueModel {
    Byte(i8),
    VarInt(i32),
    Float(u32),
    String(Seq<char>),
    Chat(Seq<char>),
    Slot(SlotModel),
    Boolean(bool),
    Rotation(u32, u32, u32),
    Position(i64),
    OptionalUuid(Option<Seq<u8>>),
    BlockId(i32),
    Unknown(u8),
}

impl View for MetadataValue {
    type V = MetadataValueModel;

    open spec fn view(&self) -> MetadataValueModel {
        match self {
            MetadataValue::Byte(v) => MetadataValueModel::Byte(*v),
            MetadataValue::VarInt(v) => MetadataValueModel::VarInt(*v),
            MetadataValue::Float(v) => MetadataValueModel::Float(*v),
            MetadataValue::String(v) => MetadataValueModel::String(v@),
            MetadataValue::Chat(v) => MetadataValueModel::Chat(v@),
            MetadataValue::Slot(v) => MetadataValueModel::Slot(v@),
            MetadataValue::Boolean(v) => MetadataValueModel::Boolean(*v),
            MetadataValue::Rotation(x, y, z) => MetadataValueModel::Rotation(*x, *y, *z),
            MetadataValue::Position(v) => MetadataValueModel::Position(*v),
            MetadataValue::OptionalUuid(v) => MetadataValueModel::OptionalUuid(
                match v {
                    Some(id) => Some(id@),
                    None => None,
                },
            ),
            MetadataValue::BlockId(v) => MetadataValueModel::BlockId(*v),
            MetadataValue::Unknown(v) => MetadataValueModel::Unknown(*v),
        }
    }
}

impl MetadataValueModel {
    /// The number of the value's kind.
    pub open spec fn kind(self) -> u8 {
        match self {
            MetadataValueModel::Byte(_) => 0,
            MetadataValueModel::VarInt(_) => 1,
            MetadataValueModel::Float(_) => 2,
            MetadataValueModel::String(_) => 3,
            MetadataValueModel::Chat(_) => 4,
            MetadataValueModel::Slot(_) => 5,
            MetadataValueModel::Boolean(_) => 6,
            MetadataValueModel::Rotation(_, _, _) => 7,
            MetadataValueModel::Position(_) => 8,
            MetadataValueModel::OptionalUuid(_) => 9,
            MetadataValueModel::BlockId(_) => 10,
            MetadataValueModel::Unknown(k) => k,
        }
    }

    /// Whether the value reads back as it is when written after the number of
    /// its kind.
    pub open spec fn valid(self) -> bool {
        match self {
            MetadataValueModel::String(v) => VarString::valid(v),
            MetadataValueModel::Chat(v) => VarString::valid(v),
            MetadataValueModel::Slot(v) => Slot::valid(v),
            MetadataValueModel::OptionalUuid(Some(id)) => id.len() == 16,
            MetadataValueModel::Unknown(k) => k > 10,
            _ => true,
        }
    }

    /// The bytes that stand for the value, without the number of its kind.
    #[verifier::opaque]
    pub open spec fn wire(self) -> Seq<u8> {
        match self {
            MetadataValueModel::Byte(v) => Byte::wire(Byte(v)),
            MetadataValueModel::VarInt(v) => VarInt::wire(VarInt(v)),
            MetadataValueModel::Float(v) => Float::wire(Float(v)),
            MetadataValueModel::String(v) => VarString::wire(v),
            MetadataValueModel::Chat(v) => VarString::wire(v),
            MetadataValueModel::Slot(v) => Slot::wire(v),
            MetadataValueModel::Boolean(v) => Boolean::wire(Boolean(v)),
            MetadataValueModel::Rotation(x, y, z) => Float::wire(Float(x)) + Float::wire(Float(y))
                + Float::wire(Float(z)),
            MetadataValueModel::Position(v) => Long::wire(Long(v)),
            MetadataValueModel::OptionalUuid(Some(id)) => seq![1u8] + id,
            MetadataValueModel::OptionalUuid(None) => seq![0u8],
            MetadataValueModel::BlockId(v) => VarInt::wire(VarInt(v)),
            MetadataValueModel::Unknown(_) => Seq::empty(),
        }
    }

    /// The value of kind `kind` at the front of `s` and the bytes it occupies,
    /// if `s` begins with a well-formed one. A kind that is not known has a
    /// value without bytes.
    #[verifier::opaque]
    pub open spec fn decoded(kind: u8, s: Seq<u8>) -> Option<(MetadataValueModel, int)> {
        match kind {
            0 => match Byte::decoded(s) {
                Some((v, n)) => Some((MetadataValueModel::Byte(v.0), n)),
                None => None,
            },
            1 => match VarInt::decoded(s) {
                Some((v, n)) => Some((MetadataValueModel::VarInt(v.0), n)),
                None => None,
            },
            2 => match Float::decoded(s) {
                Some((v, n)) => Some((MetadataValueModel::Float(v.0), n)),
                None => None,
            },
            3 => match VarString::decoded(s) {
                Some((v, n)) => Some((MetadataValueModel::String(v), n)),
                None => None,
            },
            4 => match VarString::decoded(s) {
                Some((v, n)) => Some((MetadataValueModel::Chat(v), n)),
                None => None,
            },
            5 => match Slot::decoded(s) {
                Some((v, n)) => Some((MetadataValueModel::Slot(v), n)),
                None => None,
            },
            6 => match Boolean::decoded(s) {
                Some((v, n)) => Some((MetadataValueModel::Boolean(v.0), n)),
                None => None,
            },
            7 => match (Float::decoded(s), Float::decoded(s.skip(4)), Float::decoded(s.skip(8))) {
                (Some((x, _)), Some((y, _)), Some((z, _))) => Some(
                    (MetadataValueModel::Rotation(x.0, y.0, z.0), 12),
                ),
                _ => None,
            },
            8 => match Long::decoded(s) {
                Some((v, n)) => Some((MetadataValueModel::Position(v.0), n)),
                None => None,
            },
            9 => if s.len() < 1 {
                None
            } else if s[0] == 0 {
                Some((MetadataValueModel::OptionalUuid(None), 1))
            } else {
                match UUID::decoded(s.skip(1)) {
                    Some((id, n)) => Some((MetadataValueModel::OptionalUuid(Some(id)), 1 + n)),
                    None => None,
                }
            },
            10 => match VarInt::decoded(s) {
                Some((v, n)) => Some((MetadataValueModel::BlockId(v.0), n)),
                None => None,
            },
            _ => Some((MetadataValueModel::Unknown(kind), 0)),
        }
    }

    pub proof fn lemma_decoded_bounds(kind: u8, s: Seq<u8>)
        ensures
            Self::decoded(kind, s) matches Some((m, n)) ==> 0 <= n <= s.len(),
    {
        reveal(MetadataValueModel::decoded);
        VarInt::lemma_decoded_bounds(s);
        VarString::lemma_decoded_bounds(s);
        Slot::lemma_decoded_bounds(s);
    }

    /// Reading back a value that was written gives the value and the length of
    /// its encoding, whatever follows.
    pub proof fn lemma_decoded_wire(m: MetadataValueModel, rest: Seq<u8>)
        requires
            m.valid(),
        ensures
            Self::decoded(m.kind(), m.wire() + rest) == Some((m, m.wire().len() as int)),
    {
        reveal(MetadataValueModel::decoded);
        reveal(MetadataValueModel::wire);
        let s = m.wire() + rest;
        match m {
            MetadataValueModel::Byte(v) => {
                Byte::lemma_decoded_wire(Byte(v), rest);
            },
            MetadataValueModel::VarInt(v) => {
                VarInt::lemma_decoded_wire(VarInt(v), rest);
            },
            MetadataValueModel::Float(v) => {
                Float::lemma_decoded_wire(Float(v), rest);
            },
            MetadataValueModel::String(v) => {
                VarString::lemma_decoded_wire(v, rest);
            },
            MetadataValueModel::Chat(v) => {
                VarString::lemma_decoded_wire(v, rest);
            },
            MetadataValueModel::Slot(v) => {
                Slot::lemma_decoded_wire(v, rest);
            },
            MetadataValueModel::Boolean(v) => {
                Boolean::lemma_decoded_wire(Boolean(v), rest);
            },
            MetadataValueModel::Rotation(x, y, z) => {
                let wx = Float::wire(Float(x));
                let wy = Float::wire(Float(y));
                let wz = Float::wire(Float(z));
                reveal_with_fuel(crate::wire::byte_range, 5);
                crate::fixed::lemma_unsigned_round_trip(x as nat, 4);
                crate::fixed::lemma_unsigned_round_trip(y as nat, 4);
                crate::fixed::lemma_unsigned_round_trip(z as nat, 4);
                Float::lemma_decoded_wire(Float(x), wy + wz + rest);
                Float::lemma_decoded_wire(Float(y), wz + rest);
                Float::lemma_decoded_wire(Float(z), rest);
                assert(s =~= wx + (wy + wz + rest));
                assert(s.skip(4) =~= wy + (wz + rest));
                assert(s.skip(8) =~= wz + rest);
            },
            MetadataValueModel::Position(v) => {
                Long::lemma_decoded_wire(Long(v), rest);
            },
            MetadataValueModel::OptionalUuid(Some(id)) => {
                UUID::lemma_decoded_wire(id, rest);
                assert(s[0] == 1);
                assert(s.skip(1) =~= id + rest);
            },
            MetadataValueModel::OptionalUuid(None) => {
                assert(s[0] == 0);
            },
            MetadataValueModel::BlockId(v) => {
                VarInt::lemma_decoded_wire(VarInt(v), rest);
            },
            MetadataValueModel::Unknown(_) => {},
        }
    }
}

impl MetadataValue {
    /// The number of the value's kind.
    pub fn kind(&self) -> (k: u8)
        ensures
            k == self@.kind(),
    {
        match self {
            MetadataValue::Byte(_) => 0,
            MetadataValue::VarInt(_) => 1,
            MetadataValue::Float(_) => 2,
            MetadataValue::String(_) => 3,
            MetadataValue::Chat(_) => 4,
            MetadataValue::Slot(_) => 5,
            MetadataValue::Boolean(_) => 6,
            MetadataValue::Rotation(_, _, _) => 7,
            MetadataValue::Position(_) => 8,
            MetadataValue::OptionalUuid(_) => 9,
            MetadataValue::BlockId(_) => 10,
            MetadataValue::Unknown(k) => *k,
        }
    }

    /// Reads one value of kind `kind` from the front of `data`.
    pub fn decode(kind: u8, data: &[u8]) -> (r: Option<(Self, usize)>)
        ensures
            match r {
                Some((v, n)) => MetadataValueModel::decoded(kind, data@) == Some((v@, n as int)),
                None => MetadataValueModel::decoded(kind, data@) is None,
            },
    {
        proof {
            reveal(MetadataValueModel::decoded);
        }
        match kind {
            0 => match Byte::parse(data) {
                Some((v, n)) => Some((MetadataValue::Byte(v.0), n)),
                None => None,
            },
            1 => match VarInt::parse(data) {
                Some((v, n)) => Some((MetadataValue::VarInt(v.0), n)),
                None => None,
            },
            2 => match Float::parse(data) {
                Some((v, n)) => Some((MetadataValue::Float(v.0), n)),
                None => None,
            },
            3 => match VarString::parse(data) {
                Some((v, n)) => Some((MetadataValue::String(v.0), n)),
                None => None,
            },
            4 => match VarString::parse(data) {
                Some((v, n)) => Some((MetadataValue::Chat(v.0), n)),
                None => None,
            },
            5 => match Slot::parse(data) {
                Some((v, n)) => Some((MetadataValue::Slot(v), n)),
                None => None,
            },
            6 => match Boolean::parse(data) {
                Some((v, n)) => Some((MetadataValue::Boolean(v.0), n)),
                None => None,
            },
            7 => {
                if data.len() < 12 {
                    return None;
                }
                let x = match Float::parse(data) {
                    Some((v, _)) => v.0,
                    None => {
                        return None;
                    },
                };
                let y = match Float::parse(slice_subrange(data, 4, data.len())) {
                    Some((v, _)) => v.0,
                    None => {
                        return None;
                    },
                };
                let z = match Float::parse(slice_subrange(data, 8, data.len())) {
                    Some((v, _)) => v.0,
                    None => {
                        return None;
                    },
                };
                Some((MetadataValue::Rotation(x, y, z), 12))
            },
            8 => match Long::parse(data) {
                Some((v, n)) => Some((MetadataValue::Position(v.0), n)),
                None => None,
            },
            9 => {
                if data.len() < 1 {
                    return None;
                }
                if data[0] == 0 {
                    return Some((MetadataValue::OptionalUuid(None), 1));
                }
                match UUID::parse(slice_subrange(data, 1, data.len())) {
                    Some((id, n)) => Some((MetadataValue::OptionalUuid(Some(id)), 1 + n)),
                    None => None,
                }
            },
            10 => match VarInt::parse(data) {
                Some((v, n)) => Some((MetadataValue::BlockId(v.0), n)),
                None => None,
            },
            _ => Some((MetadataValue::Unknown(kind), 0)),
        }
    }

    /// Appends the bytes of the value to `out`, without the number of its kind.
    pub fn write(&self, out: &mut Vec<u8>)
        requires
            self@.valid(),
        ensures
            final(out)@ == old(out)@ + self@.wire(),
    {
        proof {
            reveal(MetadataValueModel::wire);
        }
        match self {
            MetadataValue::Byte(v) => Byte(*v).write(out),
            MetadataValue::VarInt(v) => VarInt(*v).write(out),
            MetadataValue::Float(v) => Float(*v).write(out),
            MetadataValue::String(v) => {
                let ghost before = out@;
                let bytes = v.as_str().as_bytes();
                proof {
                    reveal(crate::text::text_bytes);
                    crate::text::lemma_encoded_len(v@);
                }
                VarInt(bytes.len() as i32).write(out);
                crate::arrays::append_bytes(bytes, out);
                assert(out@ =~= before + self@.wire());
            },
            MetadataValue::Chat(v) => {
                let ghost before = out@;
                let bytes = v.as_str().as_bytes();
                proof {
                    reveal(crate::text::text_bytes);
                    crate::text::lemma_encoded_len(v@);
                }
                VarInt(bytes.len() as i32).write(out);
                crate::arrays::append_bytes(bytes, out);
                assert(out@ =~= before + self@.wire());
            },
            MetadataValue::Slot(v) => v.write(out),
            MetadataValue::Boolean(v) => Boolean(*v).write(out),
            MetadataValue::Rotation(x, y, z) => {
                let ghost before = out@;
                Float(*x).write(out);
                Float(*y).write(out);
                Float(*z).write(out);
                assert(out@ =~= before + self@.wire());
            },
            MetadataValue::Position(v) => Long(*v).write(out),
            MetadataValue::OptionalUuid(Some(id)) => {
                let ghost before = out@;
                out.push(1);
                id.write(out);
                assert(out@ =~= before + self@.wire());
            },
            MetadataValue::OptionalUuid(None) => {
                out.push(0);
                assert(out@ =~= old(out)@ + self@.wire());
            },
            MetadataValue::BlockId(v) => VarInt(*v).write(out),
            MetadataValue::Unknown(_) => {
                assert(out@ =~= old(out)@ + self@.wire());
            },
        }
    }

    /// Appends the bytes of the value to `out`, without the number of its kind,
    /// where the value reads back as it is when written; says whether it did, and
    /// leaves `out` as it was where it did not.
    pub fn try_write(&self, out: &mut Vec<u8>) -> (written: bool)
        ensures
            written == self@.valid(),
            written ==> final(out)@ == old(out)@ + self@.wire(),
            !written ==> final(out)@ == old(out)@,
    {
        if !self.is_valid() {
            return false;
        }
        self.write(out);
        true
    }

    /// Whether the value reads back as it is when written.
    pub fn is_valid(&self) -> (b: bool)
        ensures
            b == self@.valid(),
    {
        match self {
            MetadataValue::String(v) => {
                vstd::string::StrSliceExecFns::unicode_len(v.as_str())
                    <= crate::text::MAX_STRING_CHARS
            },
            MetadataValue::Chat(v) => {
                vstd::string::StrSliceExecFns::unicode_len(v.as_str())
                    <= crate::text::MAX_STRING_CHARS
            },
            MetadataValue::Slot(v) => v.is_valid(),
            MetadataValue::Unknown(k) => *k > 10,
            _ => true,
        }
    }
}

/// One entry of entity metadata: a value under an index.
#[derive(Debug, Clone, PartialEq, Eq)]
pub struct MetadataEntry {
    pub index: u8,
    pub value: MetadataValue,
}

/// What an entry of entity metadata holds.
pub struct MetadataEntryModel {
    pub index: u8,
    pub value: MetadataValueModel,
}

impl View for MetadataEntry {
    type V = MetadataEntryModel;

    open spec fn view(&self) -> MetadataEntryModel {
        MetadataEntryModel { index: self.index, value: self.value@ }
    }
}

impl MetadataEntryModel {
    /// Whether the entry has a key byte and reads back as it is: the index has
    /// five bits, the kind three, the two together are not the end mark, and
    /// the value is valid.
    pub open spec fn valid(self) -> bool {
        &&& self.index < 32
        &&& self.value.kind() < 8
        &&& self.key() != METADATA_END
        &&& self.value.valid()
    }

    /// The key byte: the kind in the high three bits, the index in the low five.
    pub open spec fn key(self) -> u8 {
        (self.value.kind() * 32 + self.index) as u8
    }

    /// The key byte and the value.
    pub open spec fn wire(self) -> Seq<u8> {
        seq![self.key()] + self.value.wire()
    }
}

/// A list of entity metadata.
#[derive(Debug, Clone, PartialEq, Eq)]
pub struct EntityMetadata {
    pub entries: Vec<MetadataEntry>,
}

impl View for EntityMetadata {
    type V = Seq<MetadataEntryModel>;

    open spec fn view(&self) -> Seq<MetadataEntryModel> {
        models(self.entries@)
    }
}

/// What was read before, followed by what is read next.
pub open spec fn continued(
    before: Seq<MetadataEntryModel>,
    used: int,
    next: Option<(Seq<MetadataEntryModel>, int)>,
) -> Option<(Seq<MetadataEntryModel>, int)> {
    match next {
        Some((entries, n)) => Some((before + entries, used + n)),
        None => None,
    }
}

/// Reading on in two steps is reading on once by both.
pub proof fn lemma_continued(
    a: Seq<MetadataEntryModel>,
    i: int,
    b: Seq<MetadataEntryModel>,
    k: int,
    next: Option<(Seq<MetadataEntryModel>, int)>,
)
    ensures
        continued(a, i, continued(b, k, next)) == continued(a + b, i + k, next),
{
    if let Some((entries, n)) = next {
        assert(a + (b + entries) =~= (a + b) + entries);
    }
}

impl EntityMetadata {
    /// Reads entries from the front of `data` up to the end mark.
    ///
    /// `None` when a value is malformed or `data` ends before the end mark.
    pub fn parse(data: &[u8]) -> (r: Option<(Self, usize)>)
        ensures
            match r {
                Some((v, n)) => Self::decoded(data@) == Some((v@, n as int)),
                None => Self::decoded(data@) is None,
            },
    {
        let mut offset: usize = 0;
        let mut entries: Vec<MetadataEntry> = Vec::new();
        proof {
            assert(models(entries@) =~= Seq::empty());
            assert(data@.skip(0) =~= data@);
            lemma_continued(Seq::empty(), 0, Seq::empty(), 0, Self::decoded(data@));
        }
        while offset < data.len()
            invariant
                offset <= data@.len(),
                Self::decoded(data@) == continued(
                    models(entries@),
                    offset as int,
                    Self::decoded(data@.skip(offset as int)),
                ),
            decreases data@.len() - offset,
        {
            let ghost here = data@.skip(offset as int);
            let ghost before = entries@;
            let key = data[offset];
            if key == METADATA_END {
                assert(models(entries@) + Seq::<MetadataEntryModel>::empty() =~= models(entries@));
                return Some((EntityMetadata { entries }, offset + 1));
            }
            let rest = tail(data, offset + 1);
            assert(rest@ =~= here.skip(1));
            match MetadataValue::decode(key / 32, rest) {
                Some((value, n)) => {
                    proof {
                        MetadataValueModel::lemma_decoded_bounds(key / 32, rest@);
                        assert(here.skip(1 + n) =~= data@.skip(offset + 1 + n));
                        let entry = MetadataEntryModel { index: key % 32, value: value@ };
                        lemma_continued(
                            models(before),
                            offset as int,
                            seq![entry],
                            1 + n,
                            Self::decoded(here.skip(1 + n)),
                        );
                        assert(models(before) + seq![entry] =~= models(before).push(entry));
                    }
                    entries.push(MetadataEntry { index: key % 32, value });
                    assert(models(entries@) =~= models(before).push(
                        MetadataEntryModel { index: key % 32, value: value@ },
                    ));
                    offset = offset + 1 + n;
                },
                None => {
                    return None;
                },
            }
        }
        assert(data@.skip(offset as int).len() == 0);
        None
    }

    /// Appends the entries and the end mark to `out`.
    pub fn write(&self, out: &mut Vec<u8>)
        requires
            Self::valid(self@),
        ensures
            final(out)@ == old(out)@ + Self::wire(self@),
    {
        let mut i: usize = 0;
        assert(self@.skip(0) =~= self@);
        while i < self.entries.len()
            invariant
                i <= self.entries@.len(),
                Self::valid(self@),
                out@ + Self::wire(self@.skip(i as int)) == old(out)@ + Self::wire(self@),
            decreases self.entries@.len() - i,
        {
            let ghost before = out@;
            let ghost tail = self@.skip(i as int);
            let entry = &self.entries[i];
            proof {
                assert(tail[0] == entry@);
                assert(self@[i as int] == entry@);
                assert(tail.skip(1) =~= self@.skip(i + 1));
            }
            out.push(entry.value.kind() * 32 + entry.index);
            entry.value.write(out);
            assert(out@ + Self::wire(self@.skip(i + 1)) =~= before + Self::wire(tail));
            i = i + 1;
        }
        let ghost before = out@;
        out.push(METADATA_END);
        assert(self@.skip(i as int).len() == 0);
        assert(out@ =~= before + Self::wire(self@.skip(i as int)));
    }

    /// Appends the entries and the end mark to `out` where the list reads back as
    /// it is when written; says whether it did, and leaves `out` as it was where
    /// it did not.
    pub fn try_write(&self, out: &mut Vec<u8>) -> (written: bool)
        ensures
            written == Self::valid(self@),
            written ==> final(out)@ == old(out)@ + Self::wire(self@),
            !written ==> final(out)@ == old(out)@,
    {
        if !self.is_valid() {
            return false;
        }
        self.write(out);
        true
    }

    /// Whether the list reads back as it is when written.
    pub fn is_valid(&self) -> (b: bool)
        ensures
            b == Self::valid(self@),
    {
        let mut i: usize = 0;
        while i < self.entries.len()
            invariant
                i <= self.entries@.len(),
                forall|j: int| 0 <= j < i ==> (#[trigger] self@[j]).valid(),
            decreases self.entries@.len() - i,
        {
            let entry = &self.entries[i];
            assert(self@[i as int] == entry@);
            let kind = entry.value.kind();
            if entry.index >= 32 || kind >= 8 || kind * 32 + entry.index == METADATA_END
                || !entry.value.is_valid() {
                return false;
            }
            i = i + 1;
        }
        true
    }
}

impl Wire for EntityMetadata {
    open spec fn valid(m: Seq<MetadataEntryModel>) -> bool {
        forall|i: int| 0 <= i < m.len() ==> (#[trigger] m[i]).valid()
    }

    open spec fn wire(m: Seq<MetadataEntryModel>) -> Seq<u8>
        decreases m.len(),
    {
        if m.len() == 0 {
            seq![METADATA_END]
        } else {
            m[0].wire() + Self::wire(m.skip(1))
        }
    }

    open spec fn decoded(s: Seq<u8>) -> Option<(Seq<MetadataEntryModel>, int)>
        decreases s.len(),
    {
        if s.len() == 0 {
            None
        } else if s[0] == METADATA_END {
            Some((Seq::empty(), 1))
        } else {
            match MetadataValueModel::decoded(s[0] / 32, s.skip(1)) {
                Some((value, n)) => if 0 <= n <= s.len() - 1 {
                    continued(
                        seq![MetadataEntryModel { index: s[0] % 32, value }],
                        1 + n,
                        Self::decoded(s.skip(1 + n)),
                    )
                } else {
                    None
                },
                None => None,
            }
        }
    }

    fn decode(data: &[u8]) -> (r: Option<(Self, usize)>) {
        Self::parse(data)
    }

    fn encode(&self, out: &mut Vec<u8>) {
        self.write(out)
    }

    fn check(&self) -> (b: bool) {
        self.is_valid()
    }

    proof fn lemma_decoded_bounds(s: Seq<u8>)
        decreases s.len(),
    {
        if s.len() > 0 && s[0] != METADATA_END {
            if let Some((value, n)) = MetadataValueModel::decoded(s[0] / 32, s.skip(1)) {
                if 0 <= n <= s.len() - 1 {
                    Self::lemma_decoded_bounds(s.skip(1 + n));
                }
            }
        }
    }

    proof fn lemma_decoded_wire(m: Seq<MetadataEntryModel>, rest: Seq<u8>)
        decreases m.len(),
    {
        let s = Self::wire(m) + rest;
        if m.len() == 0 {
            assert(s[0] == METADATA_END);
        } else {
            let first = m[0];
            let tail = Self::wire(m.skip(1)) + rest;
            let value = first.value.wire();
            assert(s =~= seq![first.key()] + (value + tail));
            assert(s[0] == first.key());
            assert(s.skip(1) =~= value + tail);
            MetadataValueModel::lemma_decoded_wire(first.value, tail);
            assert(s.skip(1 + value.len() as int) =~= tail);
            assert(first.key() / 32 == first.value.kind());
            assert(first.key() % 32 == first.index);
            Self::lemma_decoded_wire(m.skip(1), rest);
            assert(seq![first] + m.skip(1) =~= m);
        }
    }
}

} // verus!
