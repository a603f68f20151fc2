//! The packets that carry chunk data.
//!
//! A chunk column is sent as those of its sixteen sections that a bit mask
//! names. A section is 4096 block ids, 2048 bytes of block metadata, 2048 bytes
//! of block light and, where the world has a sky, 2048 bytes of sky light.

use vstd::prelude::*;
use crate::arrays::{append_bytes, copy_bytes, models, CountedArray};
use crate::basic::Boolean;
use crate::fixed::{Int, UnsignedShort};
use crate::ids::IDS;
use crate::packets::world::ChunkMeta;
use crate::packets::{malformed, ClientboundPacket};
use crate::varint::VarInt;
use crate::wire::{lemma_field_read, lemma_join, read, tail, taken, Wire};

verus! {

/// The number of block ids of a section.
pub const BLOCK_IDS: usize = 4096;

/// The number of bytes of each of the other arrays of a section: a nibble for
/// every block.
pub const NIBBLES: usize = 2048;

/// The number of bits that are set in `v`.
pub open spec fn popcount(v: nat) -> nat
    decreases v,
{
    if v == 0 {
        0
    } else {
        v % 2 + popcount(v / 2)
    }
}

/// A number below `2^k` has at most `k` bits set.
pub proof fn lemma_popcount_bound(v: nat, k: nat)
    requires
        v < vstd::arithmetic::power2::pow2(k),
    ensures
        popcount(v) <= k,
    decreases k,
{
    if v > 0 {
        if k == 0 {
            vstd::arithmetic::power2::lemma2_to64();
        } else {
            vstd::arithmetic::power2::lemma_pow2_unfold(k);
            lemma_popcount_bound(v / 2, (k - 1) as nat);
        }
    }
}

/// The number of sections that a bit mask names.
pub fn count_sections(mask: u16) -> (n: usize)
    ensures
        n == popcount(mask as nat),
        n <= 16,
{
    let mut rest = mask;
    let mut n: usize = 0;
    proof {
        vstd::arithmetic::power2::lemma2_to64();
        lemma_popcount_bound(mask as nat, 16);
    }
    while rest > 0
        invariant
            n + popcount(rest as nat) == popcount(mask as nat),
            popcount(mask as nat) <= 16,
        decreases rest,
    {
        n = n + (rest % 2) as usize;
        rest = rest / 2;
    }
    n
}

/// One section of a chunk column.
#[derive(Debug, Clone, PartialEq, Eq)]
pub struct ChunkSection {
    pub block_ids: Vec<u8>,
    pub block_metadata: Vec<u8>,
    pub block_light: Vec<u8>,
    /// The sky light, where it was sent.
    pub sky_light: Option<Vec<u8>>,
}

/// What a section holds.
pub struct ChunkSectionModel {
    pub block_ids: Seq<u8>,
    pub block_metadata: Seq<u8>,
    pub block_light: Seq<u8>,
    pub sky_light: Option<Seq<u8>>,
}

impl View for ChunkSection {
    type V = ChunkSectionModel;

    open spec fn view(&self) -> ChunkSectionModel {
        ChunkSectionModel {
            block_ids: self.block_ids@,
            block_metadata: self.block_metadata@,
            block_light: self.block_light@,
            sky_light: match self.sky_light {
                Some(v) => Some(v@),
                None => None,
            },
        }
    }
}

/// The number of bytes of a section, with or without sky light.
pub open spec fn section_size(sky_light: bool) -> int {
    if sky_light {
        10240
    } else {
        8192
    }
}

impl ChunkSectionModel {
    /// Whether every array has the length that the format gives it, and the
    /// sky light is there exactly when `sky_light` says so.
    pub open spec fn valid(self, sky_light: bool) -> bool {
        &&& self.block_ids.len() == 4096
        &&& self.block_metadata.len() == 2048
        &&& self.block_light.len() == 2048
        &&& match self.sky_light {
            Some(v) => sky_light && v.len() == 2048,
            None => !sky_light,
        }
    }

    /// The bytes of the section: its arrays one after the other.
    pub open spec fn wire(self) -> Seq<u8> {
        self.block_ids + self.block_metadata + self.block_light + match self.sky_light {
            Some(v) => v,
            None => Seq::empty(),
        }
    }

    /// The section that begins at `at` in `s`.
    pub open spec fn at(s: Seq<u8>, at: int, sky_light: bool) -> ChunkSectionModel {
        ChunkSectionModel {
            block_ids: s.subrange(at, at + 4096),
            block_metadata: s.subrange(at + 4096, at + 6144),
            block_light: s.subrange(at + 6144, at + 8192),
            sky_light: if sky_light {
                Some(s.subrange(at + 8192, at + 10240))
            } else {
                None
            },
        }
    }
}

/// The `n` sections at the front of `s` and the bytes they occupy, if `s` is
/// long enough to hold them.
pub open spec fn decoded_sections(s: Seq<u8>, n: nat, sky_light: bool) -> Option<
    (Seq<ChunkSectionModel>, int),
> {
    if s.len() >= n * section_size(sky_light) {
        Some(
            (
                Seq::new(
                    n,
                    |i: int| ChunkSectionModel::at(s, i * section_size(sky_light), sky_light),
                ),
                n * section_size(sky_light),
            ),
        )
    } else {
        None
    }
}

/// The bytes of sections, one after the other.
pub open spec fn sections_wire(sections: Seq<ChunkSectionModel>) -> Seq<u8>
    decreases sections.len(),
{
    if sections.len() == 0 {
        Seq::empty()
    } else {
        sections_wire(sections.drop_last()) + sections.last().wire()
    }
}

/// Whether every section is valid.
pub open spec fn sections_valid(sections: Seq<ChunkSectionModel>, sky_light: bool) -> bool {
    forall|i: int| 0 <= i < sections.len() ==> (#[trigger] sections[i]).valid(sky_light)
}

/// Sections that are valid take up the size of a section each.
pub proof fn lemma_sections_wire_len(sections: Seq<ChunkSectionModel>, sky_light: bool)
    requires
        sections_valid(sections, sky_light),
    ensures
        sections_wire(sections).len() == sections.len() * section_size(sky_light),
    decreases sections.len(),
{
    if sections.len() > 0 {
        let init = sections.drop_last();
        assert forall|i: int| 0 <= i < init.len() implies (#[trigger] init[i]).valid(sky_light) by {
            assert(init[i] == sections[i]);
        }
        lemma_sections_wire_len(init, sky_light);
        assert(sections.last().valid(sky_light));
        assert((sections.len() - 1) * section_size(sky_light) + section_size(sky_light)
            == sections.len() * section_size(sky_light)) by (nonlinear_arith);
    }
}

/// Among the bytes of valid sections, each section lies at its place.
pub proof fn lemma_section_at(
    sections: Seq<ChunkSectionModel>,
    rest: Seq<u8>,
    sky_light: bool,
    i: int,
)
    requires
        sections_valid(sections, sky_light),
        0 <= i < sections.len(),
    ensures
        ChunkSectionModel::at(
            sections_wire(sections) + rest,
            i * section_size(sky_light),
            sky_light,
        ) == sections[i],
    decreases sections.len(),
{
    let size = section_size(sky_light);
    let init = sections.drop_last();
    let last = sections.last();
    let s = sections_wire(sections) + rest;
    assert forall|j: int| 0 <= j < init.len() implies (#[trigger] init[j]).valid(sky_light) by {
        assert(init[j] == sections[j]);
    }
    lemma_sections_wire_len(init, sky_light);
    assert(last.valid(sky_light));
    assert(s =~= sections_wire(init) + (last.wire() + rest));
    if i < init.len() {
        lemma_section_at(init, last.wire() + rest, sky_light, i);
        assert(init[i] == sections[i]);
    } else {
        let at = i * size;
        assert(at == sections_wire(init).len());
        let found = ChunkSectionModel::at(s, at, sky_light);
        assert(found.block_ids =~= last.block_ids);
        assert(found.block_metadata =~= last.block_metadata);
        assert(found.block_light =~= last.block_light);
        if sky_light {
            assert(found.sky_light->0 =~= last.sky_light->0);
        }
    }
}

/// Valid sections that were written are read back as they are, whatever
/// follows them.
pub proof fn lemma_sections_read_back(
    sections: Seq<ChunkSectionModel>,
    rest: Seq<u8>,
    sky_light: bool,
)
    requires
        sections_valid(sections, sky_light),
    ensures
        decoded_sections(sections_wire(sections) + rest, sections.len(), sky_light) == Some(
            (sections, sections_wire(sections).len() as int),
        ),
{
    lemma_sections_wire_len(sections, sky_light);
    let s = sections_wire(sections) + rest;
    let read = Seq::new(
        sections.len(),
        |i: int| ChunkSectionModel::at(s, i * section_size(sky_light), sky_light),
    );
    assert forall|i: int| 0 <= i < sections.len() implies read[i] == sections[i] by {
        lemma_section_at(sections, rest, sky_light, i);
    }
    assert(read =~= sections);
}

/// Reads `n` sections from the front of `data`; `None` when `data` is too
/// short to hold them.
pub fn decode_sections(data: &[u8], n: usize, sky_light: bool) -> (r: Option<
    (Vec<ChunkSection>, usize),
>)
    ensures
        match r {
            Some((v, used)) => decoded_sections(data@, n as nat, sky_light) == Some(
                (models(v@), used as int),
            ) && sections_valid(models(v@), sky_light) && v@.len() == n && used <= data@.len(),
            None => decoded_sections(data@, n as nat, sky_light) is None,
        },
{
    let size: usize = if sky_light {
        10240
    } else {
        8192
    };
    let len = data.len();
    let total = match n.checked_mul(size) {
        Some(t) => t,
        None => {
            return None;
        },
    };
    if len < total {
        return None;
    }
    let mut sections: Vec<ChunkSection> = Vec::new();
    let mut i: usize = 0;
    while i < n
        invariant
            i <= n,
            size == section_size(sky_light),
            total == n * size,
            data@.len() >= n * size,
            sections@.len() == i,
            forall|j: int|
                0 <= j < i ==> (#[trigger] sections@[j])@ == ChunkSectionModel::at(
                    data@,
                    j * size,
                    sky_light,
                ),
            forall|j: int| 0 <= j < i ==> (#[trigger] models(sections@)[j]).valid(sky_light),
        decreases n - i,
    {
        assert(i * size + size <= n * size) by (nonlinear_arith)
            requires
                i < n,
                size >= 0,
        ;
        let at = i * size;
        let block_ids = copy_bytes(data, at, at + 4096);
        let block_metadata = copy_bytes(data, at + 4096, at + 6144);
        let block_light = copy_bytes(data, at + 6144, at + 8192);
        let sky = if sky_light {
            Some(copy_bytes(data, at + 8192, at + 10240))
        } else {
            None
        };
        let section = ChunkSection { block_ids, block_metadata, block_light, sky_light: sky };
        assert(section@ == ChunkSectionModel::at(data@, i * size, sky_light));
        assert(section@.valid(sky_light));
        sections.push(section);
        i = i + 1;
    }
    assert(models(sections@) =~= Seq::new(
        n as nat,
        |i: int| ChunkSectionModel::at(data@, i * section_size(sky_light), sky_light),
    ));
    Some((sections, total))
}

/// Appends the sections to `out`, one after the other.
pub fn encode_sections(sections: &Vec<ChunkSection>, out: &mut Vec<u8>)
    ensures
        final(out)@ == old(out)@ + sections_wire(models(sections@)),
{
    let mut i: usize = 0;
    assert(models(sections@.take(0)) =~= Seq::empty());
    while i < sections.len()
        invariant
            i <= sections@.len(),
            out@ == old(out)@ + sections_wire(models(sections@.take(i as int))),
        decreases sections@.len() - i,
    {
        proof {
            let next = models(sections@.take(i + 1));
            assert(next.drop_last() =~= models(sections@.take(i as int)));
            assert(next.last() == sections@[i as int]@);
        }
        let section = &sections[i];
        append_bytes(section.block_ids.as_slice(), out);
        append_bytes(section.block_metadata.as_slice(), out);
        append_bytes(section.block_light.as_slice(), out);
        match &section.sky_light {
            Some(v) => {
                append_bytes(v.as_slice(), out);
            },
            None => {},
        }
        assert(out@ =~= old(out)@ + sections_wire(models(sections@.take(i + 1))));
        i = i + 1;
    }
    assert(sections@.take(sections@.len() as int) =~= sections@);
}

/// The sections of one chunk column. The sections are as many as the bit mask
/// names; `data_size` is what the server gives as the length of what follows
/// it, and is handed on as it came.
#[derive(Debug, Clone, PartialEq, Eq)]
pub struct ChunkData {
    pub chunk_x: Int,
    pub chunk_z: Int,
    pub ground_up_continuous: Boolean,
    pub primary_bit_mask: UnsignedShort,
    pub data_size: VarInt,
    pub data: Vec<ChunkSection>,
}

/// What a `ChunkData` holds.
pub struct ChunkDataModel {
    pub chunk_x: Int,
    pub chunk_z: Int,
    pub ground_up_continuous: Boolean,
    pub primary_bit_mask: UnsignedShort,
    pub data_size: VarInt,
    pub data: Seq<ChunkSectionModel>,
}

impl View for ChunkData {
    type V = ChunkDataModel;

    open spec fn view(&self) -> ChunkDataModel {
        ChunkDataModel {
            chunk_x: self.chunk_x,
            chunk_z: self.chunk_z,
            ground_up_continuous: self.ground_up_continuous,
            primary_bit_mask: self.primary_bit_mask,
            data_size: self.data_size,
            data: models(self.data@),
        }
    }
}

impl ChunkData {
    /// The packet at the front of `s`, read with or without sky light, and the
    /// bytes it occupies.
    pub open spec fn decoded(s: Seq<u8>, sky_light: bool) -> Option<(ChunkDataModel, int)> {
        let r0 = Int::decoded(s);
        let n0 = taken(r0);
        let r1 = Int::decoded(s.skip(n0));
        let n1 = n0 + taken(r1);
        let r2 = Boolean::decoded(s.skip(n1));
        let n2 = n1 + taken(r2);
        let r3 = UnsignedShort::decoded(s.skip(n2));
        let n3 = n2 + taken(r3);
        let r4 = VarInt::decoded(s.skip(n3));
        let n4 = n3 + taken(r4);
        let r5 = decoded_sections(s.skip(n4), popcount(read(r3).0 as nat), sky_light);
        let n5 = n4 + taken(r5);
        if r0 is Some && r1 is Some && r2 is Some && r3 is Some && r4 is Some && r5 is Some {
            Some(
                (
                    ChunkDataModel {
                        chunk_x: read(r0),
                        chunk_z: read(r1),
                        ground_up_continuous: read(r2),
                        primary_bit_mask: read(r3),
                        data_size: read(r4),
                        data: read(r5),
                    },
                    n5,
                ),
            )
        } else {
            None
        }
    }

    /// The bytes that stand for the packet.
    pub open spec fn wire(m: ChunkDataModel) -> Seq<u8> {
        Int::wire(m.chunk_x) + Int::wire(m.chunk_z) + Boolean::wire(m.ground_up_continuous)
            + UnsignedShort::wire(m.primary_bit_mask) + VarInt::wire(m.data_size) + sections_wire(
            m.data,
        )
    }

    /// Whether the packet reads back as it is when written: it has as many
    /// sections as its bit mask names, and they are valid.
    pub open spec fn valid(m: ChunkDataModel, sky_light: bool) -> bool {
        m.data.len() == popcount(m.primary_bit_mask.0 as nat) && sections_valid(m.data, sky_light)
    }

    /// Reading back a valid packet that was written gives the packet and the
    /// length of its encoding, whatever follows.
    pub proof fn lemma_decoded_wire(m: ChunkDataModel, rest: Seq<u8>, sky_light: bool)
        requires
            Self::valid(m, sky_light),
        ensures
            Self::decoded(Self::wire(m) + rest, sky_light) == Some(
                (m, Self::wire(m).len() as int),
            ),
    {
        let s = Self::wire(m) + rest;
        let w0 = Int::wire(m.chunk_x);
        let w1 = Int::wire(m.chunk_z);
        let w2 = Boolean::wire(m.ground_up_continuous);
        let w3 = UnsignedShort::wire(m.primary_bit_mask);
        let w4 = VarInt::wire(m.data_size);
        let w5 = sections_wire(m.data);
        let p0 = w0;
        let p1 = p0 + w1;
        let p2 = p1 + w2;
        let p3 = p2 + w3;
        let p4 = p3 + w4;
        let t4 = w5 + rest;
        let t3 = w4 + t4;
        let t2 = w3 + t3;
        let t1 = w2 + t2;
        let t0 = w1 + t1;
        lemma_join(p4, w5, rest);
        lemma_join(p3, w4, t4);
        lemma_join(p2, w3, t3);
        lemma_join(p1, w2, t2);
        lemma_join(p0, w1, t1);
        assert(s.skip(0) =~= s);
        lemma_field_read::<Int>(s, 0, m.chunk_x, t0);
        let a1 = w0.len() as int;
        lemma_field_read::<Int>(s, a1, m.chunk_z, t1);
        let a2 = a1 + w1.len();
        lemma_field_read::<Boolean>(s, a2, m.ground_up_continuous, t2);
        let a3 = a2 + w2.len();
        lemma_field_read::<UnsignedShort>(s, a3, m.primary_bit_mask, t3);
        let a4 = a3 + w3.len();
        lemma_field_read::<VarInt>(s, a4, m.data_size, t4);
        lemma_sections_read_back(m.data, rest, sky_light);
    }

    /// Reads the packet from the front of `data`. `sky_light` says whether the
    /// sections carry sky light: they do where the dimension has a sky.
    pub fn decode_with(data: &[u8], sky_light: bool) -> (r: Option<(Self, usize)>)
        ensures
            match r {
                Some((p, n)) => Self::decoded(data@, sky_light) == Some((p@, n as int))
                    && p@.data.len() == popcount(p@.primary_bit_mask.0 as nat) && sections_valid(
                    p@.data,
                    sky_light,
                ),
                None => Self::decoded(data@, sky_light) is None,
            },
    {
        let (chunk_x, k0) = match Int::parse(data) {
            Some(x) => x,
            None => {
                return None;
            },
        };
        let n0 = k0;
        let (chunk_z, k1) = match Int::parse(tail(data, n0)) {
            Some(x) => x,
            None => {
                return None;
            },
        };
        let n1 = n0 + k1;
        let (ground_up_continuous, k2) = match Boolean::parse(tail(data, n1)) {
            Some(x) => x,
            None => {
                return None;
            },
        };
        let n2 = n1 + k2;
        let (primary_bit_mask, k3) = match UnsignedShort::parse(tail(data, n2)) {
            Some(x) => x,
            None => {
                return None;
            },
        };
        let n3 = n2 + k3;
        let (data_size, k4) = match VarInt::parse(tail(data, n3)) {
            Some(x) => x,
            None => {
                return None;
            },
        };
        proof {
            VarInt::lemma_decoded_bounds(data@.skip(n3 as int));
        }
        let n4 = n3 + k4;
        let count = count_sections(primary_bit_mask.0);
        let (sections, k5) = match decode_sections(tail(data, n4), count, sky_light) {
            Some(x) => x,
            None => {
                return None;
            },
        };
        let n5 = n4 + k5;
        Some(
            (
                ChunkData {
                    chunk_x,
                    chunk_z,
                    ground_up_continuous,
                    primary_bit_mask,
                    data_size,
                    data: sections,
                },
                n5,
            ),
        )
    }

    /// Appends the packet to `out`, its sections as they are held.
    pub fn write(&self, out: &mut Vec<u8>)
        ensures
            final(out)@ == old(out)@ + Self::wire(self@),
    {
        self.chunk_x.write(out);
        self.chunk_z.write(out);
        self.ground_up_continuous.write(out);
        self.primary_bit_mask.write(out);
        self.data_size.write(out);
        encode_sections(&self.data, out);
        assert(out@ =~= old(out)@ + Self::wire(self@));
    }
}

impl ClientboundPacket for ChunkData {
    open spec fn listed() -> IDS {
        IDS::ChunkData
    }

    /// The payload is read with sky light, as the overworld sends it.
    open spec fn parsed(s: Seq<u8>) -> Option<ChunkDataModel> {
        match Self::decoded(s, true) {
            Some((m, _)) => Some(m),
            None => None,
        }
    }

    fn parse(data: &[u8]) -> (r: Result<Self, String>) {
        match Self::decode_with(data, true) {
            Some((p, _)) => Ok(p),
            None => Err(malformed("ChunkData")),
        }
    }

    fn id() -> (r: IDS) {
        IDS::ChunkData
    }
}

/// The sections of the columns that `meta` describes, read one column after
/// the other from the front of `s`, and the bytes they occupy.
pub open spec fn decoded_columns(s: Seq<u8>, meta: Seq<ChunkMeta>, sky_light: bool) -> Option<
    (Seq<Seq<ChunkSectionModel>>, int),
>
    decreases meta.len(),
{
    if meta.len() == 0 {
        Some((Seq::empty(), 0))
    } else {
        match decoded_columns(s, meta.drop_last(), sky_light) {
            Some((columns, used)) => match decoded_sections(
                s.skip(used),
                popcount(meta.last().primary_bit_mask.0 as nat),
                sky_light,
            ) {
                Some((sections, k)) => Some((columns.push(sections), used + k)),
                None => None,
            },
            None => None,
        }
    }
}

/// Where the sections of fewer columns cannot be read, those of more cannot
/// either.
pub proof fn lemma_decoded_columns_none(s: Seq<u8>, meta: Seq<ChunkMeta>, k: int, sky_light: bool)
    requires
        0 <= k <= meta.len(),
        decoded_columns(s, meta.take(k), sky_light) is None,
    ensures
        decoded_columns(s, meta, sky_light) is None,
    decreases meta.len(),
{
    if k < meta.len() {
        assert(meta.drop_last().take(k) =~= meta.take(k));
        lemma_decoded_columns_none(s, meta.drop_last(), k, sky_light);
    } else {
        assert(meta.take(k) =~= meta);
    }
}

/// The sections of all columns, one column after the other.
pub open spec fn columns_wire(columns: Seq<Seq<ChunkSectionModel>>) -> Seq<u8>
    decreases columns.len(),
{
    if columns.len() == 0 {
        Seq::empty()
    } else {
        columns_wire(columns.drop_last()) + sections_wire(columns.last())
    }
}

/// Whether the columns belong to `meta`: there is one for each, each has as many
/// sections as its bit mask names, and the sections are valid.
pub open spec fn columns_valid(
    columns: Seq<Seq<ChunkSectionModel>>,
    meta: Seq<ChunkMeta>,
    sky_light: bool,
) -> bool {
    &&& columns.len() == meta.len()
    &&& forall|i: int|
        0 <= i < columns.len() ==> (#[trigger] columns[i]).len() == popcount(
            meta[i].primary_bit_mask.0 as nat,
        ) && sections_valid(columns[i], sky_light)
}

/// Valid columns that were written are read back as they are, whatever follows
/// them.
pub proof fn lemma_columns_read_back(
    columns: Seq<Seq<ChunkSectionModel>>,
    meta: Seq<ChunkMeta>,
    rest: Seq<u8>,
    sky_light: bool,
)
    requires
        columns_valid(columns, meta, sky_light),
    ensures
        decoded_columns(columns_wire(columns) + rest, meta, sky_light) == Some(
            (columns, columns_wire(columns).len() as int),
        ),
    decreases meta.len(),
{
    let s = columns_wire(columns) + rest;
    if meta.len() == 0 {
        assert(columns =~= Seq::empty());
    } else {
        let init = columns.drop_last();
        let last = columns.last();
        let tail = sections_wire(last) + rest;
        assert forall|i: int| 0 <= i < init.len() implies (#[trigger] init[i]).len() == popcount(
            meta.drop_last()[i].primary_bit_mask.0 as nat,
        ) && sections_valid(init[i], sky_light) by {
            assert(init[i] == columns[i]);
        }
        assert(s =~= columns_wire(init) + tail);
        lemma_columns_read_back(init, meta.drop_last(), tail, sky_light);
        assert(s.skip(columns_wire(init).len() as int) =~= tail);
        assert(last == columns[columns.len() - 1]);
        lemma_sections_read_back(last, rest, sky_light);
        assert(init.push(last) =~= columns);
    }
}

/// The sections of every column of `v`, as models.
pub open spec fn column_models(v: Seq<Vec<ChunkSection>>) -> Seq<Seq<ChunkSectionModel>> {
    Seq::new(v.len(), |i: int| models(v[i]@))
}

/// Several chunk columns at once: first where each lies and which sections it
/// has, then the sections of each.
#[derive(Debug, Clone, PartialEq, Eq)]
pub struct MapChunkBulk {
    /// Whether the sections carry sky light.
    pub sky_light_sent: Boolean,
    pub chunk_meta: Vec<ChunkMeta>,
    /// The sections of each column, in the order of `chunk_meta`.
    pub chunk_data: Vec<Vec<ChunkSection>>,
}

/// What a `MapChunkBulk` holds.
pub struct MapChunkBulkModel {
    pub sky_light_sent: Boolean,
    pub chunk_meta: Seq<ChunkMeta>,
    pub chunk_data: Seq<Seq<ChunkSectionModel>>,
}

impl View for MapChunkBulk {
    type V = MapChunkBulkModel;

    open spec fn view(&self) -> MapChunkBulkModel {
        MapChunkBulkModel {
            sky_light_sent: self.sky_light_sent,
            chunk_meta: models(self.chunk_meta@),
            chunk_data: column_models(self.chunk_data@),
        }
    }
}

impl MapChunkBulk {
    /// The packet at the front of `s` and the bytes it occupies.
    pub open spec fn decoded(s: Seq<u8>) -> Option<(MapChunkBulkModel, int)> {
        let r0 = Boolean::decoded(s);
        let n0 = taken(r0);
        let r1 = CountedArray::<ChunkMeta>::decoded(s.skip(n0));
        let n1 = n0 + taken(r1);
        let r2 = decoded_columns(s.skip(n1), read(r1), read(r0).0);
        let n2 = n1 + taken(r2);
        if r0 is Some && r1 is Some && r2 is Some {
            Some(
                (
                    MapChunkBulkModel {
                        sky_light_sent: read(r0),
                        chunk_meta: read(r1),
                        chunk_data: read(r2),
                    },
                    n2,
                ),
            )
        } else {
            None
        }
    }

    /// The bytes that stand for the packet.
    pub open spec fn wire(m: MapChunkBulkModel) -> Seq<u8> {
        Boolean::wire(m.sky_light_sent) + CountedArray::<ChunkMeta>::wire(m.chunk_meta)
            + columns_wire(m.chunk_data)
    }

    /// Whether the packet reads back as it is when written: the columns are no
    /// more than a `VarInt` can count, and their sections belong to them.
    pub open spec fn valid(m: MapChunkBulkModel) -> bool {
        m.chunk_meta.len() <= i32::MAX && columns_valid(
            m.chunk_data,
            m.chunk_meta,
            m.sky_light_sent.0,
        )
    }

    /// Reading back a valid packet that was written gives the packet and the
    /// length of its encoding, whatever follows.
    pub proof fn lemma_decoded_wire(m: MapChunkBulkModel, rest: Seq<u8>)
        requires
            Self::valid(m),
        ensures
            Self::decoded(Self::wire(m) + rest) == Some((m, Self::wire(m).len() as int)),
    {
        let s = Self::wire(m) + rest;
        let w0 = Boolean::wire(m.sky_light_sent);
        let w1 = CountedArray::<ChunkMeta>::wire(m.chunk_meta);
        let w2 = columns_wire(m.chunk_data);
        let p1 = w0 + w1;
        let t1 = w2 + rest;
        let t0 = w1 + t1;
        lemma_join(p1, w2, rest);
        lemma_join(w0, w1, t1);
        assert(s.skip(0) =~= s);
        lemma_field_read::<Boolean>(s, 0, m.sky_light_sent, t0);
        let a1 = w0.len() as int;
        lemma_field_read::<CountedArray<ChunkMeta>>(s, a1, m.chunk_meta, t1);
        lemma_columns_read_back(m.chunk_data, m.chunk_meta, rest, m.sky_light_sent.0);
    }

    /// Reads the packet from the front of `data`.
    pub fn decode(data: &[u8]) -> (r: Option<(Self, usize)>)
        ensures
            match r {
                Some((p, n)) => Self::decoded(data@) == Some((p@, n as int)),
                None => Self::decoded(data@) is None,
            },
    {
        let (sky_light_sent, k0) = match Boolean::parse(data) {
            Some(x) => x,
            None => {
                return None;
            },
        };
        let n0 = k0;
        let (meta, k1) = match <CountedArray<ChunkMeta> as Wire>::decode(tail(data, n0)) {
            Some(x) => x,
            None => {
                return None;
            },
        };
        proof {
            CountedArray::<ChunkMeta>::lemma_decoded_bounds(data@.skip(n0 as int));
        }
        let n1 = n0 + k1;
        let rest = tail(data, n1);
        let chunk_meta = meta.elements;
        let mut chunk_data: Vec<Vec<ChunkSection>> = Vec::new();
        let mut used: usize = 0;
        let mut i: usize = 0;
        proof {
            assert(models(chunk_meta@).take(0) =~= Seq::empty());
            assert(column_models(chunk_data@) =~= Seq::empty());
        }
        while i < chunk_meta.len()
            invariant
                i <= chunk_meta@.len(),
                used <= rest@.len(),
                n1 + rest@.len() == data@.len(),
                rest@ == data@.skip(n1 as int),
                n1 == n0 + k1,
                Boolean::decoded(data@) == Some((sky_light_sent, n0 as int)),
                CountedArray::<ChunkMeta>::decoded(data@.skip(n0 as int)) == Some(
                    (models(chunk_meta@), k1 as int),
                ),
                decoded_columns(rest@, models(chunk_meta@).take(i as int), sky_light_sent.0)
                    == Some((column_models(chunk_data@), used as int)),
            decreases chunk_meta@.len() - i,
        {
            let ghost metas = models(chunk_meta@);
            let count = count_sections(chunk_meta[i].primary_bit_mask.0);
            proof {
                assert(metas.take(i + 1).drop_last() =~= metas.take(i as int));
                assert(metas.take(i + 1).last() == chunk_meta@[i as int]);
            }
            match decode_sections(tail(rest, used), count, sky_light_sent.0) {
                Some((sections, k)) => {
                    let ghost before = chunk_data@;
                    chunk_data.push(sections);
                    assert(column_models(chunk_data@) =~= column_models(before).push(
                        models(sections@),
                    ));
                    used = used + k;
                },
                None => {
                    proof {
                        lemma_decoded_columns_none(rest@, metas, i + 1, sky_light_sent.0);
                    }
                    return None;
                },
            }
            i = i + 1;
        }
        assert(models(chunk_meta@).take(chunk_meta@.len() as int) =~= models(chunk_meta@));
        Some((MapChunkBulk { sky_light_sent, chunk_meta, chunk_data }, n1 + used))
    }

    /// Appends the packet to `out`, its sections as they are held. There must
    /// be no more columns than a `VarInt` can count.
    pub fn write(&self, out: &mut Vec<u8>)
        requires
            self.chunk_meta@.len() <= i32::MAX,
        ensures
            final(out)@ == old(out)@ + Self::wire(self@),
    {
        self.sky_light_sent.write(out);
        crate::arrays::encode_run::<ChunkMeta>(&self.chunk_meta, out);
        let ghost base = out@;
        let mut i: usize = 0;
        assert(column_models(self.chunk_data@.take(0)) =~= Seq::empty());
        while i < self.chunk_data.len()
            invariant
                i <= self.chunk_data@.len(),
                out@ == base + columns_wire(column_models(self.chunk_data@.take(i as int))),
            decreases self.chunk_data@.len() - i,
        {
            proof {
                let next = column_models(self.chunk_data@.take(i + 1));
                assert(next.drop_last() =~= column_models(self.chunk_data@.take(i as int)));
                assert(next.last() == models(self.chunk_data@[i as int]@));
            }
            encode_sections(&self.chunk_data[i], out);
            assert(out@ =~= base + columns_wire(column_models(self.chunk_data@.take(i + 1))));
            i = i + 1;
        }
        assert(self.chunk_data@.take(self.chunk_data@.len() as int) =~= self.chunk_data@);
        assert(out@ =~= old(out)@ + Self::wire(self@));
    }
}

impl ClientboundPacket for MapChunkBulk {
    open spec fn listed() -> IDS {
        IDS::MapChunkBulk
    }

    open spec fn parsed(s: Seq<u8>) -> Option<MapChunkBulkModel> {
        match Self::decoded(s) {
            Some((m, _)) => Some(m),
            None => None,
        }
    }

    fn parse(data: &[u8]) -> (r: Result<Self, String>) {
        match Self::decode(data) {
            Some((p, _)) => Ok(p),
            None => Err(malformed("MapChunkBulk")),
        }
    }

    fn id() -> (r: IDS) {
        IDS::MapChunkBulk
    }
}

} // verus!
