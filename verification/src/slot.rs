//! Inventory slots.
//!
//! A slot starts with a presence byte. An empty slot ends there. A filled one
//! goes on with the item's id, count and damage, and ends with the item's NBT
//! tag: a single zero byte where it has none, or else one NBT compound, which is
//! kept as the bytes it came in.
//!
//! Where a tag ends is found by reading it, and the reader goes one level deeper
//! for every list or compound within another. So that it cannot go too deep, it
//! is handed the bytes only up to a fixed number of bytes with the value of a
//! list or compound tag; a tag that holds more of them is refused.

use vstd::prelude::*;
use vstd::slice::slice_subrange;
use crate::arrays::{append_bytes, copy_bytes};
use crate::fixed::Short;
use crate::wire::Wire;

verus! {

/// The number of bytes that the NBT document at the front of `data` takes up, as
/// `fastnbt` reads it; `None` where `fastnbt` refuses what is there.
pub uninterp spec fn nbt_extent(data: Seq<u8>) -> Option<int>;

/// The greatest number of bytes with the value of a list or compound tag that
/// are handed to the NBT reader at once. The reader goes one level deeper for
/// every such tag that it reads, and no deeper than that; at this many levels
/// it takes less than a megabyte of stack.
pub const MAX_NBT_NESTING: usize = 512;

/// Whether `byte` has the value of a tag that opens a level of nesting: a list
/// (9) or a compound (10).
pub open spec fn opens_nesting(byte: u8) -> bool {
    byte == 9 || byte == 10
}

/// The number of bytes among the first `n` of `s` that have the value of a list
/// or compound tag.
pub open spec fn nesting_marks(s: Seq<u8>, n: nat) -> nat
    decreases n,
{
    if n == 0 {
        0
    } else {
        nesting_marks(s, (n - 1) as nat) + if opens_nesting(s[n - 1]) {
            1nat
        } else {
            0nat
        }
    }
}

/// The length of the longest run of bytes at the front of `s`, among the first
/// `n`, that holds no more such bytes than the reader is handed.
pub open spec fn reach(s: Seq<u8>, n: nat) -> nat
    decreases n,
{
    if n == 0 {
        0
    } else if nesting_marks(s, n) <= MAX_NBT_NESTING {
        n
    } else {
        reach(s, (n - 1) as nat)
    }
}

/// The bytes at the front of `s` that the NBT reader is handed.
pub open spec fn readable(s: Seq<u8>) -> Seq<u8> {
    s.take(reach(s, s.len()) as int)
}

/// The number of bytes that the NBT document at the front of `s` takes up, as
/// far as the reader is handed `s`; `None` where what it is handed does not
/// begin with a whole document.
pub open spec fn tag_extent(s: Seq<u8>) -> Option<int> {
    nbt_extent(readable(s))
}

/// More bytes hold no fewer marks.
pub proof fn lemma_marks_grow(s: Seq<u8>, a: nat, b: nat)
    requires
        a <= b,
    ensures
        nesting_marks(s, a) <= nesting_marks(s, b),
    decreases b,
{
    if a < b {
        lemma_marks_grow(s, a, (b - 1) as nat);
    }
}

/// The marks among the first bytes depend on those bytes and on no others.
pub proof fn lemma_marks_of_prefix(s: Seq<u8>, t: Seq<u8>, n: nat)
    requires
        n <= s.len(),
        n <= t.len(),
        forall|i: int| 0 <= i < n ==> s[i] == t[i],
    ensures
        nesting_marks(s, n) == nesting_marks(t, n),
    decreases n,
{
    if n > 0 {
        lemma_marks_of_prefix(s, t, (n - 1) as nat);
    }
}

/// The reach is the one length within the limit that cannot be made longer.
pub proof fn lemma_reach(s: Seq<u8>, n: nat, k: nat)
    requires
        k <= n,
        nesting_marks(s, k) <= MAX_NBT_NESTING,
        k == n || nesting_marks(s, k + 1) > MAX_NBT_NESTING,
    ensures
        reach(s, n) == k,
    decreases n,
{
    if n > k {
        lemma_marks_grow(s, k + 1, n);
        lemma_reach(s, (n - 1) as nat, k);
    }
}

/// The reach is no shorter than any length within the limit, and within the
/// limit itself.
pub proof fn lemma_reach_bounds(s: Seq<u8>, n: nat, k: nat)
    requires
        k <= n,
        nesting_marks(s, k) <= MAX_NBT_NESTING,
    ensures
        k <= reach(s, n) <= n,
        nesting_marks(s, reach(s, n)) <= MAX_NBT_NESTING,
    decreases n,
{
    if n > k && nesting_marks(s, n) > MAX_NBT_NESTING {
        lemma_reach_bounds(s, (n - 1) as nat, k);
    }
}

/// The bytes at the front of `data` that the NBT reader is handed: as many as
/// hold no more list and compound marks than the limit.
pub fn readable_prefix(data: &[u8]) -> (r: &[u8])
    ensures
        r@ == readable(data@),
        r@.len() == reach(data@, data@.len()),
        r@.len() <= data@.len(),
        nesting_marks(r@, r@.len()) <= MAX_NBT_NESTING,
{
    let mut i: usize = 0;
    let mut marks: usize = 0;
    while i < data.len() && !(marks == MAX_NBT_NESTING && (data[i] == 9 || data[i] == 10))
        invariant
            i <= data@.len(),
            marks == nesting_marks(data@, i as nat),
            marks <= MAX_NBT_NESTING,
        decreases data@.len() - i,
    {
        if data[i] == 9 || data[i] == 10 {
            marks = marks + 1;
        }
        i = i + 1;
    }
    proof {
        lemma_reach(data@, data@.len(), i as nat);
    }
    let r = slice_subrange(data, 0, i);
    proof {
        lemma_marks_of_prefix(r@, data@, i as nat);
    }
    r
}

/// Reads one NBT document from the front of `data` and says how many bytes are
/// left behind it.
///
/// Trusted: this is `fastnbt::from_reader` on the bytes as a reader, which takes
/// from a reader exactly the bytes of the document it parses. The contract names
/// the number of bytes taken. It claims that they are no more than the bytes
/// given, and that the same bytes are taken whatever follows them: the reader
/// never looks past the end of the document.
///
/// The reader calls itself once for every list and every compound within
/// another, and would run out of stack on a document that is nested deeply
/// enough. It enters a list or compound only on reading a tag, or the element
/// type of a list, with the value 9 or 10; so `data` must hold no more than
/// `MAX_NBT_NESTING` bytes of these values.
#[verifier::external_body]
fn nbt_bytes_left(data: &[u8]) -> (r: Option<usize>)
    requires
        nesting_marks(data@, data@.len()) <= MAX_NBT_NESTING,
    ensures
        match r {
            Some(left) => {
                let taken = data@.len() - left;
                &&& left <= data@.len()
                &&& nbt_extent(data@) == Some(taken)
                &&& forall|rest: Seq<u8>| #[trigger]
                    nbt_extent(data@.take(taken) + rest) == Some(taken)
            },
            None => nbt_extent(data@) is None,
        },
{
    let mut rest: &[u8] = data;
    match fastnbt::from_reader::<&mut &[u8], fastnbt::Value>(&mut rest) {
        Ok(_) => Some(rest.len()),
        Err(_) => None,
    }
}

/// Whether `tag` is one whole NBT document that begins with a tag other than
/// zero and is read as such whatever may follow it: it holds no more list and
/// compound marks than the reader is handed, and the reader takes all of it.
pub open spec fn well_formed_tag(tag: Seq<u8>) -> bool {
    &&& tag.len() > 0
    &&& tag[0] != 0
    &&& nesting_marks(tag, tag.len()) <= MAX_NBT_NESTING
    &&& forall|rest: Seq<u8>| #[trigger] nbt_extent(tag + rest) == Some(tag.len() as int)
}

/// A well-formed tag is read as all of itself, whatever follows it.
pub proof fn lemma_tag_extent(tag: Seq<u8>, rest: Seq<u8>)
    requires
        well_formed_tag(tag),
    ensures
        tag_extent(tag + rest) == Some(tag.len() as int),
{
    let s = tag + rest;
    lemma_marks_of_prefix(s, tag, tag.len());
    lemma_reach_bounds(s, s.len(), tag.len());
    let r = reach(s, s.len());
    assert(readable(s) =~= tag + rest.take(r - tag.len()));
}

/// The number of bytes of the NBT document at the front of `data`, if what the
/// reader is handed of `data` begins with one.
pub fn nbt_length(data: &[u8]) -> (r: Option<usize>)
    ensures
        match r {
            Some(n) => {
                &&& n <= data@.len()
                &&& tag_extent(data@) == Some(n as int)
                &&& n > 0 && data@[0] != 0 ==> well_formed_tag(data@.take(n as int))
            },
            None => tag_extent(data@) is None,
        },
{
    let handed = readable_prefix(data);
    match nbt_bytes_left(handed) {
        Some(left) => {
            let n = handed.len() - left;
            proof {
                let tag = data@.take(n as int);
                assert(handed@.take(n as int) =~= tag);
                lemma_marks_of_prefix(tag, handed@, n as nat);
                lemma_marks_grow(handed@, n as nat, handed@.len());
            }
            Some(n)
        },
        None => None,
    }
}

/// Whether `tag` is one whole NBT document that begins with a tag other than
/// zero and is read as such whatever may follow it.
pub fn is_well_formed_tag(tag: &[u8]) -> (b: bool)
    ensures
        b == well_formed_tag(tag@),
{
    if tag.len() == 0 || tag[0] == 0 {
        return false;
    }
    let handed = readable_prefix(tag);
    if handed.len() < tag.len() {
        return false;
    }
    proof {
        assert(readable(tag@) =~= tag@);
        assert(tag@ + Seq::<u8>::empty() =~= tag@);
    }
    match nbt_length(tag) {
        Some(n) => {
            proof {
                if n == tag@.len() {
                    assert(tag@.take(n as int) =~= tag@);
                }
            }
            n == tag.len()
        },
        None => false,
    }
}

/// The 16-bit number that the two bytes of `s` from `at` on spell.
pub open spec fn short_at(s: Seq<u8>, at: int) -> i16 {
    match Short::decoded(s.skip(at)) {
        Some((v, _)) => v.0,
        None => 0i16,
    }
}

/// An inventory slot.
///
/// Where `present` is false the slot is empty and the other fields say nothing.
#[derive(Debug, Clone, PartialEq, Eq)]
pub struct Slot {
    pub present: bool,
    pub item_id: i16,
    pub item_count: u8,
    pub item_damage: i16,
    pub nbt: Option<Vec<u8>>,
}

/// What a slot holds.
pub struct SlotModel {
    pub present: bool,
    pub item_id: i16,
    pub item_count: u8,
    pub item_damage: i16,
    pub nbt: Option<Seq<u8>>,
}

impl View for Slot {
    type V = SlotModel;

    open spec fn view(&self) -> SlotModel {
        SlotModel {
            present: self.present,
            item_id: self.item_id,
            item_count: self.item_count,
            item_damage: self.item_damage,
            nbt: match self.nbt {
                Some(tag) => Some(tag@),
                None => None,
            },
        }
    }
}

impl SlotModel {
    /// The empty slot.
    pub open spec fn empty() -> SlotModel {
        SlotModel { present: false, item_id: 0, item_count: 0, item_damage: 0, nbt: None }
    }
}

impl Slot {
    /// Reads one slot from the front of `buf`.
    ///
    /// `None` when `buf` ends within the slot, or when the NBT tag is malformed
    /// or does not end within the bytes that the reader is handed.
    pub fn parse(buf: &[u8]) -> (r: Option<(Self, usize)>)
        ensures
            match r {
                Some((v, n)) => Self::decoded(buf@) == Some((v@, n as int)) && Self::valid(v@),
                None => Self::decoded(buf@) is None,
            },
    {
        if buf.len() < 1 {
            return None;
        }
        if buf[0] == 0 {
            return Some(
                (Slot { present: false, item_id: 0, item_count: 0, item_damage: 0, nbt: None }, 1),
            );
        }
        if buf.len() < 7 {
            return None;
        }
        let item_id = match Short::parse(slice_subrange(buf, 1, buf.len())) {
            Some((v, _)) => v.0,
            None => {
                return None;
            },
        };
        let item_count = buf[3];
        let item_damage = match Short::parse(slice_subrange(buf, 4, buf.len())) {
            Some((v, _)) => v.0,
            None => {
                return None;
            },
        };
        if buf[6] == 0 {
            return Some((Slot { present: true, item_id, item_count, item_damage, nbt: None }, 7));
        }
        let rest = slice_subrange(buf, 6, buf.len());
        match nbt_length(rest) {
            Some(n) => {
                if n == 0 {
                    return None;
                }
                let tag = copy_bytes(buf, 6, 6 + n);
                assert(tag@ =~= rest@.take(n as int));
                assert(rest@ =~= buf@.skip(6));
                let slot = Slot { present: true, item_id, item_count, item_damage, nbt: Some(tag) };
                Some((slot, 6 + n))
            },
            None => None,
        }
    }

    /// Appends the slot to `out`. The NBT tag, where there is one, is written as
    /// it is held.
    pub fn write(&self, out: &mut Vec<u8>)
        ensures
            final(out)@ == old(out)@ + Self::wire(self@),
    {
        if !self.present {
            out.push(0);
            assert(out@ =~= old(out)@ + Self::wire(self@));
            return ;
        }
        out.push(1);
        Short(self.item_id).write(out);
        out.push(self.item_count);
        Short(self.item_damage).write(out);
        match &self.nbt {
            Some(tag) => {
                append_bytes(tag.as_slice(), out);
            },
            None => {
                out.push(0);
            },
        }
        assert(out@ =~= old(out)@ + Self::wire(self@));
    }

    /// Whether the slot reads back as it is when written: an empty slot holds
    /// nothing, and a tag is one whole NBT document.
    pub fn is_valid(&self) -> (b: bool)
        ensures
            b == Self::valid(self@),
    {
        if !self.present {
            return self.item_id == 0 && self.item_count == 0 && self.item_damage == 0
                && self.nbt.is_none();
        }
        match &self.nbt {
            Some(tag) => is_well_formed_tag(tag.as_slice()),
            None => true,
        }
    }
}

impl Wire for Slot {
    open spec fn valid(m: SlotModel) -> bool {
        if m.present {
            m.nbt matches Some(tag) ==> well_formed_tag(tag)
        } else {
            m == SlotModel::empty()
        }
    }

    open spec fn wire(m: SlotModel) -> Seq<u8> {
        if m.present {
            seq![1u8] + Short::wire(Short(m.item_id)) + seq![m.item_count] + Short::wire(
                Short(m.item_damage),
            ) + match m.nbt {
                Some(tag) => tag,
                None => seq![0u8],
            }
        } else {
            seq![0u8]
        }
    }

    open spec fn decoded(s: Seq<u8>) -> Option<(SlotModel, int)> {
        if s.len() < 1 {
            None
        } else if s[0] == 0 {
            Some((SlotModel::empty(), 1))
        } else if s.len() < 7 {
            None
        } else {
            let item_id = short_at(s, 1);
            let item_count = s[3];
            let item_damage = short_at(s, 4);
            if s[6] == 0 {
                Some((SlotModel { present: true, item_id, item_count, item_damage, nbt: None }, 7))
            } else {
                match tag_extent(s.skip(6)) {
                    Some(n) => if 1 <= n <= s.len() - 6 {
                        Some(
                            (
                                SlotModel {
                                    present: true,
                                    item_id,
                                    item_count,
                                    item_damage,
                                    nbt: Some(s.subrange(6, 6 + n)),
                                },
                                6 + n,
                            ),
                        )
                    } else {
                        None
                    },
                    None => None,
                }
            }
        }
    }

    fn decode(data: &[u8]) -> (r: Option<(Self, usize)>) {
        Self::parse(data)
    }

    fn encode(&self, out: &mut Vec<u8>) {
        self.write(out)
    }

    fn check(&self) -> (b: bool) {
        self.is_valid()
    }

    proof fn lemma_decoded_bounds(s: Seq<u8>) {
    }

    proof fn lemma_decoded_wire(m: SlotModel, rest: Seq<u8>) {
        let s = Self::wire(m) + rest;
        if m.present {
            let id = Short::wire(Short(m.item_id));
            let damage = Short::wire(Short(m.item_damage));
            let tail = match m.nbt {
                Some(tag) => tag,
                None => seq![0u8],
            };
            Short::lemma_decoded_wire(Short(m.item_id), seq![m.item_count] + damage + tail + rest);
            Short::lemma_decoded_wire(Short(m.item_damage), tail + rest);
            reveal_with_fuel(crate::wire::byte_range, 3);
            crate::fixed::lemma_signed_round_trip(m.item_id as int, 2);
            crate::fixed::lemma_signed_round_trip(m.item_damage as int, 2);
            assert(s.skip(1) =~= id + (seq![m.item_count] + damage + tail + rest));
            assert(s.skip(4) =~= damage + (tail + rest));
            assert(s.skip(6) =~= tail + rest);
            assert(s[0] == 1);
            assert(s[3] == m.item_count);
            match m.nbt {
                Some(tag) => {
                    assert(s[6] == tag[0]);
                    assert(s.subrange(6, 6 + tag.len() as int) =~= tag);
                    lemma_tag_extent(tag, rest);
                },
                None => {
                    assert(s[6] == 0);
                },
            }
        } else {
            assert(s[0] == 0);
        }
    }
}

} // verus!
