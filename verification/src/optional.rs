//! Values that may be absent, and runs with other counts than a `VarInt`.

use vstd::prelude::*;
use crate::arrays::{
    append_bytes, check_items, copy_bytes, counted_items, decode_items, encode_items, items_valid,
    items_wire, lemma_decoded_items_bounds, lemma_decoded_items_wire, models,
};
use crate::fixed::{Int, Short};
use crate::slot::{is_well_formed_tag, lemma_tag_extent, nbt_length, tag_extent, well_formed_tag};
use crate::wire::{tail, Wire};

verus! {

/// A value behind a flag: one byte that says whether the value follows. Zero
/// says that it does not; any other byte that it does, and one is written.
#[derive(Debug, Clone, PartialEq, Eq)]
pub struct Optional<T> {
    pub value: Option<T>,
}

impl<T: Wire> View for Optional<T> {
    type V = Option<T::V>;

    open spec fn view(&self) -> Option<T::V> {
        match self.value {
            Some(v) => Some(v@),
            None => None,
        }
    }
}

impl<T: Wire> Wire for Optional<T> {
    open spec fn valid(m: Option<T::V>) -> bool {
        m matches Some(v) ==> T::valid(v)
    }

    open spec fn wire(m: Option<T::V>) -> Seq<u8> {
        match m {
            Some(v) => seq![1u8] + T::wire(v),
            None => seq![0u8],
        }
    }

    open spec fn decoded(s: Seq<u8>) -> Option<(Option<T::V>, int)> {
        if s.len() < 1 {
            None
        } else if s[0] == 0 {
            Some((None, 1))
        } else {
            match T::decoded(s.skip(1)) {
                Some((v, n)) => Some((Some(v), 1 + n)),
                None => None,
            }
        }
    }

    fn decode(data: &[u8]) -> (r: Option<(Self, usize)>) {
        if data.len() < 1 {
            return None;
        }
        if data[0] == 0 {
            return Some((Optional { value: None }, 1));
        }
        let rest = tail(data, 1);
        match T::decode(rest) {
            Some((v, n)) => {
                proof {
                    T::lemma_decoded_bounds(rest@);
                }
                Some((Optional { value: Some(v) }, 1 + n))
            },
            None => None,
        }
    }

    fn encode(&self, out: &mut Vec<u8>) {
        match &self.value {
            Some(v) => {
                out.push(1);
                v.encode(out);
            },
            None => {
                out.push(0);
            },
        }
        assert(out@ =~= old(out)@ + Self::wire(self@));
    }

    fn check(&self) -> (b: bool) {
        match &self.value {
            Some(v) => v.check(),
            None => true,
        }
    }

    proof fn lemma_decoded_bounds(s: Seq<u8>) {
        if s.len() >= 1 {
            T::lemma_decoded_bounds(s.skip(1));
        }
    }

    proof fn lemma_decoded_wire(m: Option<T::V>, rest: Seq<u8>) {
        let s = Self::wire(m) + rest;
        match m {
            Some(v) => {
                assert(s[0] == 1);
                assert(s.skip(1) =~= T::wire(v) + rest);
                T::lemma_decoded_wire(v, rest);
            },
            None => {
                assert(s[0] == 0);
            },
        }
    }
}

/// A run of values counted by an `Int`.
#[derive(Debug, Clone, PartialEq, Eq)]
pub struct IntCountedArray<T> {
    pub elements: Vec<T>,
}

impl<T: Wire> View for IntCountedArray<T> {
    type V = Seq<T::V>;

    open spec fn view(&self) -> Seq<T::V> {
        models(self.elements@)
    }
}

impl<T: Wire> Wire for IntCountedArray<T> {
    open spec fn valid(m: Seq<T::V>) -> bool {
        m.len() <= i32::MAX && items_valid::<T>(m)
    }

    open spec fn wire(m: Seq<T::V>) -> Seq<u8> {
        Int::wire(Int(m.len() as i32)) + items_wire::<T>(m)
    }

    open spec fn decoded(s: Seq<u8>) -> Option<(Seq<T::V>, int)> {
        match Int::decoded(s) {
            Some((count, n)) => counted_items::<T>(s, count.0 as int, n),
            None => None,
        }
    }

    fn decode(data: &[u8]) -> (r: Option<(Self, usize)>) {
        let (count, n) = match Int::parse(data) {
            Some(x) => x,
            None => {
                return None;
            },
        };
        if count.0 < 0 {
            return None;
        }
        let wanted: usize = count.0 as usize;
        let rest = tail(data, n);
        match decode_items::<T>(rest, wanted) {
            Some((elements, used)) => {
                proof {
                    lemma_decoded_items_bounds::<T>(rest@, wanted as nat);
                }
                Some((IntCountedArray { elements }, n + used))
            },
            None => None,
        }
    }

    fn encode(&self, out: &mut Vec<u8>) {
        Int(self.elements.len() as i32).write(out);
        encode_items::<T>(&self.elements, out);
        assert(out@ =~= old(out)@ + Self::wire(self@));
    }

    fn check(&self) -> (b: bool) {
        self.elements.len() <= 0x7fff_ffff && check_items::<T>(&self.elements)
    }

    proof fn lemma_decoded_bounds(s: Seq<u8>) {
        if let Some((count, n)) = Int::decoded(s) {
            if count.0 >= 0 {
                lemma_decoded_items_bounds::<T>(s.skip(n), count.0 as nat);
            }
        }
    }

    proof fn lemma_decoded_wire(m: Seq<T::V>, rest: Seq<u8>) {
        let count = Int(m.len() as i32);
        let head = Int::wire(count);
        let body = items_wire::<T>(m);
        let s = Self::wire(m) + rest;
        assert(s =~= head + (body + rest));
        Int::lemma_decoded_wire(count, body + rest);
        assert(s.skip(head.len() as int) =~= body + rest);
        lemma_decoded_items_wire::<T>(m, rest);
    }
}

/// A run of values counted by a `Short`.
#[derive(Debug, Clone, PartialEq, Eq)]
pub struct ShortCountedArray<T> {
    pub elements: Vec<T>,
}

impl<T: Wire> View for ShortCountedArray<T> {
    type V = Seq<T::V>;

    open spec fn view(&self) -> Seq<T::V> {
        models(self.elements@)
    }
}

impl<T: Wire> Wire for ShortCountedArray<T> {
    open spec fn valid(m: Seq<T::V>) -> bool {
        m.len() <= i16::MAX && items_valid::<T>(m)
    }

    open spec fn wire(m: Seq<T::V>) -> Seq<u8> {
        Short::wire(Short(m.len() as i16)) + items_wire::<T>(m)
    }

    open spec fn decoded(s: Seq<u8>) -> Option<(Seq<T::V>, int)> {
        match Short::decoded(s) {
            Some((count, n)) => counted_items::<T>(s, count.0 as int, n),
            None => None,
        }
    }

    fn decode(data: &[u8]) -> (r: Option<(Self, usize)>) {
        let (count, n) = match Short::parse(data) {
            Some(x) => x,
            None => {
                return None;
            },
        };
        if count.0 < 0 {
            return None;
        }
        let wanted: usize = count.0 as usize;
        let rest = tail(data, n);
        match decode_items::<T>(rest, wanted) {
            Some((elements, used)) => {
                proof {
                    lemma_decoded_items_bounds::<T>(rest@, wanted as nat);
                }
                Some((ShortCountedArray { elements }, n + used))
            },
            None => None,
        }
    }

    fn encode(&self, out: &mut Vec<u8>) {
        Short(self.elements.len() as i16).write(out);
        encode_items::<T>(&self.elements, out);
        assert(out@ =~= old(out)@ + Self::wire(self@));
    }

    fn check(&self) -> (b: bool) {
        self.elements.len() <= 0x7fff && check_items::<T>(&self.elements)
    }

    proof fn lemma_decoded_bounds(s: Seq<u8>) {
        if let Some((count, n)) = Short::decoded(s) {
            if count.0 >= 0 {
                lemma_decoded_items_bounds::<T>(s.skip(n), count.0 as nat);
            }
        }
    }

    proof fn lemma_decoded_wire(m: Seq<T::V>, rest: Seq<u8>) {
        let count = Short(m.len() as i16);
        let head = Short::wire(count);
        let body = items_wire::<T>(m);
        let s = Self::wire(m) + rest;
        assert(s =~= head + (body + rest));
        Short::lemma_decoded_wire(count, body + rest);
        assert(s.skip(head.len() as int) =~= body + rest);
        lemma_decoded_items_wire::<T>(m, rest);
    }
}

/// An NBT tag that may be absent: a single zero byte where there is none, or
/// else one NBT compound, kept as the bytes it came in.
#[derive(Debug, Clone, PartialEq, Eq)]
pub struct OptionalNbt {
    pub tag: Option<Vec<u8>>,
}

impl View for OptionalNbt {
    type V = Option<Seq<u8>>;

    open spec fn view(&self) -> Option<Seq<u8>> {
        match self.tag {
            Some(tag) => Some(tag@),
            None => None,
        }
    }
}

impl Wire for OptionalNbt {
    open spec fn valid(m: Option<Seq<u8>>) -> bool {
        m matches Some(tag) ==> well_formed_tag(tag)
    }

    open spec fn wire(m: Option<Seq<u8>>) -> Seq<u8> {
        match m {
            Some(tag) => tag,
            None => seq![0u8],
        }
    }

    open spec fn decoded(s: Seq<u8>) -> Option<(Option<Seq<u8>>, int)> {
        if s.len() < 1 {
            None
        } else if s[0] == 0 {
            Some((None, 1))
        } else {
            match tag_extent(s) {
                Some(n) => if 1 <= n <= s.len() {
                    Some((Some(s.take(n)), n))
                } else {
                    None
                },
                None => None,
            }
        }
    }

    fn decode(data: &[u8]) -> (r: Option<(Self, usize)>) {
        if data.len() < 1 {
            return None;
        }
        if data[0] == 0 {
            return Some((OptionalNbt { tag: None }, 1));
        }
        match nbt_length(data) {
            Some(n) => {
                if n == 0 {
                    return None;
                }
                let tag = copy_bytes(data, 0, n);
                assert(tag@ =~= data@.take(n as int));
                Some((OptionalNbt { tag: Some(tag) }, n))
            },
            None => None,
        }
    }

    fn encode(&self, out: &mut Vec<u8>) {
        match &self.tag {
            Some(tag) => {
                append_bytes(tag.as_slice(), out);
            },
            None => {
                out.push(0);
                assert(out@ =~= old(out)@ + Self::wire(self@));
            },
        }
    }

    fn check(&self) -> (b: bool) {
        match &self.tag {
            Some(tag) => is_well_formed_tag(tag.as_slice()),
            None => true,
        }
    }

    proof fn lemma_decoded_bounds(s: Seq<u8>) {
    }

    proof fn lemma_decoded_wire(m: Option<Seq<u8>>, rest: Seq<u8>) {
        let s = Self::wire(m) + rest;
        match m {
            Some(tag) => {
                assert(s[0] == tag[0]);
                assert(s.take(tag.len() as int) =~= tag);
                lemma_tag_extent(tag, rest);
            },
            None => {
                assert(s[0] == 0);
            },
        }
    }
}

} // verus!
