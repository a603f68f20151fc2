//! Reading a `VarInt` from a stream, one byte at a time.
//!
//! The length of a frame says how many bytes to wait for, so it cannot itself
//! be waited for as a block. The reader takes the bytes as they come and says
//! after each whether the number is complete.

use vstd::prelude::*;
use crate::varint::{
    groups_value, lemma_groups_value_bound, lemma_groups_value_prefix, lemma_span_skip, pow128,
    VarInt,
};
use crate::wire::{byte_range, Wire};

verus! {

/// What the reader says after a byte.
#[derive(Debug, Clone, Copy, PartialEq, Eq, Structural)]
pub enum VarIntStep {
    /// The number goes on: another byte is needed.
    NeedMore,
    /// The number is complete.
    Done(i32),
    /// The fifth byte still asks for another: this is no `VarInt`.
    TooLong,
}

/// A reader of one `VarInt` after the other.
pub struct VarIntReader {
    value: u64,
    count: u8,
    seen: Ghost<Seq<u8>>,
}

impl VarIntReader {
    #[verifier::type_invariant]
    spec fn well_formed(&self) -> bool {
        &&& self.count <= 4
        &&& self.seen@.len() == self.count
        &&& forall|i: int| 0 <= i < self.seen@.len() ==> self.seen@[i] >= 128
        &&& self.value == groups_value(self.seen@, self.count as nat)
    }

    /// The bytes of the number that is being read, as far as they have come.
    pub closed spec fn pending(&self) -> Seq<u8> {
        self.seen@
    }

    /// A reader that has seen nothing.
    pub fn new() -> (r: Self)
        ensures
            r.pending() == Seq::<u8>::empty(),
    {
        VarIntReader { value: 0, count: 0, seen: Ghost(Seq::empty()) }
    }

    /// Takes the next byte of the stream.
    ///
    /// While the number goes on the byte is kept. When the number is complete
    /// it is handed out, and it is the `VarInt` that the bytes kept and this
    /// byte spell; the reader then begins anew. The same when the fifth byte
    /// asks for another.
    pub fn push(&mut self, byte: u8) -> (step: VarIntStep)
        ensures
            old(self).pending().len() <= 4,
            match step {
                VarIntStep::NeedMore => {
                    &&& byte >= 128
                    &&& old(self).pending().len() < 4
                    &&& final(self).pending() == old(self).pending().push(byte)
                },
                VarIntStep::Done(v) => {
                    &&& byte < 128
                    &&& VarInt::decoded(old(self).pending().push(byte)) == Some(
                        (VarInt(v), old(self).pending().len() as int + 1),
                    )
                    &&& final(self).pending() == Seq::<u8>::empty()
                },
                VarIntStep::TooLong => {
                    &&& byte >= 128
                    &&& old(self).pending().len() == 4
                    &&& VarInt::decoded(old(self).pending().push(byte)) is None
                    &&& final(self).pending() == Seq::<u8>::empty()
                },
            },
    {
        proof {
            use_type_invariant(&*self);
            reveal(crate::varint::groups_signed);
            reveal_with_fuel(pow128, 6);
            reveal_with_fuel(byte_range, 9);
        }
        let ghost before = self.seen@;
        let ghost all = before.push(byte);
        let count = self.count;
        let mult: u64 = if count == 0 {
            1
        } else if count == 1 {
            128
        } else if count == 2 {
            16384
        } else if count == 3 {
            2097152
        } else {
            268435456
        };
        proof {
            lemma_groups_value_prefix(before, all, count as nat);
            lemma_groups_value_bound(before, count as nat);
            assert(all[count as int] == byte);
        }
        if byte < 128 {
            let total = self.value + byte as u64 * mult;
            let u = total % 0x1_0000_0000;
            let v = if u < 0x8000_0000 {
                u as i32
            } else {
                (u as i64 - 0x1_0000_0000) as i32
            };
            proof {
                lemma_span_skip(all, 5, count as nat);
                assert(all.skip(count as int)[0] == byte);
                assert(byte % 128 == byte);
                assert(groups_value(all, (count + 1) as nat) == groups_value(all, count as nat) + (
                all[count as int] % 128) as nat * pow128(count as nat));
            }
            *self = VarIntReader { value: 0, count: 0, seen: Ghost(Seq::empty()) };
            return VarIntStep::Done(v);
        }
        if count == 4 {
            proof {
                lemma_span_skip(all, 5, 5);
                assert(all.skip(5).len() == 0);
            }
            *self = VarIntReader { value: 0, count: 0, seen: Ghost(Seq::empty()) };
            return VarIntStep::TooLong;
        }
        proof {
            assert(groups_value(all, (count + 1) as nat) == groups_value(all, count as nat) + (
            all[count as int] % 128) as nat * pow128(count as nat));
        }
        let value = self.value + (byte % 128) as u64 * mult;
        *self = VarIntReader { value, count: count + 1, seen: Ghost(all) };
        VarIntStep::NeedMore
    }
}

} // verus!
