//! The fixed-width numbers of the wire format.
//!
//! Each is a thin wrapper round a machine integer and travels as its bytes, most
//! significant first; signed ones in two's complement. `Float` and `Double` hold
//! the bit pattern of the number, which is what the wire carries.

use vstd::prelude::*;
use crate::wire::{
    be_bytes, be_decode, be_encode, be_value, byte_range, lemma_be_bytes_len, lemma_be_value_bound,
    lemma_be_value_bytes, signed_of, unsigned_of, Wire,
};

verus! {

/// The `n` bytes that stand for the unsigned number `v`, most significant first.
#[verifier::opaque]
pub open spec fn unsigned_bytes(v: nat, n: nat) -> Seq<u8> {
    be_bytes(v, n)
}

/// The unsigned number that the bytes of `s` spell, most significant first.
#[verifier::opaque]
pub open spec fn bytes_unsigned(s: Seq<u8>) -> nat {
    be_value(s)
}

/// The `n` bytes that stand for the signed number `v` in two's complement, most
/// significant first.
#[verifier::opaque]
pub open spec fn signed_bytes(v: int, n: nat) -> Seq<u8> {
    be_bytes(unsigned_of(v, n), n)
}

/// The signed number that the bytes of `s` spell in two's complement, most
/// significant first.
#[verifier::opaque]
pub open spec fn bytes_signed(s: Seq<u8>) -> int {
    signed_of(be_value(s), s.len())
}

/// A number that fits `n` bytes takes `n` bytes, and is read back from them.
pub proof fn lemma_unsigned_round_trip(v: nat, n: nat)
    requires
        v < byte_range(n),
    ensures
        unsigned_bytes(v, n).len() == n,
        bytes_unsigned(unsigned_bytes(v, n)) == v,
{
    reveal(unsigned_bytes);
    reveal(bytes_unsigned);
    lemma_be_bytes_len(v, n);
    lemma_be_value_bytes(v, n);
}

/// A number that fits `n` bytes in two's complement takes `n` bytes, and is
/// read back from them.
pub proof fn lemma_signed_round_trip(v: int, n: nat)
    requires
        -byte_range(n) <= 2 * v < byte_range(n),
    ensures
        signed_bytes(v, n).len() == n,
        bytes_signed(signed_bytes(v, n)) == v,
{
    reveal(signed_bytes);
    reveal(bytes_signed);
    let u = unsigned_of(v, n);
    lemma_be_bytes_len(u, n);
    lemma_be_value_bytes(u, n);
}

/// A signed byte.
#[derive(Debug, Clone, Copy, PartialEq, Eq, Structural)]
pub struct Byte(pub i8);

impl View for Byte {
    type V = Byte;

    open spec fn view(&self) -> Byte {
        *self
    }
}

impl Byte {
    /// Reads one value from the front of `data`; `None` when fewer than 1 byte are there.
    pub fn parse(data: &[u8]) -> (r: Option<(Self, usize)>)
        ensures
            match r {
                Some((v, n)) => Self::decoded(data@) == Some((v, n as int)),
                None => Self::decoded(data@) is None,
            },
    {
        if data.len() < 1 {
            return None;
        }
        proof {
            reveal_with_fuel(byte_range, 9);
            reveal(bytes_unsigned);
            reveal(bytes_signed);
            lemma_be_value_bound(data@.take(1));
        }
        let u = be_decode(data, 1);
        let value = if u < 128 {
            u as i8
        } else {
            (u as i16 - 256) as i8
        };
        Some((Byte(value), 1))
    }

    /// Appends the 1 byte of the value to `out`.
    pub fn write(&self, out: &mut Vec<u8>)
        ensures
            final(out)@ == old(out)@ + Self::wire(*self),
    {
        proof {
            reveal_with_fuel(byte_range, 9);
            reveal(unsigned_bytes);
            reveal(signed_bytes);
        }
        let u = if self.0 >= 0 {
            self.0 as u64
        } else {
            (self.0 as i16 + 256) as u64
        };
        be_encode(u, 1, out);
    }
}

impl Wire for Byte {
    open spec fn valid(m: Byte) -> bool {
        true
    }

    open spec fn wire(m: Byte) -> Seq<u8> {
        signed_bytes(m.0 as int, 1)
    }

    open spec fn decoded(s: Seq<u8>) -> Option<(Byte, int)> {
        if s.len() >= 1 {
            Some((Byte(bytes_signed(s.take(1)) as i8), 1))
        } else {
            None
        }
    }

    fn decode(data: &[u8]) -> (r: Option<(Self, usize)>) {
        Self::parse(data)
    }

    fn encode(&self, out: &mut Vec<u8>) {
        self.write(out)
    }

    fn check(&self) -> (b: bool) {
        true
    }

    proof fn lemma_decoded_bounds(s: Seq<u8>) {
    }

    proof fn lemma_decoded_wire(m: Byte, rest: Seq<u8>) {
        reveal_with_fuel(byte_range, 9);
        lemma_signed_round_trip(m.0 as int, 1);
        assert((Self::wire(m) + rest).take(1) =~= Self::wire(m));
    }
}

/// An unsigned byte.
#[derive(Debug, Clone, Copy, PartialEq, Eq, Structural)]
pub struct UnsignedByte(pub u8);

impl View for UnsignedByte {
    type V = UnsignedByte;

    open spec fn view(&self) -> UnsignedByte {
        *self
    }
}

impl UnsignedByte {
    /// Reads one value from the front of `data`; `None` when fewer than 1 byte are there.
    pub fn parse(data: &[u8]) -> (r: Option<(Self, usize)>)
        ensures
            match r {
                Some((v, n)) => Self::decoded(data@) == Some((v, n as int)),
                None => Self::decoded(data@) is None,
            },
    {
        if data.len() < 1 {
            return None;
        }
        proof {
            reveal_with_fuel(byte_range, 9);
            reveal(bytes_unsigned);
            reveal(bytes_signed);
            lemma_be_value_bound(data@.take(1));
        }
        let u = be_decode(data, 1);
        let value = u as u8;
        Some((UnsignedByte(value), 1))
    }

    /// Appends the 1 byte of the value to `out`.
    pub fn write(&self, out: &mut Vec<u8>)
        ensures
            final(out)@ == old(out)@ + Self::wire(*self),
    {
        proof {
            reveal_with_fuel(byte_range, 9);
            reveal(unsigned_bytes);
            reveal(signed_bytes);
        }
        let u = self.0 as u64;
        be_encode(u, 1, out);
    }
}

impl Wire for UnsignedByte {
    open spec fn valid(m: UnsignedByte) -> bool {
        true
    }

    open spec fn wire(m: UnsignedByte) -> Seq<u8> {
        unsigned_bytes(m.0 as nat, 1)
    }

    open spec fn decoded(s: Seq<u8>) -> Option<(UnsignedByte, int)> {
        if s.len() >= 1 {
            Some((UnsignedByte(bytes_unsigned(s.take(1)) as u8), 1))
        } else {
            None
        }
    }

    fn decode(data: &[u8]) -> (r: Option<(Self, usize)>) {
        Self::parse(data)
    }

    fn encode(&self, out: &mut Vec<u8>) {
        self.write(out)
    }

    fn check(&self) -> (b: bool) {
        true
    }

    proof fn lemma_decoded_bounds(s: Seq<u8>) {
    }

    proof fn lemma_decoded_wire(m: UnsignedByte, rest: Seq<u8>) {
        reveal_with_fuel(byte_range, 9);
        lemma_unsigned_round_trip(m.0 as nat, 1);
        assert((Self::wire(m) + rest).take(1) =~= Self::wire(m));
    }
}

/// A signed 16-bit integer, big-endian on the wire.
#[derive(Debug, Clone, Copy, PartialEq, Eq, Structural)]
pub struct Short(pub i16);

impl View for Short {
    type V = Short;

    open spec fn view(&self) -> Short {
        *self
    }
}

impl Short {
    /// Reads one value from the front of `data`; `None` when fewer than 2 bytes are there.
    pub fn parse(data: &[u8]) -> (r: Option<(Self, usize)>)
        ensures
            match r {
                Some((v, n)) => Self::decoded(data@) == Some((v, n as int)),
                None => Self::decoded(data@) is None,
            },
    {
        if data.len() < 2 {
            return None;
        }
        proof {
            reveal_with_fuel(byte_range, 9);
            reveal(bytes_unsigned);
            reveal(bytes_signed);
            lemma_be_value_bound(data@.take(2));
        }
        let u = be_decode(data, 2);
        let value = if u < 32768 {
            u as i16
        } else {
            (u as i32 - 65536) as i16
        };
        Some((Short(value), 2))
    }

    /// Appends the 2 bytes of the value to `out`.
    pub fn write(&self, out: &mut Vec<u8>)
        ensures
            final(out)@ == old(out)@ + Self::wire(*self),
    {
        proof {
            reveal_with_fuel(byte_range, 9);
            reveal(unsigned_bytes);
            reveal(signed_bytes);
        }
        let u = if self.0 >= 0 {
            self.0 as u64
        } else {
            (self.0 as i32 + 65536) as u64
        };
        be_encode(u, 2, out);
    }
}

impl Wire for Short {
    open spec fn valid(m: Short) -> bool {
        true
    }

    open spec fn wire(m: Short) -> Seq<u8> {
        signed_bytes(m.0 as int, 2)
    }

    open spec fn decoded(s: Seq<u8>) -> Option<(Short, int)> {
        if s.len() >= 2 {
            Some((Short(bytes_signed(s.take(2)) as i16), 2))
        } else {
            None
        }
    }

    fn decode(data: &[u8]) -> (r: Option<(Self, usize)>) {
        Self::parse(data)
    }

    fn encode(&self, out: &mut Vec<u8>) {
        self.write(out)
    }

    fn check(&self) -> (b: bool) {
        true
    }

    proof fn lemma_decoded_bounds(s: Seq<u8>) {
    }

    proof fn lemma_decoded_wire(m: Short, rest: Seq<u8>) {
        reveal_with_fuel(byte_range, 9);
        lemma_signed_round_trip(m.0 as int, 2);
        assert((Self::wire(m) + rest).take(2) =~= Self::wire(m));
    }
}

/// An unsigned 16-bit integer, big-endian on the wire.
#[derive(Debug, Clone, Copy, PartialEq, Eq, Structural)]
pub struct UnsignedShort(pub u16);

impl View for UnsignedShort {
    type V = UnsignedShort;

    open spec fn view(&self) -> UnsignedShort {
        *self
    }
}

impl UnsignedShort {
    /// Reads one value from the front of `data`; `None` when fewer than 2 bytes are there.
    pub fn parse(data: &[u8]) -> (r: Option<(Self, usize)>)
        ensures
            match r {
                Some((v, n)) => Self::decoded(data@) == Some((v, n as int)),
                None => Self::decoded(data@) is None,
            },
    {
        if data.len() < 2 {
            return None;
        }
        proof {
            reveal_with_fuel(byte_range, 9);
            reveal(bytes_unsigned);
            reveal(bytes_signed);
            lemma_be_value_bound(data@.take(2));
        }
        let u = be_decode(data, 2);
        let value = u as u16;
        Some((UnsignedShort(value), 2))
    }

    /// Appends the 2 bytes of the value to `out`.
    pub fn write(&self, out: &mut Vec<u8>)
        ensures
            final(out)@ == old(out)@ + Self::wire(*self),
    {
        proof {
            reveal_with_fuel(byte_range, 9);
            reveal(unsigned_bytes);
            reveal(signed_bytes);
        }
        let u = self.0 as u64;
        be_encode(u, 2, out);
    }
}

impl Wire for UnsignedShort {
    open spec fn valid(m: UnsignedShort) -> bool {
        true
    }

    open spec fn wire(m: UnsignedShort) -> Seq<u8> {
        unsigned_bytes(m.0 as nat, 2)
    }

    open spec fn decoded(s: Seq<u8>) -> Option<(UnsignedShort, int)> {
        if s.len() >= 2 {
            Some((UnsignedShort(bytes_unsigned(s.take(2)) as u16), 2))
        } else {
            None
        }
    }

    fn decode(data: &[u8]) -> (r: Option<(Self, usize)>) {
        Self::parse(data)
    }

    fn encode(&self, out: &mut Vec<u8>) {
        self.write(out)
    }

    fn check(&self) -> (b: bool) {
        true
    }

    proof fn lemma_decoded_bounds(s: Seq<u8>) {
    }

    proof fn lemma_decoded_wire(m: UnsignedShort, rest: Seq<u8>) {
        reveal_with_fuel(byte_range, 9);
        lemma_unsigned_round_trip(m.0 as nat, 2);
        assert((Self::wire(m) + rest).take(2) =~= Self::wire(m));
    }
}

/// A signed 32-bit integer, big-endian on the wire.
#[derive(Debug, Clone, Copy, PartialEq, Eq, Structural)]
pub struct Int(pub i32);

impl View for Int {
    type V = Int;

    open spec fn view(&self) -> Int {
        *self
    }
}

impl Int {
    /// Reads one value from the front of `data`; `None` when fewer than 4 bytes are there.
    pub fn parse(data: &[u8]) -> (r: Option<(Self, usize)>)
        ensures
            match r {
                Some((v, n)) => Self::decoded(data@) == Some((v, n as int)),
                None => Self::decoded(data@) is None,
            },
    {
        if data.len() < 4 {
            return None;
        }
        proof {
            reveal_with_fuel(byte_range, 9);
            reveal(bytes_unsigned);
            reveal(bytes_signed);
            lemma_be_value_bound(data@.take(4));
        }
        let u = be_decode(data, 4);
        let value = if u < 2147483648 {
            u as i32
        } else {
            (u as i64 - 4294967296) as i32
        };
        Some((Int(value), 4))
    }

    /// Appends the 4 bytes of the value to `out`.
    pub fn write(&self, out: &mut Vec<u8>)
        ensures
            final(out)@ == old(out)@ + Self::wire(*self),
    {
        proof {
            reveal_with_fuel(byte_range, 9);
            reveal(unsigned_bytes);
            reveal(signed_bytes);
        }
        let u = if self.0 >= 0 {
            self.0 as u64
        } else {
            (self.0 as i64 + 4294967296) as u64
        };
        be_encode(u, 4, out);
    }
}

impl Wire for Int {
    open spec fn valid(m: Int) -> bool {
        true
    }

    open spec fn wire(m: Int) -> Seq<u8> {
        signed_bytes(m.0 as int, 4)
    }

    open spec fn decoded(s: Seq<u8>) -> Option<(Int, int)> {
        if s.len() >= 4 {
            Some((Int(bytes_signed(s.take(4)) as i32), 4))
        } else {
            None
        }
    }

    fn decode(data: &[u8]) -> (r: Option<(Self, usize)>) {
        Self::parse(data)
    }

    fn encode(&self, out: &mut Vec<u8>) {
        self.write(out)
    }

    fn check(&self) -> (b: bool) {
        true
    }

    proof fn lemma_decoded_bounds(s: Seq<u8>) {
    }

    proof fn lemma_decoded_wire(m: Int, rest: Seq<u8>) {
        reveal_with_fuel(byte_range, 9);
        lemma_signed_round_trip(m.0 as int, 4);
        assert((Self::wire(m) + rest).take(4) =~= Self::wire(m));
    }
}

/// A signed 64-bit integer, big-endian on the wire.
#[derive(Debug, Clone, Copy, PartialEq, Eq, Structural)]
pub struct Long(pub i64);

impl View for Long {
    type V = Long;

    open spec fn view(&self) -> Long {
        *self
    }
}

impl Long {
    /// Reads one value from the front of `data`; `None` when fewer than 8 bytes are there.
    pub fn parse(data: &[u8]) -> (r: Option<(Self, usize)>)
        ensures
            match r {
                Some((v, n)) => Self::decoded(data@) == Some((v, n as int)),
                None => Self::decoded(data@) is None,
            },
    {
        if data.len() < 8 {
            return None;
        }
        proof {
            reveal_with_fuel(byte_range, 9);
            reveal(bytes_unsigned);
            reveal(bytes_signed);
            lemma_be_value_bound(data@.take(8));
        }
        let u = be_decode(data, 8);
        let value = if u < 9223372036854775808 {
            u as i64
        } else {
            i64::MIN + (u - 9223372036854775808) as i64
        };
        Some((Long(value), 8))
    }

    /// Appends the 8 bytes of the value to `out`.
    pub fn write(&self, out: &mut Vec<u8>)
        ensures
            final(out)@ == old(out)@ + Self::wire(*self),
    {
        proof {
            reveal_with_fuel(byte_range, 9);
            reveal(unsigned_bytes);
            reveal(signed_bytes);
        }
        let u = if self.0 >= 0 {
            self.0 as u64
        } else {
            (self.0 as i128 + 18446744073709551616) as u64
        };
        be_encode(u, 8, out);
    }
}

impl Wire for Long {
    open spec fn valid(m: Long) -> bool {
        true
    }

    open spec fn wire(m: Long) -> Seq<u8> {
        signed_bytes(m.0 as int, 8)
    }

    open spec fn decoded(s: Seq<u8>) -> Option<(Long, int)> {
        if s.len() >= 8 {
            Some((Long(bytes_signed(s.take(8)) as i64), 8))
        } else {
            None
        }
    }

    fn decode(data: &[u8]) -> (r: Option<(Self, usize)>) {
        Self::parse(data)
    }

    fn encode(&self, out: &mut Vec<u8>) {
        self.write(out)
    }

    fn check(&self) -> (b: bool) {
        true
    }

    proof fn lemma_decoded_bounds(s: Seq<u8>) {
    }

    proof fn lemma_decoded_wire(m: Long, rest: Seq<u8>) {
        reveal_with_fuel(byte_range, 9);
        lemma_signed_round_trip(m.0 as int, 8);
        assert((Self::wire(m) + rest).take(8) =~= Self::wire(m));
    }
}

/// A single-precision number, held as its IEEE-754 bit pattern, big-endian on the wire.
#[derive(Debug, Clone, Copy, PartialEq, Eq, Structural)]
pub struct Float(pub u32);

impl View for Float {
    type V = Float;

    open spec fn view(&self) -> Float {
        *self
    }
}

impl Float {
    /// Reads one value from the front of `data`; `None` when fewer than 4 bytes are there.
    pub fn parse(data: &[u8]) -> (r: Option<(Self, usize)>)
        ensures
            match r {
                Some((v, n)) => Self::decoded(data@) == Some((v, n as int)),
                None => Self::decoded(data@) is None,
            },
    {
        if data.len() < 4 {
            return None;
        }
        proof {
            reveal_with_fuel(byte_range, 9);
            reveal(bytes_unsigned);
            reveal(bytes_signed);
            lemma_be_value_bound(data@.take(4));
        }
        let u = be_decode(data, 4);
        let value = u as u32;
        Some((Float(value), 4))
    }

    /// Appends the 4 bytes of the value to `out`.
    pub fn write(&self, out: &mut Vec<u8>)
        ensures
            final(out)@ == old(out)@ + Self::wire(*self),
    {
        proof {
            reveal_with_fuel(byte_range, 9);
            reveal(unsigned_bytes);
            reveal(signed_bytes);
        }
        let u = self.0 as u64;
        be_encode(u, 4, out);
    }
}

impl Wire for Float {
    open spec fn valid(m: Float) -> bool {
        true
    }

    open spec fn wire(m: Float) -> Seq<u8> {
        unsigned_bytes(m.0 as nat, 4)
    }

    open spec fn decoded(s: Seq<u8>) -> Option<(Float, int)> {
        if s.len() >= 4 {
            Some((Float(bytes_unsigned(s.take(4)) as u32), 4))
        } else {
            None
        }
    }

    fn decode(data: &[u8]) -> (r: Option<(Self, usize)>) {
        Self::parse(data)
    }

    fn encode(&self, out: &mut Vec<u8>) {
        self.write(out)
    }

    fn check(&self) -> (b: bool) {
        true
    }

    proof fn lemma_decoded_bounds(s: Seq<u8>) {
    }

    proof fn lemma_decoded_wire(m: Float, rest: Seq<u8>) {
        reveal_with_fuel(byte_range, 9);
        lemma_unsigned_round_trip(m.0 as nat, 4);
        assert((Self::wire(m) + rest).take(4) =~= Self::wire(m));
    }
}

/// A double-precision number, held as its IEEE-754 bit pattern, big-endian on the wire.
#[derive(Debug, Clone, Copy, PartialEq, Eq, Structural)]
pub struct Double(pub u64);

impl View for Double {
    type V = Double;

    open spec fn view(&self) -> Double {
        *self
    }
}

impl Double {
    /// Reads one value from the front of `data`; `None` when fewer than 8 bytes are there.
    pub fn parse(data: &[u8]) -> (r: Option<(Self, usize)>)
        ensures
            match r {
                Some((v, n)) => Self::decoded(data@) == Some((v, n as int)),
                None => Self::decoded(data@) is None,
            },
    {
        if data.len() < 8 {
            return None;
        }
        proof {
            reveal_with_fuel(byte_range, 9);
            reveal(bytes_unsigned);
            reveal(bytes_signed);
            lemma_be_value_bound(data@.take(8));
        }
        let u = be_decode(data, 8);
        let value = u as u64;
        Some((Double(value), 8))
    }

    /// Appends the 8 bytes of the value to `out`.
    pub fn write(&self, out: &mut Vec<u8>)
        ensures
            final(out)@ == old(out)@ + Self::wire(*self),
    {
        proof {
            reveal_with_fuel(byte_range, 9);
            reveal(unsigned_bytes);
            reveal(signed_bytes);
        }
        let u = self.0 as u64;
        be_encode(u, 8, out);
    }
}

impl Wire for Double {
    open spec fn valid(m: Double) -> bool {
        true
    }

    open spec fn wire(m: Double) -> Seq<u8> {
        unsigned_bytes(m.0 as nat, 8)
    }

    open spec fn decoded(s: Seq<u8>) -> Option<(Double, int)> {
        if s.len() >= 8 {
            Some((Double(bytes_unsigned(s.take(8)) as u64), 8))
        } else {
            None
        }
    }

    fn decode(data: &[u8]) -> (r: Option<(Self, usize)>) {
        Self::parse(data)
    }

    fn encode(&self, out: &mut Vec<u8>) {
        self.write(out)
    }

    fn check(&self) -> (b: bool) {
        true
    }

    proof fn lemma_decoded_bounds(s: Seq<u8>) {
    }

    proof fn lemma_decoded_wire(m: Double, rest: Seq<u8>) {
        reveal_with_fuel(byte_range, 9);
        lemma_unsigned_round_trip(m.0 as nat, 8);
        assert((Self::wire(m) + rest).take(8) =~= Self::wire(m));
    }
}

} // verus!
