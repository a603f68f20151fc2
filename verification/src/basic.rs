//! The small fixed-size values of the wire format that are not plain numbers:
//! booleans, angles, UUIDs and block positions.

use vstd::prelude::*;
use crate::wire::{be_bytes, be_decode, be_encode, be_value, byte_range, Wire};
use crate::wire::{lemma_be_bytes_len, lemma_be_value_bound, lemma_be_value_bytes};
use vstd::arithmetic::div_mod::lemma_fundamental_div_mod_converse;

verus! {

/// A truth value: one byte, zero for false. Any other byte reads as true, and
/// true is written as one.
#[derive(Debug, Clone, Copy, PartialEq, Eq, Structural)]
pub struct Boolean(pub bool);

impl View for Boolean {
    type V = Boolean;

    open spec fn view(&self) -> Boolean {
        *self
    }
}

impl Boolean {
    /// Reads one value from the front of `data`; `None` when `data` is empty.
    pub fn parse(data: &[u8]) -> (r: Option<(Self, usize)>)
        ensures
            match r {
                Some((v, n)) => Self::decoded(data@) == Some((v, n as int)),
                None => Self::decoded(data@) is None,
            },
    {
        if data.len() < 1 {
            return None;
        }
        Some((Boolean(data[0] != 0), 1))
    }

    /// Appends the byte of the value to `out`.
    pub fn write(&self, out: &mut Vec<u8>)
        ensures
            final(out)@ == old(out)@ + Self::wire(*self),
    {
        out.push(if self.0 { 1 } else { 0 });
        assert(out@ =~= old(out)@ + Self::wire(*self));
    }
}

impl Wire for Boolean {
    open spec fn valid(m: Boolean) -> bool {
        true
    }

    open spec fn wire(m: Boolean) -> Seq<u8> {
        seq![if m.0 { 1u8 } else { 0u8 }]
    }

    open spec fn decoded(s: Seq<u8>) -> Option<(Boolean, int)> {
        if s.len() >= 1 {
            Some((Boolean(s[0] != 0), 1))
        } else {
            None
        }
    }

    fn decode(data: &[u8]) -> (r: Option<(Self, usize)>) {
        Self::parse(data)
    }

    fn encode(&self, out: &mut Vec<u8>) {
        self.write(out)
    }

    fn check(&self) -> (b: bool) {
        true
    }

    proof fn lemma_decoded_bounds(s: Seq<u8>) {
    }

    proof fn lemma_decoded_wire(m: Boolean, rest: Seq<u8>) {
        assert((Self::wire(m) + rest)[0] == Self::wire(m)[0]);
    }
}

/// A rotation in steps of 1/256 of a full turn: one byte.
#[derive(Debug, Clone, Copy, PartialEq, Eq, Structural)]
pub struct Angle(pub u8);

impl View for Angle {
    type V = Angle;

    open spec fn view(&self) -> Angle {
        *self
    }
}

impl Angle {
    /// Reads one angle from the front of `data`; `None` when `data` is empty.
    pub fn parse(data: &[u8]) -> (r: Option<(Self, usize)>)
        ensures
            match r {
                Some((v, n)) => Self::decoded(data@) == Some((v, n as int)),
                None => Self::decoded(data@) is None,
            },
    {
        if data.len() < 1 {
            return None;
        }
        Some((Angle(data[0]), 1))
    }

    /// Appends the byte of the angle to `out`.
    pub fn write(&self, out: &mut Vec<u8>)
        ensures
            final(out)@ == old(out)@ + Self::wire(*self),
    {
        out.push(self.0);
        assert(out@ =~= old(out)@ + Self::wire(*self));
    }

    /// The angle in millionths of a degree. A step is 360/256 of a degree, so
    /// the result is exact: it is the steps times 360 000 000, divided by 256.
    pub fn microdegrees(&self) -> (r: u32)
        ensures
            r * 256 == self.0 * 360_000_000,
    {
        self.0 as u32 * 1_406_250
    }
}

impl Wire for Angle {
    open spec fn valid(m: Angle) -> bool {
        true
    }

    open spec fn wire(m: Angle) -> Seq<u8> {
        seq![m.0]
    }

    open spec fn decoded(s: Seq<u8>) -> Option<(Angle, int)> {
        if s.len() >= 1 {
            Some((Angle(s[0]), 1))
        } else {
            None
        }
    }

    fn decode(data: &[u8]) -> (r: Option<(Self, usize)>) {
        Self::parse(data)
    }

    fn encode(&self, out: &mut Vec<u8>) {
        self.write(out)
    }

    fn check(&self) -> (b: bool) {
        true
    }

    proof fn lemma_decoded_bounds(s: Seq<u8>) {
    }

    proof fn lemma_decoded_wire(m: Angle, rest: Seq<u8>) {
        assert((Self::wire(m) + rest)[0] == m.0);
    }
}

/// A 128-bit identifier: sixteen bytes, most significant first.
#[derive(Debug, Clone, Copy, PartialEq, Eq)]
pub struct UUID(pub [u8; 16]);

impl View for UUID {
    type V = Seq<u8>;

    open spec fn view(&self) -> Seq<u8> {
        self.0@
    }
}

impl UUID {
    /// Reads one identifier from the front of `data`; `None` when fewer than 16
    /// bytes are there.
    pub fn parse(data: &[u8]) -> (r: Option<(Self, usize)>)
        ensures
            match r {
                Some((v, n)) => Self::decoded(data@) == Some((v@, n as int)),
                None => Self::decoded(data@) is None,
            },
    {
        if data.len() < 16 {
            return None;
        }
        let mut bytes = [0u8; 16];
        let mut i: usize = 0;
        while i < 16
            invariant
                i <= 16,
                data@.len() >= 16,
                forall|j: int| 0 <= j < i ==> bytes@[j] == data@[j],
            decreases 16 - i,
        {
            bytes[i] = data[i];
            i = i + 1;
        }
        assert(bytes@ =~= data@.take(16));
        Some((UUID(bytes), 16))
    }

    /// Appends the sixteen bytes to `out`.
    pub fn write(&self, out: &mut Vec<u8>)
        ensures
            final(out)@ == old(out)@ + self@,
    {
        let mut i: usize = 0;
        while i < 16
            invariant
                i <= 16,
                out@ == old(out)@ + self.0@.take(i as int),
            decreases 16 - i,
        {
            out.push(self.0[i]);
            assert(out@ =~= old(out)@ + self.0@.take(i + 1));
            i = i + 1;
        }
        assert(self.0@.take(16) =~= self.0@);
    }
}

impl Wire for UUID {
    open spec fn valid(m: Seq<u8>) -> bool {
        m.len() == 16
    }

    open spec fn wire(m: Seq<u8>) -> Seq<u8> {
        m
    }

    open spec fn decoded(s: Seq<u8>) -> Option<(Seq<u8>, int)> {
        if s.len() >= 16 {
            Some((s.take(16), 16))
        } else {
            None
        }
    }

    fn decode(data: &[u8]) -> (r: Option<(Self, usize)>) {
        Self::parse(data)
    }

    fn encode(&self, out: &mut Vec<u8>) {
        self.write(out)
    }

    fn check(&self) -> (b: bool) {
        true
    }

    proof fn lemma_decoded_bounds(s: Seq<u8>) {
    }

    proof fn lemma_decoded_wire(m: Seq<u8>, rest: Seq<u8>) {
        assert((m + rest).take(16) =~= m);
    }
}

/// A block position. On the wire it is one 64-bit number: `x` in the top 26
/// bits, `y` in the next 12 and `z` in the low 26, each in two's complement.
#[derive(Debug, Clone, Copy, PartialEq, Eq, Structural)]
pub struct Position {
    pub x: i32,
    pub y: i32,
    pub z: i32,
}

impl View for Position {
    type V = Position;

    open spec fn view(&self) -> Position {
        *self
    }
}

/// `u`, a field of a packed number, read in two's complement; `full` is two to
/// the power of the field's width.
pub open spec fn sign_extended(u: int, full: int) -> int {
    if 2 * u < full {
        u
    } else {
        u - full
    }
}

impl Position {
    /// The low `full` values of `v` read as an unsigned 32-bit number: the bits
    /// of `v` that fit a field of that size.
    pub open spec fn field(v: i32, full: int) -> int {
        (if v >= 0 {
            v as int
        } else {
            v + 0x1_0000_0000
        }) % full
    }

    /// The 64-bit number that stands for a position. Coordinates that do not
    /// fit their field lose their high bits.
    #[verifier::opaque]
    pub open spec fn packed(m: Position) -> nat {
        (Self::field(m.x, 0x400_0000) * 0x40_0000_0000 + Self::field(m.y, 0x1000) * 0x400_0000
            + Self::field(m.z, 0x400_0000)) as nat
    }

    /// The position that a 64-bit number stands for.
    #[verifier::opaque]
    pub open spec fn unpacked(v: nat) -> Position {
        Position {
            x: sign_extended(v as int / 0x40_0000_0000, 0x400_0000) as i32,
            y: sign_extended(v as int / 0x400_0000 % 0x1000, 0x1000) as i32,
            z: sign_extended(v as int % 0x400_0000, 0x400_0000) as i32,
        }
    }

    /// Reads one position from the front of `data`; `None` when fewer than 8
    /// bytes are there.
    pub fn parse(data: &[u8]) -> (r: Option<(Self, usize)>)
        ensures
            match r {
                Some((v, n)) => Self::decoded(data@) == Some((v, n as int)),
                None => Self::decoded(data@) is None,
            },
    {
        if data.len() < 8 {
            return None;
        }
        proof {
            reveal(Position::unpacked);
            reveal_with_fuel(byte_range, 9);
            lemma_be_value_bound(data@.take(8));
        }
        let v = be_decode(data, 8);
        let xu = v / 0x40_0000_0000;
        let yu = v / 0x400_0000 % 0x1000;
        let zu = v % 0x400_0000;
        let x = if xu < 0x200_0000 {
            xu as i32
        } else {
            (xu as i64 - 0x400_0000) as i32
        };
        let y = if yu < 0x800 {
            yu as i32
        } else {
            (yu as i64 - 0x1000) as i32
        };
        let z = if zu < 0x200_0000 {
            zu as i32
        } else {
            (zu as i64 - 0x400_0000) as i32
        };
        Some((Position { x, y, z }, 8))
    }

    /// Appends the eight bytes of the position to `out`.
    pub fn write(&self, out: &mut Vec<u8>)
        ensures
            final(out)@ == old(out)@ + Self::wire(*self),
    {
        proof {
            reveal(Position::packed);
        }
        let xu = Self::low_bits(self.x) % 0x400_0000;
        let yu = Self::low_bits(self.y) % 0x1000;
        let zu = Self::low_bits(self.z) % 0x400_0000;
        be_encode(xu * 0x40_0000_0000 + yu * 0x400_0000 + zu, 8, out);
    }

    /// The unsigned number with the bits of `v`.
    fn low_bits(v: i32) -> (u: u64)
        ensures
            u == if v >= 0 {
                v as int
            } else {
                v + 0x1_0000_0000
            },
    {
        if v >= 0 {
            v as u64
        } else {
            (v as i64 + 0x1_0000_0000) as u64
        }
    }

    /// Whether each coordinate fits its field.
    pub fn in_range(&self) -> (b: bool)
        ensures
            b == Self::valid(*self),
    {
        -0x200_0000 <= self.x && self.x < 0x200_0000 && -0x800 <= self.y && self.y < 0x800
            && -0x200_0000 <= self.z && self.z < 0x200_0000
    }
}

/// A coordinate that fits a field of `full` values is there as itself where it
/// is not negative, and raised by `full` where it is.
proof fn lemma_field(v: i32, full: int)
    requires
        full == 0x400_0000 || full == 0x1000,
        -full <= 2 * v < full,
    ensures
        Position::field(v, full) == if v >= 0 {
            v as int
        } else {
            v + full
        },
{
    if v >= 0 {
        lemma_fundamental_div_mod_converse(v as int, full, 0, v as int);
    } else if full == 0x400_0000 {
        lemma_fundamental_div_mod_converse(v + 0x1_0000_0000, full, 63, v + full);
    } else {
        lemma_fundamental_div_mod_converse(v + 0x1_0000_0000, full, 0xf_ffff, v + full);
    }
}

/// A position whose coordinates fit their fields is unpacked as it was packed,
/// and the packed number fits 64 bits.
pub proof fn lemma_unpacked_packed(m: Position)
    requires
        Position::valid(m),
    ensures
        Position::unpacked(Position::packed(m)) == m,
        Position::packed(m) < 0x1_0000_0000_0000_0000,
{
    reveal(Position::packed);
    reveal(Position::unpacked);
    lemma_field(m.x, 0x400_0000);
    lemma_field(m.y, 0x1000);
    lemma_field(m.z, 0x400_0000);
    let fx = Position::field(m.x, 0x400_0000);
    let fy = Position::field(m.y, 0x1000);
    let fz = Position::field(m.z, 0x400_0000);
    let v = fx * 0x40_0000_0000 + fy * 0x400_0000 + fz;
    lemma_fundamental_div_mod_converse(v, 0x40_0000_0000, fx, fy * 0x400_0000 + fz);
    lemma_fundamental_div_mod_converse(v, 0x400_0000, fx * 0x1000 + fy, fz);
    lemma_fundamental_div_mod_converse(fx * 0x1000 + fy, 0x1000, fx, fy);
}

impl Wire for Position {
    open spec fn valid(m: Position) -> bool {
        &&& -0x200_0000 <= m.x < 0x200_0000
        &&& -0x800 <= m.y < 0x800
        &&& -0x200_0000 <= m.z < 0x200_0000
    }

    open spec fn wire(m: Position) -> Seq<u8> {
        be_bytes(Position::packed(m), 8)
    }

    open spec fn decoded(s: Seq<u8>) -> Option<(Position, int)> {
        if s.len() >= 8 {
            Some((Position::unpacked(be_value(s.take(8))), 8))
        } else {
            None
        }
    }

    fn decode(data: &[u8]) -> (r: Option<(Self, usize)>) {
        Self::parse(data)
    }

    fn encode(&self, out: &mut Vec<u8>) {
        self.write(out)
    }

    fn check(&self) -> (b: bool) {
        self.in_range()
    }

    proof fn lemma_decoded_bounds(s: Seq<u8>) {
    }

    proof fn lemma_decoded_wire(m: Position, rest: Seq<u8>) {
        reveal_with_fuel(byte_range, 9);
        let u = Position::packed(m);
        lemma_unpacked_packed(m);
        lemma_be_bytes_len(u, 8);
        lemma_be_value_bytes(u, 8);
        assert((Self::wire(m) + rest).take(8) =~= Self::wire(m));
    }
}

} // verus!
