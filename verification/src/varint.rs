//! The variable-width integers of the wire format.
//!
//! A number travels as groups of seven bits, least significant group first. Every
//! byte but the last has its top bit set. A signed number is written as the
//! unsigned number with the same bits, so a negative `VarInt` always takes five
//! bytes and a negative `VarLong` ten.
//!
//! Reading is lenient, as the game's own reader is: padded encodings are
//! accepted, and bits beyond the width of the number are dropped. Only a number
//! that does not end within five (ten) bytes is refused.

use vstd::prelude::*;
use crate::wire::{byte_range, signed_of, unsigned_of, Wire};

verus! {

/// 128 to the power `k`.
pub open spec fn pow128(k: nat) -> nat
    decreases k,
{
    if k == 0 {
        1
    } else {
        128 * pow128((k - 1) as nat)
    }
}

/// The groups of `v`, least significant first: as many as `v` needs, at least
/// one. Every byte but the last carries the continuation flag.
pub open spec fn varint_groups(v: nat) -> Seq<u8>
    decreases v,
{
    if v < 128 {
        seq![v as u8]
    } else {
        seq![(v % 128 + 128) as u8] + varint_groups(v / 128)
    }
}

/// The number that the first `n` bytes of `s` spell as groups of seven bits,
/// continuation flags left aside.
pub open spec fn groups_value(s: Seq<u8>, n: nat) -> nat
    decreases n,
{
    if n == 0 {
        0
    } else {
        groups_value(s, (n - 1) as nat) + (s[n - 1] % 128) as nat * pow128((n - 1) as nat)
    }
}

/// The length of the variable-width number at the front of `s`: the place of the
/// first byte without a continuation flag, counted from one. `None` when the
/// first `max` bytes hold no such byte, or `s` ends before one.
pub open spec fn varint_span(s: Seq<u8>, max: nat) -> Option<int>
    decreases max,
{
    if max == 0 || s.len() == 0 {
        None
    } else if s[0] < 128 {
        Some(1)
    } else {
        match varint_span(s.skip(1), (max - 1) as nat) {
            Some(n) => Some(n + 1),
            None => None,
        }
    }
}

/// Past `i` bytes that all carry the flag, the search goes on in what is left.
pub proof fn lemma_span_skip(s: Seq<u8>, max: nat, i: nat)
    requires
        i <= max,
        i <= s.len(),
        forall|j: int| 0 <= j < i ==> s[j] >= 128,
    ensures
        varint_span(s, max) == match varint_span(s.skip(i as int), (max - i) as nat) {
            Some(n) => Some(n + i),
            None => None,
        },
    decreases i,
{
    if i == 0 {
        assert(s.skip(0) =~= s);
    } else {
        let t = s.skip(1);
        assert forall|j: int| 0 <= j < i - 1 implies t[j] >= 128 by {
            assert(t[j] == s[j + 1]);
        }
        lemma_span_skip(t, (max - 1) as nat, (i - 1) as nat);
        assert(t.skip(i - 1) =~= s.skip(i as int));
    }
}

/// The value of the groups depends on the bytes read and on no others.
pub proof fn lemma_groups_value_prefix(s: Seq<u8>, t: Seq<u8>, n: nat)
    requires
        n <= s.len(),
        n <= t.len(),
        forall|j: int| 0 <= j < n ==> s[j] == t[j],
    ensures
        groups_value(s, n) == groups_value(t, n),
    decreases n,
{
    if n > 0 {
        lemma_groups_value_prefix(s, t, (n - 1) as nat);
    }
}

/// The first group counts once, the others 128 times what they count alone.
pub proof fn lemma_groups_value_front(s: Seq<u8>, n: nat)
    requires
        1 <= n <= s.len(),
    ensures
        groups_value(s, n) == (s[0] % 128) as nat + 128 * groups_value(s.skip(1), (n - 1) as nat),
    decreases n,
{
    if n == 1 {
        assert(groups_value(s, 0) == 0);
        assert(pow128(0) == 1);
        assert(groups_value(s.skip(1), 0) == 0);
    } else {
        lemma_groups_value_front(s, (n - 1) as nat);
        let t = s.skip(1);
        assert(t[n - 2] == s[n - 1]);
        assert(pow128((n - 1) as nat) == 128 * pow128((n - 2) as nat));
        let a = (s[n - 1] % 128) as nat;
        let p = pow128((n - 2) as nat);
        assert(a * (128 * p) == 128 * (a * p)) by (nonlinear_arith);
        assert(groups_value(t, (n - 1) as nat) == groups_value(t, (n - 2) as nat) + a * p);
    }
}

pub proof fn lemma_groups_value_bound(s: Seq<u8>, n: nat)
    requires
        n <= s.len(),
    ensures
        groups_value(s, n) < pow128(n),
    decreases n,
{
    if n > 0 {
        lemma_groups_value_bound(s, (n - 1) as nat);
        let a = (s[n - 1] % 128) as nat;
        let p = pow128((n - 1) as nat);
        assert(a * p <= 127 * p) by (nonlinear_arith)
            requires
                a <= 127,
        ;
    }
}

/// A number below `128^k` takes at most `k` groups; one of at least `128^k`
/// takes more than `k`.
pub proof fn lemma_groups_len(v: nat, k: nat)
    ensures
        varint_groups(v).len() >= 1,
        k >= 1 && v < pow128(k) ==> varint_groups(v).len() <= k,
        v >= pow128(k) ==> varint_groups(v).len() > k,
    decreases v,
{
    if v >= 128 {
        if k >= 1 {
            lemma_groups_len(v / 128, (k - 1) as nat);
            assert(pow128(k) == 128 * pow128((k - 1) as nat));
            if k == 1 {
                assert(pow128(0) == 1);
            }
        } else {
            lemma_groups_len(v / 128, 0);
        }
    } else {
        assert(pow128(0) == 1);
        if k >= 1 {
            assert(pow128(k) == 128 * pow128((k - 1) as nat));
            lemma_pow128_positive((k - 1) as nat);
        }
    }
}

pub proof fn lemma_pow128_monotonic(i: nat, k: nat)
    requires
        i <= k,
    ensures
        pow128(i) <= pow128(k),
    decreases k,
{
    if i < k {
        lemma_pow128_monotonic(i, (k - 1) as nat);
    }
}

pub proof fn lemma_pow128_positive(k: nat)
    ensures
        pow128(k) >= 1,
    decreases k,
{
    if k > 0 {
        lemma_pow128_positive((k - 1) as nat);
    }
}

/// Read back, the groups of `v` end where they were written to end and spell `v`.
pub proof fn lemma_groups_read_back(v: nat, rest: Seq<u8>, max: nat)
    requires
        varint_groups(v).len() <= max,
    ensures
        varint_span(varint_groups(v) + rest, max) == Some(varint_groups(v).len() as int),
        groups_value(varint_groups(v) + rest, varint_groups(v).len()) == v,
    decreases v,
{
    let g = varint_groups(v);
    let s = g + rest;
    if v < 128 {
        assert(s[0] == v as u8);
        assert(groups_value(s, 0) == 0);
        assert(pow128(0) == 1);
        assert(groups_value(s, 1) == groups_value(s, 0) + (s[0] % 128) as nat * pow128(0));
    } else {
        let tail = varint_groups(v / 128);
        lemma_groups_len(v / 128, 0);
        lemma_groups_read_back(v / 128, rest, (max - 1) as nat);
        assert(s.skip(1) =~= tail + rest);
        assert(s[0] == (v % 128 + 128) as u8);
        assert(g.len() == tail.len() + 1);
        lemma_groups_value_front(s, g.len());
        assert(groups_value(s.skip(1), tail.len()) == v / 128);
        assert((s[0] % 128) as nat == v % 128);
    }
}

/// The groups that stand for the signed number `v` of `n` bytes: those of the
/// unsigned number with the same bits.
#[verifier::opaque]
pub open spec fn signed_groups(v: int, n: nat) -> Seq<u8> {
    varint_groups(unsigned_of(v, n))
}

/// The signed number of `n` bytes at the front of `s`, written in `max` groups
/// at most, and the groups it takes up. Bits beyond the width of the number
/// are dropped.
#[verifier::opaque]
pub open spec fn groups_signed(s: Seq<u8>, max: nat, n: nat) -> Option<(int, int)> {
    match varint_span(s, max) {
        Some(k) => Some((signed_of(groups_value(s, k as nat) % byte_range(n), n), k)),
        None => None,
    }
}

/// Reads the groups at the front of `data`, `max` of them at most.
fn read_groups(data: &[u8], max: usize) -> (r: Option<(u128, usize)>)
    requires
        max <= 10,
    ensures
        match r {
            Some((v, n)) => varint_span(data@, max as nat) == Some(n as int) && v == groups_value(
                data@,
                n as nat,
            ) && 1 <= n <= max && n <= data@.len(),
            None => varint_span(data@, max as nat) is None,
        },
{
    let mut acc: u128 = 0;
    let mut mult: u128 = 1;
    let mut i: usize = 0;
    proof {
        reveal_with_fuel(pow128, 12);
    }
    while i < max && i < data.len()
        invariant
            i <= max <= 10,
            i <= data@.len(),
            forall|j: int| 0 <= j < i ==> data@[j] >= 128,
            acc == groups_value(data@, i as nat),
            mult == pow128(i as nat),
        decreases max - i,
    {
        let b = data[i];
        proof {
            reveal_with_fuel(pow128, 12);
            lemma_groups_value_bound(data@, i as nat);
            lemma_pow128_monotonic(i as nat, 9);
            let a = (b % 128) as nat;
            let m = mult as nat;
            assert(a * m <= 127 * m) by (nonlinear_arith)
                requires
                    a <= 127,
            ;
        }
        acc = acc + (b % 128) as u128 * mult;
        mult = mult * 128;
        i = i + 1;
        if b < 128 {
            proof {
                lemma_span_skip(data@, max as nat, (i - 1) as nat);
                assert(data@.skip(i - 1)[0] == b);
            }
            return Some((acc, i));
        }
    }
    proof {
        lemma_span_skip(data@, max as nat, i as nat);
    }
    None
}

/// Appends the groups of `v` to `out`.
fn write_groups(v: u64, out: &mut Vec<u8>)
    ensures
        final(out)@ == old(out)@ + varint_groups(v as nat),
{
    let mut value = v;
    while value >= 128
        invariant
            out@ + varint_groups(value as nat) == old(out)@ + varint_groups(v as nat),
        decreases value,
    {
        let ghost before = out@;
        out.push((value % 128 + 128) as u8);
        proof {
            assert(out@ + varint_groups((value / 128) as nat) =~= before + varint_groups(
                value as nat,
            ));
        }
        value = value / 128;
    }
    let ghost before = out@;
    out.push(value as u8);
    assert(out@ =~= before + varint_groups(value as nat));
}

/// A signed 32-bit integer of variable width: one to five bytes.
#[derive(Debug, Clone, Copy, PartialEq, Eq, Structural)]
pub struct VarInt(pub i32);

impl View for VarInt {
    type V = VarInt;

    open spec fn view(&self) -> VarInt {
        *self
    }
}

impl VarInt {
    /// Reads one number from the front of `data`. `None` when `data` ends
    /// before the number does, or the fifth byte still asks for another.
    pub fn parse(data: &[u8]) -> (r: Option<(Self, usize)>)
        ensures
            match r {
                Some((v, n)) => Self::decoded(data@) == Some((v, n as int)),
                None => Self::decoded(data@) is None,
            },
    {
        proof {
            reveal(groups_signed);
        }
        match read_groups(data, 5) {
            Some((v, n)) => {
                let u = v % 0x1_0000_0000;
                proof {
                    reveal_with_fuel(byte_range, 9);
                }
                let value = if u < 0x8000_0000 {
                    u as i32
                } else {
                    (u as i64 - 0x1_0000_0000) as i32
                };
                Some((VarInt(value), n))
            },
            None => None,
        }
    }

    /// Appends the number to `out`.
    pub fn write(&self, out: &mut Vec<u8>)
        ensures
            final(out)@ == old(out)@ + Self::wire(*self),
    {
        proof {
            reveal_with_fuel(byte_range, 9);
            reveal(signed_groups);
        }
        let u = if self.0 >= 0 {
            self.0 as u64
        } else {
            (self.0 as i64 + 0x1_0000_0000) as u64
        };
        write_groups(u, out);
    }

    /// The number of bytes that `write` appends: between one and five.
    pub fn size(&self) -> (n: usize)
        ensures
            n == Self::wire(*self).len(),
            1 <= n <= 5,
            self.0 < 0 ==> n == 5,
    {
        proof {
            reveal(signed_groups);
            reveal_with_fuel(byte_range, 9);
            reveal_with_fuel(pow128, 6);
            reveal_with_fuel(varint_groups, 6);
            let u = unsigned_of(self.0 as int, 4);
            lemma_groups_len(u, 5);
            lemma_groups_len(u, 4);
            lemma_groups_len(u, 3);
            lemma_groups_len(u, 2);
            lemma_groups_len(u, 1);
        }
        if self.0 < 0 {
            5
        } else if self.0 < 128 {
            1
        } else if self.0 < 16384 {
            2
        } else if self.0 < 2097152 {
            3
        } else if self.0 < 268435456 {
            4
        } else {
            5
        }
    }
}

impl Wire for VarInt {
    open spec fn valid(m: VarInt) -> bool {
        true
    }

    open spec fn wire(m: VarInt) -> Seq<u8> {
        signed_groups(m.0 as int, 4)
    }

    open spec fn decoded(s: Seq<u8>) -> Option<(VarInt, int)> {
        match groups_signed(s, 5, 4) {
            Some((v, n)) => Some((VarInt(v as i32), n)),
            None => None,
        }
    }

    fn decode(data: &[u8]) -> (r: Option<(Self, usize)>) {
        Self::parse(data)
    }

    fn encode(&self, out: &mut Vec<u8>) {
        self.write(out)
    }

    fn check(&self) -> (b: bool) {
        true
    }

    proof fn lemma_decoded_bounds(s: Seq<u8>) {
        reveal(groups_signed);
        lemma_span_bounds(s, 5);
    }

    proof fn lemma_decoded_wire(m: VarInt, rest: Seq<u8>) {
        reveal(signed_groups);
        reveal(groups_signed);
        reveal_with_fuel(byte_range, 9);
        assert(byte_range(4) == 0x1_0000_0000);
        reveal_with_fuel(pow128, 6);
        let u = unsigned_of(m.0 as int, 4);
        lemma_groups_len(u, 5);
        lemma_groups_read_back(u, rest, 5);
    }
}

/// A `VarInt` takes between one and five bytes, and five where it is negative.
pub proof fn lemma_var_int_len(m: VarInt)
    ensures
        1 <= VarInt::wire(m).len() <= 5,
        m.0 < 0 ==> VarInt::wire(m).len() == 5,
{
    reveal(signed_groups);
    reveal_with_fuel(byte_range, 9);
    reveal_with_fuel(pow128, 6);
    let u = unsigned_of(m.0 as int, 4);
    lemma_groups_len(u, 5);
    lemma_groups_len(u, 4);
}

/// A `VarLong` takes between one and ten bytes, and ten where it is negative.
pub proof fn lemma_var_long_len(m: VarLong)
    ensures
        1 <= VarLong::wire(m).len() <= 10,
        m.0 < 0 ==> VarLong::wire(m).len() == 10,
{
    reveal(signed_groups);
    reveal_with_fuel(byte_range, 9);
    reveal_with_fuel(pow128, 11);
    let u = unsigned_of(m.0 as int, 8);
    lemma_groups_len(u, 10);
    lemma_groups_len(u, 9);
}

/// A number that is found ends within the bytes and within the limit.
pub proof fn lemma_span_bounds(s: Seq<u8>, max: nat)
    ensures
        varint_span(s, max) matches Some(n) ==> 1 <= n <= max && n <= s.len(),
    decreases max,
{
    if max > 0 && s.len() > 0 && s[0] >= 128 {
        lemma_span_bounds(s.skip(1), (max - 1) as nat);
    }
}

/// A signed 64-bit integer of variable width: one to ten bytes.
#[derive(Debug, Clone, Copy, PartialEq, Eq, Structural)]
pub struct VarLong(pub i64);

impl View for VarLong {
    type V = VarLong;

    open spec fn view(&self) -> VarLong {
        *self
    }
}

impl VarLong {
    /// Reads one number from the front of `data`. `None` when `data` ends
    /// before the number does, or the tenth byte still asks for another.
    pub fn parse(data: &[u8]) -> (r: Option<(Self, usize)>)
        ensures
            match r {
                Some((v, n)) => Self::decoded(data@) == Some((v, n as int)),
                None => Self::decoded(data@) is None,
            },
    {
        proof {
            reveal(groups_signed);
        }
        match read_groups(data, 10) {
            Some((v, n)) => {
                let u = v % 0x1_0000_0000_0000_0000;
                proof {
                    reveal_with_fuel(byte_range, 9);
                }
                let value = if u < 0x8000_0000_0000_0000 {
                    u as i64
                } else {
                    (u as i128 - 0x1_0000_0000_0000_0000) as i64
                };
                Some((VarLong(value), n))
            },
            None => None,
        }
    }

    /// Appends the number to `out`.
    pub fn write(&self, out: &mut Vec<u8>)
        ensures
            final(out)@ == old(out)@ + Self::wire(*self),
    {
        proof {
            reveal_with_fuel(byte_range, 9);
            reveal(signed_groups);
        }
        let u = if self.0 >= 0 {
            self.0 as u64
        } else {
            (self.0 as i128 + 0x1_0000_0000_0000_0000) as u64
        };
        write_groups(u, out);
    }
}

impl Wire for VarLong {
    open spec fn valid(m: VarLong) -> bool {
        true
    }

    open spec fn wire(m: VarLong) -> Seq<u8> {
        signed_groups(m.0 as int, 8)
    }

    open spec fn decoded(s: Seq<u8>) -> Option<(VarLong, int)> {
        match groups_signed(s, 10, 8) {
            Some((v, n)) => Some((VarLong(v as i64), n)),
            None => None,
        }
    }

    fn decode(data: &[u8]) -> (r: Option<(Self, usize)>) {
        Self::parse(data)
    }

    fn encode(&self, out: &mut Vec<u8>) {
        self.write(out)
    }

    fn check(&self) -> (b: bool) {
        true
    }

    proof fn lemma_decoded_bounds(s: Seq<u8>) {
        reveal(groups_signed);
        lemma_span_bounds(s, 10);
    }

    proof fn lemma_decoded_wire(m: VarLong, rest: Seq<u8>) {
        reveal(signed_groups);
        reveal(groups_signed);
        reveal_with_fuel(byte_range, 9);
        assert(byte_range(8) == 0x1_0000_0000_0000_0000);
        reveal_with_fuel(pow128, 11);
        let u = unsigned_of(m.0 as int, 8);
        lemma_groups_len(u, 10);
        lemma_groups_read_back(u, rest, 10);
    }
}

/// Appends `value` to `buffer` as a variable-width integer.
pub fn write_var_int(buffer: &mut Vec<u8>, value: i32)
    ensures
        final(buffer)@ == old(buffer)@ + VarInt::wire(VarInt(value)),
{
    VarInt(value).write(buffer);
}

/// Takes the variable-width integer at the front of `buffer` away and returns it.
///
/// The buffer must begin with one: a caller that cannot know uses
/// `VarInt::parse`, which says so instead.
pub fn read_var_int(buffer: &mut Vec<u8>) -> (value: i32)
    requires
        VarInt::decoded(old(buffer)@) is Some,
    ensures
        VarInt::decoded(old(buffer)@) == Some(
            (VarInt(value), old(buffer)@.len() - final(buffer)@.len()),
        ),
        final(buffer)@ == old(buffer)@.skip(old(buffer)@.len() - final(buffer)@.len()),
{
    let parsed = VarInt::parse(buffer.as_slice());
    proof {
        VarInt::lemma_decoded_bounds(buffer@);
    }
    match parsed {
        Some((v, n)) => {
            let rest = buffer.split_off(n);
            *buffer = rest;
            v.0
        },
        None => 0,
    }
}

/// Appends `value` to `buffer`, high byte first.
pub fn write_unsigned_short(buffer: &mut Vec<u8>, value: u16)
    ensures
        final(buffer)@ == old(buffer)@ + seq![(value / 256) as u8, (value % 256) as u8],
{
    let ghost before = buffer@;
    buffer.push((value / 256) as u8);
    buffer.push((value % 256) as u8);
    assert(buffer@ =~= before + seq![(value / 256) as u8, (value % 256) as u8]);
}

/// The 16-bit number that the first two bytes of `buffer` spell, high byte first.
pub fn read_unsigned_short(buffer: &[u8]) -> (value: u16)
    requires
        buffer@.len() >= 2,
    ensures
        value == buffer@[0] * 256 + buffer@[1],
{
    buffer[0] as u16 * 256 + buffer[1] as u16
}

} // verus!
