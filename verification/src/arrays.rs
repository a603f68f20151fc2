//! Runs of values: a count, then that many values one after the other.
//!
//! Most runs are counted by a `VarInt`. A count below zero is refused.

use vstd::prelude::*;
use vstd::slice::slice_subrange;
use crate::varint::VarInt;
use crate::wire::Wire;

verus! {

/// The models of the values of `v`, in order.
pub open spec fn models<T: View>(v: Seq<T>) -> Seq<T::V> {
    Seq::new(v.len(), |i: int| v[i]@)
}

/// Whether every value of a run can be written.
pub open spec fn items_valid<T: Wire>(items: Seq<T::V>) -> bool {
    forall|i: int| 0 <= i < items.len() ==> T::valid(#[trigger] items[i])
}

/// The encodings of the values of a run, one after the other.
pub open spec fn items_wire<T: Wire>(items: Seq<T::V>) -> Seq<u8>
    decreases items.len(),
{
    if items.len() == 0 {
        Seq::empty()
    } else {
        items_wire::<T>(items.drop_last()) + T::wire(items.last())
    }
}

/// The first `n` values at the front of `s` and the bytes they occupy together,
/// if `s` begins with `n` well-formed values.
pub open spec fn decoded_items<T: Wire>(s: Seq<u8>, n: nat) -> Option<(Seq<T::V>, int)>
    decreases n,
{
    if n == 0 {
        Some((Seq::empty(), 0))
    } else {
        match decoded_items::<T>(s, (n - 1) as nat) {
            Some((items, used)) => match T::decoded(s.skip(used)) {
                Some((m, k)) => Some((items.push(m), used + k)),
                None => None,
            },
            None => None,
        }
    }
}

/// Where fewer values cannot be read, more cannot either.
pub proof fn lemma_decoded_items_none<T: Wire>(s: Seq<u8>, k: nat, n: nat)
    requires
        k <= n,
        decoded_items::<T>(s, k) is None,
    ensures
        decoded_items::<T>(s, n) is None,
    decreases n,
{
    if k < n {
        lemma_decoded_items_none::<T>(s, k, (n - 1) as nat);
    }
}

/// What is read is as many values as were asked for and lies within the bytes
/// it was read from.
pub proof fn lemma_decoded_items_bounds<T: Wire>(s: Seq<u8>, n: nat)
    ensures
        decoded_items::<T>(s, n) matches Some((items, used)) ==> items.len() == n && 0 <= used
            <= s.len(),
    decreases n,
{
    if n > 0 {
        lemma_decoded_items_bounds::<T>(s, (n - 1) as nat);
        if let Some((items, used)) = decoded_items::<T>(s, (n - 1) as nat) {
            T::lemma_decoded_bounds(s.skip(used));
        }
    }
}

/// Reading back a run that was written gives the run and the length of its
/// encoding, whatever follows.
pub proof fn lemma_decoded_items_wire<T: Wire>(items: Seq<T::V>, rest: Seq<u8>)
    requires
        items_valid::<T>(items),
    ensures
        decoded_items::<T>(items_wire::<T>(items) + rest, items.len()) == Some(
            (items, items_wire::<T>(items).len() as int),
        ),
    decreases items.len(),
{
    let s = items_wire::<T>(items) + rest;
    if items.len() > 0 {
        let init = items.drop_last();
        let last = items.last();
        let tail = T::wire(last) + rest;
        assert(s =~= items_wire::<T>(init) + tail);
        lemma_decoded_items_wire::<T>(init, tail);
        assert(s.skip(items_wire::<T>(init).len() as int) =~= tail);
        T::lemma_decoded_wire(last, rest);
        assert(init.push(last) =~= items);
    }
}

/// Reads `n` values from the front of `data`.
pub fn decode_items<T: Wire>(data: &[u8], n: usize) -> (r: Option<(Vec<T>, usize)>)
    ensures
        match r {
            Some((v, used)) => decoded_items::<T>(data@, n as nat) == Some(
                (models(v@), used as int),
            ),
            None => decoded_items::<T>(data@, n as nat) is None,
        },
{
    let mut items: Vec<T> = Vec::new();
    let mut used: usize = 0;
    let mut i: usize = 0;
    assert(models(items@) =~= Seq::empty());
    while i < n
        invariant
            i <= n,
            used <= data@.len(),
            decoded_items::<T>(data@, i as nat) == Some((models(items@), used as int)),
        decreases n - i,
    {
        let rest = slice_subrange(data, used, data.len());
        match T::decode(rest) {
            Some((v, k)) => {
                proof {
                    T::lemma_decoded_bounds(rest@);
                }
                let ghost before = items@;
                items.push(v);
                assert(models(items@) =~= models(before).push(v@));
                used = used + k;
                i = i + 1;
            },
            None => {
                proof {
                    lemma_decoded_items_none::<T>(data@, (i + 1) as nat, n as nat);
                }
                return None;
            },
        }
    }
    Some((items, used))
}

/// Appends the values of `items` to `out`, one after the other.
pub fn encode_items<T: Wire>(items: &Vec<T>, out: &mut Vec<u8>)
    requires
        items_valid::<T>(models(items@)),
    ensures
        final(out)@ == old(out)@ + items_wire::<T>(models(items@)),
{
    let mut i: usize = 0;
    assert(models(items@.take(0)) =~= Seq::empty());
    while i < items.len()
        invariant
            i <= items@.len(),
            items_valid::<T>(models(items@)),
            out@ == old(out)@ + items_wire::<T>(models(items@.take(i as int))),
        decreases items@.len() - i,
    {
        proof {
            let next = models(items@.take(i + 1));
            assert(next.drop_last() =~= models(items@.take(i as int)));
            assert(next.last() == items@[i as int]@);
            assert(models(items@)[i as int] == items@[i as int]@);
        }
        items[i].encode(out);
        assert(out@ =~= old(out)@ + items_wire::<T>(models(items@.take(i + 1))));
        i = i + 1;
    }
    assert(items@.take(items@.len() as int) =~= items@);
}

/// Whether every value of `items` can be written.
pub fn check_items<T: Wire>(items: &Vec<T>) -> (b: bool)
    ensures
        b == items_valid::<T>(models(items@)),
{
    let mut i: usize = 0;
    while i < items.len()
        invariant
            i <= items@.len(),
            forall|j: int| 0 <= j < i ==> T::valid(#[trigger] models(items@)[j]),
        decreases items@.len() - i,
    {
        if !items[i].check() {
            assert(!T::valid(models(items@)[i as int]));
            return false;
        }
        i = i + 1;
    }
    true
}

/// The values of the run at the front of `s` that follows a count of `count`
/// read in `n` bytes; none where the count is below zero.
pub open spec fn counted_items<T: Wire>(s: Seq<u8>, count: int, n: int) -> Option<
    (Seq<T::V>, int),
> {
    if count < 0 {
        None
    } else {
        match decoded_items::<T>(s.skip(n), count as nat) {
            Some((items, used)) => Some((items, n + used)),
            None => None,
        }
    }
}

/// The values of a run counted by a `VarInt`, read from the front of `s`.
pub open spec fn decoded_run<T: Wire>(s: Seq<u8>) -> Option<(Seq<T::V>, int)> {
    match VarInt::decoded(s) {
        Some((count, n)) => counted_items::<T>(s, count.0 as int, n),
        None => None,
    }
}

/// A run counted by a `VarInt`, written.
pub open spec fn run_wire<T: Wire>(items: Seq<T::V>) -> Seq<u8> {
    VarInt::wire(VarInt(items.len() as i32)) + items_wire::<T>(items)
}

/// Whether a run can be written: the count fits a `VarInt` and every value can
/// be written.
pub open spec fn run_valid<T: Wire>(items: Seq<T::V>) -> bool {
    items.len() <= i32::MAX && items_valid::<T>(items)
}

pub proof fn lemma_decoded_run_bounds<T: Wire>(s: Seq<u8>)
    ensures
        decoded_run::<T>(s) matches Some((items, n)) ==> 0 <= n <= s.len(),
{
    VarInt::lemma_decoded_bounds(s);
    if let Some((count, n)) = VarInt::decoded(s) {
        if count.0 >= 0 {
            lemma_decoded_items_bounds::<T>(s.skip(n), count.0 as nat);
        }
    }
}

pub proof fn lemma_decoded_run_wire<T: Wire>(items: Seq<T::V>, rest: Seq<u8>)
    requires
        run_valid::<T>(items),
    ensures
        decoded_run::<T>(run_wire::<T>(items) + rest) == Some(
            (items, run_wire::<T>(items).len() as int),
        ),
{
    let count = VarInt(items.len() as i32);
    let head = VarInt::wire(count);
    let body = items_wire::<T>(items);
    let s = run_wire::<T>(items) + rest;
    assert(s =~= head + (body + rest));
    VarInt::lemma_decoded_wire(count, body + rest);
    assert(s.skip(head.len() as int) =~= body + rest);
    lemma_decoded_items_wire::<T>(items, rest);
}

/// Reads a run counted by a `VarInt` from the front of `data`.
pub fn decode_run<T: Wire>(data: &[u8]) -> (r: Option<(Vec<T>, usize)>)
    ensures
        match r {
            Some((v, n)) => decoded_run::<T>(data@) == Some((models(v@), n as int)),
            None => decoded_run::<T>(data@) is None,
        },
{
    let (count, n) = match VarInt::parse(data) {
        Some(x) => x,
        None => {
            return None;
        },
    };
    proof {
        VarInt::lemma_decoded_bounds(data@);
    }
    if count.0 < 0 {
        return None;
    }
    let wanted: usize = count.0 as usize;
    let rest = slice_subrange(data, n, data.len());
    match decode_items::<T>(rest, wanted) {
        Some((items, used)) => {
            proof {
                lemma_decoded_items_bounds::<T>(rest@, wanted as nat);
            }
            Some((items, n + used))
        },
        None => None,
    }
}

/// Appends a run counted by a `VarInt` to `out`.
pub fn encode_run<T: Wire>(items: &Vec<T>, out: &mut Vec<u8>)
    requires
        run_valid::<T>(models(items@)),
    ensures
        final(out)@ == old(out)@ + run_wire::<T>(models(items@)),
{
    VarInt(items.len() as i32).write(out);
    encode_items::<T>(items, out);
    assert(out@ =~= old(out)@ + run_wire::<T>(models(items@)));
}

/// Whether a run can be written.
pub fn check_run<T: Wire>(items: &Vec<T>) -> (b: bool)
    ensures
        b == run_valid::<T>(models(items@)),
{
    items.len() <= 0x7fff_ffff && check_items::<T>(items)
}

/// A run of values counted by a `VarInt`.
#[derive(Debug, Clone, PartialEq, Eq)]
pub struct CountedArray<T> {
    pub elements: Vec<T>,
}

impl<T: Wire> View for CountedArray<T> {
    type V = Seq<T::V>;

    open spec fn view(&self) -> Seq<T::V> {
        models(self.elements@)
    }
}

impl<T: Wire> Wire for CountedArray<T> {
    open spec fn valid(m: Seq<T::V>) -> bool {
        run_valid::<T>(m)
    }

    open spec fn wire(m: Seq<T::V>) -> Seq<u8> {
        run_wire::<T>(m)
    }

    open spec fn decoded(s: Seq<u8>) -> Option<(Seq<T::V>, int)> {
        decoded_run::<T>(s)
    }

    fn decode(data: &[u8]) -> (r: Option<(Self, usize)>) {
        match decode_run::<T>(data) {
            Some((elements, n)) => Some((CountedArray { elements }, n)),
            None => None,
        }
    }

    fn encode(&self, out: &mut Vec<u8>) {
        encode_run::<T>(&self.elements, out)
    }

    fn check(&self) -> (b: bool) {
        check_run::<T>(&self.elements)
    }

    proof fn lemma_decoded_bounds(s: Seq<u8>) {
        lemma_decoded_run_bounds::<T>(s);
    }

    proof fn lemma_decoded_wire(m: Seq<T::V>, rest: Seq<u8>) {
        lemma_decoded_run_wire::<T>(m, rest);
    }
}

/// A run of `VarInt`s counted by a `VarInt`.
#[derive(Debug, Clone, PartialEq, Eq)]
pub struct VarIntArray {
    pub elements: Vec<VarInt>,
}

impl View for VarIntArray {
    type V = Seq<VarInt>;

    open spec fn view(&self) -> Seq<VarInt> {
        models(self.elements@)
    }
}

impl VarIntArray {
    /// Reads the count and then that many numbers from the front of `data`.
    /// `None` when the count or one of the numbers is malformed or cut short.
    pub fn parse(data: &[u8]) -> (r: Option<(Self, usize)>)
        ensures
            match r {
                Some((v, n)) => Self::decoded(data@) == Some((v@, n as int)),
                None => Self::decoded(data@) is None,
            },
    {
        match decode_run::<VarInt>(data) {
            Some((elements, n)) => Some((VarIntArray { elements }, n)),
            None => None,
        }
    }

    /// The count and the numbers, as the bytes that stand for them. There must
    /// be no more numbers than a `VarInt` can count.
    pub fn write(&self) -> (buf: Vec<u8>)
        requires
            self.elements@.len() <= i32::MAX,
        ensures
            buf@ == Self::wire(self@),
    {
        let mut buf = Vec::new();
        encode_run::<VarInt>(&self.elements, &mut buf);
        buf
    }
}

impl Wire for VarIntArray {
    open spec fn valid(m: Seq<VarInt>) -> bool {
        run_valid::<VarInt>(m)
    }

    open spec fn wire(m: Seq<VarInt>) -> Seq<u8> {
        run_wire::<VarInt>(m)
    }

    open spec fn decoded(s: Seq<u8>) -> Option<(Seq<VarInt>, int)> {
        decoded_run::<VarInt>(s)
    }

    fn decode(data: &[u8]) -> (r: Option<(Self, usize)>) {
        Self::parse(data)
    }

    fn encode(&self, out: &mut Vec<u8>) {
        encode_run::<VarInt>(&self.elements, out)
    }

    fn check(&self) -> (b: bool) {
        check_run::<VarInt>(&self.elements)
    }

    proof fn lemma_decoded_bounds(s: Seq<u8>) {
        lemma_decoded_run_bounds::<VarInt>(s);
    }

    proof fn lemma_decoded_wire(m: Seq<VarInt>, rest: Seq<u8>) {
        lemma_decoded_run_wire::<VarInt>(m, rest);
    }
}

/// Appends the bytes of `bytes` to `out`.
pub fn append_bytes(bytes: &[u8], out: &mut Vec<u8>)
    ensures
        final(out)@ == old(out)@ + bytes@,
{
    let mut i: usize = 0;
    while i < bytes.len()
        invariant
            i <= bytes@.len(),
            out@ == old(out)@ + bytes@.take(i as int),
        decreases bytes@.len() - i,
    {
        out.push(bytes[i]);
        assert(out@ =~= old(out)@ + bytes@.take(i + 1));
        i = i + 1;
    }
    assert(bytes@.take(bytes@.len() as int) =~= bytes@);
}

/// A copy of the bytes of `data` from `from` up to `to`.
pub fn copy_bytes(data: &[u8], from: usize, to: usize) -> (r: Vec<u8>)
    requires
        from <= to <= data@.len(),
    ensures
        r@ == data@.subrange(from as int, to as int),
{
    let mut out = Vec::new();
    append_bytes(slice_subrange(data, from, to), &mut out);
    assert(out@ =~= data@.subrange(from as int, to as int));
    out
}

/// Bytes counted by a `VarInt`.
#[derive(Debug, Clone, PartialEq, Eq)]
pub struct ByteArray {
    pub bytes: Vec<u8>,
}

impl View for ByteArray {
    type V = Seq<u8>;

    open spec fn view(&self) -> Seq<u8> {
        self.bytes@
    }
}

impl Wire for ByteArray {
    open spec fn valid(m: Seq<u8>) -> bool {
        m.len() <= i32::MAX
    }

    open spec fn wire(m: Seq<u8>) -> Seq<u8> {
        VarInt::wire(VarInt(m.len() as i32)) + m
    }

    open spec fn decoded(s: Seq<u8>) -> Option<(Seq<u8>, int)> {
        match VarInt::decoded(s) {
            Some((count, n)) => if 0 <= count.0 && n + count.0 <= s.len() {
                Some((s.subrange(n, n + count.0), n + count.0))
            } else {
                None
            },
            None => None,
        }
    }

    fn decode(data: &[u8]) -> (r: Option<(Self, usize)>) {
        let (count, n) = match VarInt::parse(data) {
            Some(x) => x,
            None => {
                return None;
            },
        };
        proof {
            VarInt::lemma_decoded_bounds(data@);
        }
        if count.0 < 0 || count.0 as usize > data.len() - n {
            return None;
        }
        let len: usize = count.0 as usize;
        Some((ByteArray { bytes: copy_bytes(data, n, n + len) }, n + len))
    }

    fn encode(&self, out: &mut Vec<u8>) {
        VarInt(self.bytes.len() as i32).write(out);
        append_bytes(self.bytes.as_slice(), out);
        assert(out@ =~= old(out)@ + Self::wire(self@));
    }

    fn check(&self) -> (b: bool) {
        self.bytes.len() <= 0x7fff_ffff
    }

    proof fn lemma_decoded_bounds(s: Seq<u8>) {
        VarInt::lemma_decoded_bounds(s);
    }

    proof fn lemma_decoded_wire(m: Seq<u8>, rest: Seq<u8>) {
        let count = VarInt(m.len() as i32);
        let head = VarInt::wire(count);
        let s = Self::wire(m) + rest;
        assert(s =~= head + (m + rest));
        VarInt::lemma_decoded_wire(count, m + rest);
        assert(s.subrange(head.len() as int, (head.len() + m.len()) as int) =~= m);
    }
}

} // verus!
