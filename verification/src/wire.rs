//! What every wire type has in common, and the big-endian integers that most of
//! them are made of.

use vstd::prelude::*;

verus! {

/// A value with a place in the wire format.
///
/// `wire` is the encoding of a model value and `decoded` the reading of one from
/// the front of a byte sequence, together with the number of bytes it takes up.
/// The two executable methods are held to these, and `lemma_decoded_wire` says
/// that reading back what was written gives the value and its length, whatever
/// follows it.
pub trait Wire: View + Sized {
    /// Whether a value can be written: its strings and counts are within the
    /// limits of the format.
    spec fn valid(m: Self::V) -> bool;

    /// The bytes that stand for `m`.
    spec fn wire(m: Self::V) -> Seq<u8>;

    /// The value at the front of `s` and the bytes it occupies, if `s` begins
    /// with a well-formed one.
    spec fn decoded(s: Seq<u8>) -> Option<(Self::V, int)>;

    /// Reads one value from the front of `data`: the value and the number of
    /// bytes it takes up, or `None` where `data` does not begin with a
    /// well-formed one.
    fn decode(data: &[u8]) -> (r: Option<(Self, usize)>)
        ensures
            match r {
                Some((v, n)) => Self::decoded(data@) == Some((v@, n as int)),
                None => Self::decoded(data@) is None,
            },
    ;

    /// Appends the bytes that stand for the value to `out`.
    fn encode(&self, out: &mut Vec<u8>)
        requires
            Self::valid(self@),
        ensures
            final(out)@ == old(out)@ + Self::wire(self@),
    ;

    /// Whether the value can be written.
    fn check(&self) -> (b: bool)
        ensures
            b == Self::valid(self@),
    ;

    /// What is decoded lies within the bytes it was read from.
    proof fn lemma_decoded_bounds(s: Seq<u8>)
        ensures
            Self::decoded(s) matches Some((m, n)) ==> 0 <= n <= s.len(),
    ;

    /// Reading back the encoding of a valid value gives the value and the
    /// length of its encoding, whatever follows.
    proof fn lemma_decoded_wire(m: Self::V, rest: Seq<u8>)
        requires
            Self::valid(m),
        ensures
            Self::decoded(Self::wire(m) + rest) == Some((m, Self::wire(m).len() as int)),
    ;
}

/// The number of bytes that a reading took up; none where nothing was read.
pub open spec fn taken<M>(r: Option<(M, int)>) -> int {
    match r {
        Some((_, n)) => n,
        None => 0,
    }
}

/// The value that a reading gave.
pub open spec fn read<M>(r: Option<(M, int)>) -> M
    recommends
        r is Some,
{
    r.unwrap().0
}

/// A reading of a value that might not have been there, and was.
pub open spec fn present<M>(r: Option<(M, int)>) -> Option<(Option<M>, int)> {
    match r {
        Some((m, n)) => Some((Some(m), n)),
        None => None,
    }
}

/// The bytes of a field that is written only on a condition: the bytes where
/// the condition holds, and none where it does not.
pub open spec fn only_if(condition: bool, bytes: Seq<u8>) -> Seq<u8> {
    if condition {
        bytes
    } else {
        Seq::empty()
    }
}

/// Where the bytes from `at` on are the encoding of `v` and then `after`, `v`
/// is read at `at`, and `after` is what follows it.
pub proof fn lemma_field_read<T: Wire>(s: Seq<u8>, at: int, v: T::V, after: Seq<u8>)
    requires
        T::valid(v),
        0 <= at <= s.len(),
        s.skip(at) == T::wire(v) + after,
    ensures
        T::decoded(s.skip(at)) == Some((v, T::wire(v).len() as int)),
        at + T::wire(v).len() <= s.len(),
        s.skip(at + T::wire(v).len()) == after,
{
    T::lemma_decoded_wire(v, after);
    let w = T::wire(v);
    assert(s.skip(at).len() == w.len() + after.len());
    assert(s.skip(at + w.len()) =~= after) by {
        assert forall|i: int| 0 <= i < after.len() implies s.skip(at + w.len())[i] == after[i] by {
            assert(s.skip(at)[w.len() + i] == (w + after)[w.len() + i]);
        }
    }
}

/// Joining three runs of bytes gives the same whichever two are joined first.
pub proof fn lemma_join(a: Seq<u8>, b: Seq<u8>, c: Seq<u8>)
    ensures
        (a + b) + c == a + (b + c),
{
    assert((a + b) + c =~= a + (b + c));
}

/// The bytes of `data` from `from` on.
pub fn tail(data: &[u8], from: usize) -> (r: &[u8])
    requires
        from <= data@.len(),
    ensures
        r@ == data@.skip(from as int),
        r@.len() == data@.len() - from,
        data@.len() <= usize::MAX,
{
    vstd::slice::slice_subrange(data, from, data.len())
}

/// `v` in `n` bytes, most significant first; what does not fit is dropped.
pub open spec fn be_bytes(v: nat, n: nat) -> Seq<u8>
    decreases n,
{
    if n == 0 {
        Seq::empty()
    } else {
        be_bytes(v / 256, (n - 1) as nat).push((v % 256) as u8)
    }
}

/// The number that the bytes of `s` spell, most significant first.
pub open spec fn be_value(s: Seq<u8>) -> nat
    decreases s.len(),
{
    if s.len() == 0 {
        0
    } else {
        be_value(s.drop_last()) * 256 + s.last() as nat
    }
}

/// Two to the power `8 * n`.
pub open spec fn byte_range(n: nat) -> nat
    decreases n,
{
    if n == 0 {
        1
    } else {
        256 * byte_range((n - 1) as nat)
    }
}

pub proof fn lemma_be_bytes_len(v: nat, n: nat)
    ensures
        be_bytes(v, n).len() == n,
    decreases n,
{
    if n > 0 {
        lemma_be_bytes_len(v / 256, (n - 1) as nat);
    }
}

pub proof fn lemma_be_value_bound(s: Seq<u8>)
    ensures
        be_value(s) < byte_range(s.len()),
    decreases s.len(),
{
    if s.len() > 0 {
        lemma_be_value_bound(s.drop_last());
    }
}

/// Big-endian bytes spell the number they were made from.
pub proof fn lemma_be_value_bytes(v: nat, n: nat)
    requires
        v < byte_range(n),
    ensures
        be_value(be_bytes(v, n)) == v,
    decreases n,
{
    if n > 0 {
        let b = be_bytes(v, n);
        lemma_be_bytes_len(v / 256, (n - 1) as nat);
        assert(b.drop_last() =~= be_bytes(v / 256, (n - 1) as nat));
        lemma_be_value_bytes(v / 256, (n - 1) as nat);
    }
}

/// A number is made again from the bytes that spell it.
pub proof fn lemma_be_bytes_value(s: Seq<u8>)
    ensures
        be_bytes(be_value(s), s.len()) == s,
    decreases s.len(),
{
    if s.len() > 0 {
        lemma_be_bytes_value(s.drop_last());
        let v = be_value(s);
        assert(v / 256 == be_value(s.drop_last()));
        assert(v % 256 == s.last() as nat);
        assert(be_bytes(v, s.len()) =~= s);
    } else {
        assert(be_bytes(be_value(s), 0) =~= s);
    }
}

/// The unsigned reading of a two's-complement number of `n` bytes.
pub open spec fn unsigned_of(v: int, n: nat) -> nat {
    if v >= 0 {
        v as nat
    } else {
        (v + byte_range(n)) as nat
    }
}

/// The two's-complement reading of an unsigned number of `n` bytes.
pub open spec fn signed_of(u: nat, n: nat) -> int {
    if 2 * u < byte_range(n) {
        u as int
    } else {
        u - byte_range(n)
    }
}

/// Reads the first `n` bytes of `data` as one big-endian number.
pub fn be_decode(data: &[u8], n: usize) -> (v: u64)
    requires
        n <= 8,
        n <= data@.len(),
    ensures
        v == be_value(data@.take(n as int)),
{
    let mut acc: u64 = 0;
    let mut i: usize = 0;
    proof {
        reveal_with_fuel(byte_range, 9);
    }
    while i < n
        invariant
            i <= n <= 8,
            n <= data@.len(),
            acc == be_value(data@.take(i as int)),
            acc < byte_range(i as nat),
        decreases n - i,
    {
        proof {
            reveal_with_fuel(byte_range, 9);
            let next = data@.take(i + 1);
            assert(next.drop_last() =~= data@.take(i as int));
            assert(next.last() == data@[i as int]);
        }
        acc = acc * 256 + data[i] as u64;
        i = i + 1;
    }
    acc
}

/// Appends the low `n` bytes of `v` to `out`, most significant first.
pub fn be_encode(v: u64, n: usize, out: &mut Vec<u8>)
    requires
        n <= 8,
    ensures
        final(out)@ == old(out)@ + be_bytes(v as nat, n as nat),
    decreases n,
{
    if n > 0 {
        be_encode(v / 256, n - 1, out);
        out.push((v % 256) as u8);
        assert(out@ =~= old(out)@ + be_bytes(v as nat, n as nat));
    } else {
        assert(out@ =~= old(out)@ + be_bytes(v as nat, 0));
    }
}

} // verus!
