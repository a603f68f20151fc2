//! Strings: a `VarInt` that counts the bytes of the UTF-8 encoding, then those bytes.
//!
//! A string on the wire has at most 32767 characters. A longer one is not
//! written, and is refused when read.

use vstd::prelude::*;
use vstd::string::StrSliceExecFns;
use vstd::string::StringSliceAdditionalSpecFns;
use vstd::slice::slice_subrange;
use vstd::utf8::{decode_utf8, encode_utf8, valid_utf8};
use vstd::utf8::{encode_utf8_decode_utf8, encode_utf8_valid_utf8};
use crate::varint::VarInt;
use crate::wire::Wire;

verus! {

/// The greatest number of characters that a string on the wire may have.
pub const MAX_STRING_CHARS: usize = 32767;

/// Every character takes between one and four bytes.
pub proof fn lemma_encoded_len(chars: Seq<char>)
    ensures
        chars.len() <= encode_utf8(chars).len() <= 4 * chars.len(),
    decreases chars.len(),
{
    if chars.len() > 0 {
        lemma_encoded_len(chars.drop_first());
    }
}

/// The UTF-8 encoding of a text.
#[verifier::opaque]
pub open spec fn text_bytes(chars: Seq<char>) -> Seq<u8> {
    encode_utf8(chars)
}

/// The text that `bytes` encode, where they are well-formed UTF-8 and spell no
/// more characters than a string on the wire may have.
#[verifier::opaque]
pub open spec fn bytes_text(bytes: Seq<u8>) -> Option<Seq<char>> {
    if valid_utf8(bytes) && decode_utf8(bytes).len() <= 32767 {
        Some(decode_utf8(bytes))
    } else {
        None
    }
}

/// A text is read back from its encoding, which has between one and four bytes
/// for every character.
pub proof fn lemma_text_round_trip(chars: Seq<char>)
    requires
        chars.len() <= 32767,
    ensures
        bytes_text(text_bytes(chars)) == Some(chars),
        chars.len() <= text_bytes(chars).len() <= 4 * chars.len(),
{
    reveal(text_bytes);
    reveal(bytes_text);
    lemma_encoded_len(chars);
    encode_utf8_valid_utf8(chars);
    encode_utf8_decode_utf8(chars);
}

/// Reads `data` as UTF-8.
///
/// Trusted: this is `std::str::from_utf8`, which hands back the same bytes as a
/// string slice when they are well-formed UTF-8 and an error otherwise.
#[verifier::external_body]
fn str_from_utf8(data: &[u8]) -> (r: Option<&str>)
    ensures
        r is Some <==> valid_utf8(data@),
        r matches Some(s) ==> s.spec_bytes() == data@,
{
    std::str::from_utf8(data).ok()
}

/// A string of the wire format.
#[derive(Debug, Clone, PartialEq, Eq)]
pub struct VarString(pub String);

impl View for VarString {
    type V = Seq<char>;

    open spec fn view(&self) -> Seq<char> {
        self.0@
    }
}

impl VarString {
    /// Reads one string from the front of `data`.
    ///
    /// `None` when the length is malformed or negative, when fewer bytes follow
    /// than it announces, when they are not UTF-8, or when they spell more than
    /// 32767 characters.
    pub fn parse(data: &[u8]) -> (r: Option<(Self, usize)>)
        ensures
            match r {
                Some((v, n)) => Self::decoded(data@) == Some((v@, n as int)),
                None => Self::decoded(data@) is None,
            },
    {
        let (len, len_size) = match VarInt::parse(data) {
            Some(x) => x,
            None => {
                return None;
            },
        };
        proof {
            VarInt::lemma_decoded_bounds(data@);
        }
        if len.0 < 0 || len.0 as usize > data.len() - len_size {
            return None;
        }
        let end = len_size + len.0 as usize;
        let bytes = slice_subrange(data, len_size, end);
        proof {
            reveal(bytes_text);
        }
        match str_from_utf8(bytes) {
            Some(s) => {
                proof {
                    encode_utf8_decode_utf8(s@);
                }
                if s.unicode_len() > MAX_STRING_CHARS {
                    return None;
                }
                Some((VarString(s.to_owned()), end))
            },
            None => None,
        }
    }

    /// Appends the string to `out`.
    pub fn write(&self, out: &mut Vec<u8>)
        requires
            Self::valid(self@),
        ensures
            final(out)@ == old(out)@ + Self::wire(self@),
    {
        let bytes = self.0.as_str().as_bytes();
        proof {
            reveal(text_bytes);
            lemma_encoded_len(self@);
        }
        VarInt(bytes.len() as i32).write(out);
        let mut i: usize = 0;
        let ghost base = out@;
        while i < bytes.len()
            invariant
                i <= bytes@.len(),
                out@ == base + bytes@.take(i as int),
            decreases bytes@.len() - i,
        {
            out.push(bytes[i]);
            assert(out@ =~= base + bytes@.take(i + 1));
            i = i + 1;
        }
        assert(bytes@.take(bytes@.len() as int) =~= bytes@);
        assert(out@ =~= old(out)@ + Self::wire(self@));
    }

    /// Whether the string is short enough to be written.
    pub fn fits(&self) -> (b: bool)
        ensures
            b == Self::valid(self@),
    {
        self.0.as_str().unicode_len() <= MAX_STRING_CHARS
    }
}

impl Wire for VarString {
    open spec fn valid(m: Seq<char>) -> bool {
        m.len() <= 32767
    }

    open spec fn wire(m: Seq<char>) -> Seq<u8> {
        VarInt::wire(VarInt(text_bytes(m).len() as i32)) + text_bytes(m)
    }

    open spec fn decoded(s: Seq<u8>) -> Option<(Seq<char>, int)> {
        match VarInt::decoded(s) {
            Some((len, n)) => if len.0 >= 0 && n + len.0 <= s.len() {
                match bytes_text(s.subrange(n, n + len.0)) {
                    Some(chars) => Some((chars, n + len.0)),
                    None => None,
                }
            } else {
                None
            },
            None => None,
        }
    }

    fn decode(data: &[u8]) -> (r: Option<(Self, usize)>) {
        Self::parse(data)
    }

    fn encode(&self, out: &mut Vec<u8>) {
        self.write(out)
    }

    fn check(&self) -> (b: bool) {
        self.fits()
    }

    proof fn lemma_decoded_bounds(s: Seq<u8>) {
        VarInt::lemma_decoded_bounds(s);
    }

    proof fn lemma_decoded_wire(m: Seq<char>, rest: Seq<u8>) {
        let bytes = text_bytes(m);
        lemma_text_round_trip(m);
        let len = VarInt(bytes.len() as i32);
        let head = VarInt::wire(len);
        VarInt::lemma_decoded_wire(len, bytes + rest);
        let s = Self::wire(m) + rest;
        assert(s =~= head + (bytes + rest));
        assert(s.subrange(head.len() as int, (head.len() + bytes.len()) as int) =~= bytes);
    }
}

} // verus!
