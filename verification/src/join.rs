//! The join handshake: what the client computes when the server asks for
//! encryption.
//!
//! The client makes a shared secret, derives the server hash from the server's
//! id, the secret and the server's public key, and names that hash to the
//! session server. The hash is the SHA-1 digest read as a signed number and
//! written in hexadecimal: with a minus sign where the number is negative, and
//! without leading zeros.

use vstd::prelude::*;
use vstd::string::StringExecFns;
use vstd::string::StrSliceExecFns;
use rand::RngCore;
use sha1::Digest;
use crate::wire::{be_value, byte_range};

verus! {

/// The SHA-1 digest of `data`.
pub uninterp spec fn sha1_digest(data: Seq<u8>) -> Seq<u8>;

/// The SHA-1 digest of `data`.
///
/// Trusted: this is `sha1::Sha1::digest`. The contract names the digest and
/// claims that it has twenty bytes.
#[verifier::external_body]
pub(crate) fn digest_of(data: &[u8]) -> (r: Vec<u8>)
    ensures
        r@ == sha1_digest(data@),
        r@.len() == 20,
{
    sha1::Sha1::digest(data).to_vec()
}

/// Overwrites every byte of `data` with one from the random number generator
/// of the thread.
///
/// Trusted: this is `rand::rng` and `RngCore::fill_bytes`. Nothing is claimed of
/// the bytes but that there are as many as before. The generator takes its seed
/// from the operating system when a thread first uses it, and panics where the
/// system has none to give.
#[verifier::external_body]
pub(crate) fn fill_random(data: &mut Vec<u8>)
    ensures
        final(data)@.len() == old(data)@.len(),
{
    rand::rng().fill_bytes(data.as_mut_slice());
}

/// The number that `bytes` spell in two's complement, most significant byte
/// first; zero for no bytes.
pub open spec fn signed_value(bytes: Seq<u8>) -> int {
    if bytes.len() > 0 && bytes[0] >= 128 {
        be_value(bytes) - byte_range(bytes.len())
    } else {
        be_value(bytes) as int
    }
}

/// The sixteen digits of the hexadecimal system, in lower case.
pub open spec fn hex_alphabet() -> Seq<char> {
    seq!['0', '1', '2', '3', '4', '5', '6', '7', '8', '9', 'a', 'b', 'c', 'd', 'e', 'f']
}

/// `n` in hexadecimal, without leading zeros; zero is `0`.
pub open spec fn hex_digits(n: nat) -> Seq<char>
    decreases n,
{
    if n < 16 {
        seq![hex_alphabet()[n as int]]
    } else {
        hex_digits(n / 16).push(hex_alphabet()[(n % 16) as int])
    }
}

/// `v` in hexadecimal, with a minus sign before the digits where it is negative.
pub open spec fn signed_hex(v: int) -> Seq<char> {
    if v < 0 {
        seq!['-'] + hex_digits((-v) as nat)
    } else {
        hex_digits(v as nat)
    }
}

/// The number that `bytes` spell in two's complement, written in hexadecimal.
///
/// Trusted: this is `num_bigint::BigInt::from_signed_bytes_be` followed by
/// `to_str_radix(16)`. The contract claims what their documentation says: the
/// bytes are read as a big-endian two's-complement number, and the number is
/// written in lower-case digits without leading zeros, after a minus sign
/// where it is negative.
#[verifier::external_body]
fn signed_hex_of(bytes: &[u8]) -> (r: String)
    ensures
        r@ == signed_hex(signed_value(bytes@)),
{
    num_bigint::BigInt::from_signed_bytes_be(bytes).to_str_radix(16)
}

/// A digest as the session server wants it named: read as a signed number and
/// written in hexadecimal.
pub fn minecraft_hex(digest: &[u8]) -> (r: String)
    ensures
        r@ == signed_hex(signed_value(digest@)),
{
    signed_hex_of(digest)
}

/// What is hashed for a server: the id, the shared secret and the public key,
/// one after the other.
pub open spec fn hash_input(server_id: Seq<u8>, shared_secret: Seq<u8>, public_key: Seq<u8>) -> Seq<
    u8,
> {
    server_id + shared_secret + public_key
}

/// A request to the session server: the player's access token, the player's
/// profile id without dashes, and the server hash.
#[derive(Debug, Clone, PartialEq, Eq)]
pub struct JoinServerRequest {
    pub access_token: String,
    pub selected_profile: String,
    pub server_id: String,
}

/// `chars` without its dashes.
pub open spec fn without_dashes(chars: Seq<char>) -> Seq<char> {
    chars.filter(|c: char| c != '-')
}

/// Appends one character to a string.
///
/// Trusted: this is `String::push`.
#[verifier::external_body]
fn push_char(s: &mut String, c: char)
    ensures
        final(s)@ == old(s)@.push(c),
{
    s.push(c)
}

/// A profile id as the session server wants it: without dashes.
pub fn undashed(id: &str) -> (r: String)
    ensures
        r@ == without_dashes(id@),
{
    let mut out = String::from_str("");
    let n = id.unicode_len();
    let mut i: usize = 0;
    proof {
        reveal_strlit("");
        assert(out@ =~= Seq::<char>::empty());
        assert(id@.take(0) =~= Seq::<char>::empty());
        reveal(Seq::filter);
    }
    while i < n
        invariant
            i <= n,
            n == id@.len(),
            out@ == without_dashes(id@.take(i as int)),
        decreases n - i,
    {
        let c = id.get_char(i);
        proof {
            reveal(Seq::filter);
            assert(id@.take(i + 1).drop_last() =~= id@.take(i as int));
            assert(id@.take(i + 1).last() == c);
        }
        if c != '-' {
            push_char(&mut out, c);
        }
        i = i + 1;
    }
    assert(id@.take(n as int) =~= id@);
    out
}

impl JoinServerRequest {
    /// The request that names `server_hash` for the player with the given
    /// access token and profile id. The dashes of the profile id are left out.
    pub fn new(access_token: &str, profile_id: &str, server_hash: &str) -> (r: Self)
        ensures
            r.access_token@ == access_token@,
            r.selected_profile@ == without_dashes(profile_id@),
            r.server_id@ == server_hash@,
    {
        JoinServerRequest {
            access_token: String::from_str(access_token),
            selected_profile: undashed(profile_id),
            server_id: String::from_str(server_hash),
        }
    }
}

} // verus!
