//! The cipher layer: AES-128 in CFB8 mode, as a stream in each direction.
//!
//! CFB8 turns the block cipher into a stream cipher with a register of sixteen
//! bytes. For every byte the register is encrypted as one block; the first byte
//! of that block is joined to the byte of the message by exclusive or; and the
//! byte of the ciphertext is shifted into the register from the right. The
//! register begins as the initial vector, which the protocol sets to the key.
//!
//! Because the register is all the state there is, a stream can be kept as the
//! key and the register, and go on after any number of bytes.

use vstd::prelude::*;
use cfb8::cipher::AsyncStreamCipher;
use cfb8::cipher::KeyIvInit;
use crate::arrays::copy_bytes;

verus! {

/// The block that AES-128 encrypts `block` to under `key`.
pub uninterp spec fn aes128_block(key: Seq<u8>, block: Seq<u8>) -> Seq<u8>;

/// The byte that masks the next byte of a message: the first byte of the
/// encrypted register.
pub open spec fn mask(key: Seq<u8>, register: Seq<u8>) -> u8 {
    aes128_block(key, register)[0]
}

/// The register after the byte `c` of ciphertext has been shifted in.
pub open spec fn shifted_in(register: Seq<u8>, c: u8) -> Seq<u8> {
    register.skip(1).push(c)
}

/// The ciphertext of `data` in CFB8 mode, from the register `register` on.
pub open spec fn cfb8_encrypted(key: Seq<u8>, register: Seq<u8>, data: Seq<u8>) -> Seq<u8>
    decreases data.len(),
{
    if data.len() == 0 {
        Seq::empty()
    } else {
        let c = data[0] ^ mask(key, register);
        seq![c] + cfb8_encrypted(key, shifted_in(register, c), data.skip(1))
    }
}

/// The message that `data` is the ciphertext of in CFB8 mode, from the
/// register `register` on.
pub open spec fn cfb8_decrypted(key: Seq<u8>, register: Seq<u8>, data: Seq<u8>) -> Seq<u8>
    decreases data.len(),
{
    if data.len() == 0 {
        Seq::empty()
    } else {
        seq![data[0] ^ mask(key, register)] + cfb8_decrypted(
            key,
            shifted_in(register, data[0]),
            data.skip(1),
        )
    }
}

/// The register after all of `ciphertext` has been shifted in: the last bytes
/// of the old register and the ciphertext together, as many as the register has.
pub open spec fn register_after(register: Seq<u8>, ciphertext: Seq<u8>) -> Seq<u8> {
    (register + ciphertext).skip(ciphertext.len() as int)
}

/// Encrypts `data` in CFB8 mode under `key`, from the register `register` on.
///
/// Trusted: this is `cfb8::Encryptor<aes::Aes128>`, made of the key and the
/// register as initial vector, and its `encrypt`. The contract claims that it
/// computes CFB8 as defined above over the block function of `aes`; the second
/// clause says the same of the first byte alone. Key and register must have
/// sixteen bytes each: the constructor refuses other lengths.
#[verifier::external_body]
fn cfb8_encrypt(key: &[u8], register: &[u8], data: &[u8]) -> (r: Vec<u8>)
    requires
        key@.len() == 16,
        register@.len() == 16,
    ensures
        r@ == cfb8_encrypted(key@, register@, data@),
        data@.len() > 0 ==> r@[0] == data@[0] ^ aes128_block(key@, register@)[0],
{
    let mut buffer = data.to_vec();
    cfb8::Encryptor::<aes::Aes128>::new_from_slices(key, register).unwrap().encrypt(&mut buffer);
    buffer
}

/// Decrypts `data` in CFB8 mode under `key`, from the register `register` on.
///
/// Trusted: this is `cfb8::Decryptor<aes::Aes128>`, made of the key and the
/// register as initial vector, and its `decrypt`. The contract claims that it
/// computes CFB8 decryption as defined above over the block function of `aes`.
/// Key and register must have sixteen bytes each.
#[verifier::external_body]
fn cfb8_decrypt(key: &[u8], register: &[u8], data: &[u8]) -> (r: Vec<u8>)
    requires
        key@.len() == 16,
        register@.len() == 16,
    ensures
        r@ == cfb8_decrypted(key@, register@, data@),
{
    let mut buffer = data.to_vec();
    cfb8::Decryptor::<aes::Aes128>::new_from_slices(key, register).unwrap().decrypt(&mut buffer);
    buffer
}

/// Exclusive or with the same byte twice changes nothing.
proof fn lemma_xor_twice(a: u8, b: u8)
    ensures
        (a ^ b) ^ b == a,
{
    assert((a ^ b) ^ b == a) by (bit_vector);
}

/// Ciphertext and message have the same length.
pub proof fn lemma_encrypted_len(key: Seq<u8>, register: Seq<u8>, data: Seq<u8>)
    ensures
        cfb8_encrypted(key, register, data).len() == data.len(),
        cfb8_decrypted(key, register, data).len() == data.len(),
    decreases data.len(),
{
    if data.len() > 0 {
        let c = data[0] ^ mask(key, register);
        lemma_encrypted_len(key, shifted_in(register, c), data.skip(1));
        lemma_encrypted_len(key, shifted_in(register, data[0]), data.skip(1));
    }
}

/// Decrypting what was encrypted, under the same key and from the same
/// register, gives back the message.
pub proof fn lemma_decrypt_encrypted(key: Seq<u8>, register: Seq<u8>, data: Seq<u8>)
    ensures
        cfb8_decrypted(key, register, cfb8_encrypted(key, register, data)) == data,
    decreases data.len(),
{
    let e = cfb8_encrypted(key, register, data);
    if data.len() > 0 {
        let c = data[0] ^ mask(key, register);
        let tail = cfb8_encrypted(key, shifted_in(register, c), data.skip(1));
        assert(e[0] == c);
        assert(e.skip(1) =~= tail);
        lemma_decrypt_encrypted(key, shifted_in(register, c), data.skip(1));
        lemma_xor_twice(data[0], mask(key, register));
        assert(cfb8_decrypted(key, register, e) =~= data);
    } else {
        assert(cfb8_decrypted(key, register, e) =~= data);
    }
}

/// Shifting in one byte and then others is shifting in all of them.
proof fn lemma_register_step(register: Seq<u8>, c: u8, more: Seq<u8>)
    requires
        register.len() >= 1,
    ensures
        register_after(shifted_in(register, c), more) == register_after(register, seq![c] + more),
{
    assert(register_after(shifted_in(register, c), more) =~= register_after(
        register,
        seq![c] + more,
    ));
}

/// A message encrypted in two parts, the second from the register that the
/// first has left, is the message encrypted as a whole.
pub proof fn lemma_encrypt_in_parts(key: Seq<u8>, register: Seq<u8>, a: Seq<u8>, b: Seq<u8>)
    requires
        register.len() >= 1,
    ensures
        cfb8_encrypted(key, register, a + b) == cfb8_encrypted(key, register, a) + cfb8_encrypted(
            key,
            register_after(register, cfb8_encrypted(key, register, a)),
            b,
        ),
    decreases a.len(),
{
    let ea = cfb8_encrypted(key, register, a);
    if a.len() == 0 {
        assert(a + b =~= b);
        assert(register_after(register, ea) =~= register);
        assert(ea + cfb8_encrypted(key, register, b) =~= cfb8_encrypted(key, register, b));
    } else {
        let c = a[0] ^ mask(key, register);
        let next = shifted_in(register, c);
        let ea_tail = cfb8_encrypted(key, next, a.skip(1));
        assert((a + b)[0] == a[0]);
        assert((a + b).skip(1) =~= a.skip(1) + b);
        lemma_encrypt_in_parts(key, next, a.skip(1), b);
        lemma_register_step(register, c, ea_tail);
        assert(seq![c] + (ea_tail + cfb8_encrypted(key, register_after(next, ea_tail), b)) =~= (
        seq![c] + ea_tail) + cfb8_encrypted(key, register_after(next, ea_tail), b));
    }
}

/// A ciphertext decrypted in two parts, the second from the register that the
/// first has left, is the ciphertext decrypted as a whole.
pub proof fn lemma_decrypt_in_parts(key: Seq<u8>, register: Seq<u8>, a: Seq<u8>, b: Seq<u8>)
    requires
        register.len() >= 1,
    ensures
        cfb8_decrypted(key, register, a + b) == cfb8_decrypted(key, register, a) + cfb8_decrypted(
            key,
            register_after(register, a),
            b,
        ),
    decreases a.len(),
{
    if a.len() == 0 {
        assert(a + b =~= b);
        assert(register_after(register, a) =~= register);
        assert(cfb8_decrypted(key, register, a) + cfb8_decrypted(key, register, b)
            =~= cfb8_decrypted(key, register, b));
    } else {
        let next = shifted_in(register, a[0]);
        let m = a[0] ^ mask(key, register);
        assert((a + b)[0] == a[0]);
        assert((a + b).skip(1) =~= a.skip(1) + b);
        lemma_decrypt_in_parts(key, next, a.skip(1), b);
        lemma_register_step(register, a[0], a.skip(1));
        assert(seq![a[0]] + a.skip(1) =~= a);
        let da_tail = cfb8_decrypted(key, next, a.skip(1));
        let db = cfb8_decrypted(key, register_after(next, a.skip(1)), b);
        assert(seq![m] + (da_tail + db) =~= (seq![m] + da_tail) + db);
    }
}

/// One direction of an encrypted connection: the key, and the register as the
/// bytes so far have left it.
pub struct CipherStream {
    key: Vec<u8>,
    register: Vec<u8>,
}

impl CipherStream {
    #[verifier::type_invariant]
    spec fn well_formed(&self) -> bool {
        self.key@.len() == 16 && self.register@.len() == 16
    }

    /// The key of the stream.
    pub closed spec fn key(&self) -> Seq<u8> {
        self.key@
    }

    /// The register of the stream.
    pub closed spec fn register(&self) -> Seq<u8> {
        self.register@
    }

    /// A stream at its beginning, with the shared secret as key and as initial
    /// vector. `None` exactly when the secret does not have sixteen bytes.
    pub fn new(shared_secret: &[u8]) -> (r: Option<Self>)
        ensures
            match r {
                Some(stream) => shared_secret@.len() == 16 && stream.key() == shared_secret@
                    && stream.register() == shared_secret@,
                None => shared_secret@.len() != 16,
            },
    {
        if shared_secret.len() != 16 {
            return None;
        }
        let key = copy_bytes(shared_secret, 0, 16);
        let register = copy_bytes(shared_secret, 0, 16);
        assert(key@ =~= shared_secret@);
        assert(register@ =~= shared_secret@);
        Some(CipherStream { key, register })
    }

    /// The register that the ciphertext `ciphertext` leaves behind.
    fn advance(&mut self, ciphertext: &[u8])
        ensures
            final(self).key() == old(self).key(),
            final(self).register() == register_after(old(self).register(), ciphertext@),
            final(self).register().len() == 16,
            old(self).register().len() == 16,
    {
        proof {
            use_type_invariant(&*self);
        }
        let mut next: Vec<u8> = Vec::new();
        let n = ciphertext.len();
        let ghost joined = self.register@ + ciphertext@;
        let mut i: usize = 0;
        while i < 16
            invariant
                i <= 16,
                n == ciphertext@.len(),
                self.register@.len() == 16,
                joined == self.register@ + ciphertext@,
                next@ == joined.subrange(n as int, n + i),
            decreases 16 - i,
        {
            let byte = if n >= 16 - i {
                ciphertext[n - (16 - i)]
            } else {
                self.register[n + i]
            };
            next.push(byte);
            assert(next@ =~= joined.subrange(n as int, n + i + 1));
            i = i + 1;
        }
        assert(next@ =~= register_after(self.register@, ciphertext@));
        self.register = next;
    }

    /// Encrypts the next bytes of the stream.
    pub fn encrypt(&mut self, data: &[u8]) -> (r: Vec<u8>)
        ensures
            r@ == cfb8_encrypted(old(self).key(), old(self).register(), data@),
            r@.len() == data@.len(),
            cfb8_decrypted(old(self).key(), old(self).register(), r@) == data@,
            final(self).key() == old(self).key(),
            final(self).register() == register_after(old(self).register(), r@),
            old(self).register().len() == 16,
            final(self).register().len() == 16,
    {
        proof {
            use_type_invariant(&*self);
            lemma_encrypted_len(self.key@, self.register@, data@);
            lemma_decrypt_encrypted(self.key@, self.register@, data@);
        }
        let out = cfb8_encrypt(self.key.as_slice(), self.register.as_slice(), data);
        self.advance(out.as_slice());
        out
    }

    /// Decrypts the next bytes of the stream.
    pub fn decrypt(&mut self, data: &[u8]) -> (r: Vec<u8>)
        ensures
            r@ == cfb8_decrypted(old(self).key(), old(self).register(), data@),
            r@.len() == data@.len(),
            final(self).key() == old(self).key(),
            final(self).register() == register_after(old(self).register(), data@),
            old(self).register().len() == 16,
            final(self).register().len() == 16,
    {
        proof {
            use_type_invariant(&*self);
            lemma_encrypted_len(self.key@, self.register@, data@);
        }
        let out = cfb8_decrypt(self.key.as_slice(), self.register.as_slice(), data);
        self.advance(data);
        out
    }
}

} // verus!
