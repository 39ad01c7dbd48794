//! AES-128 in CFB8 mode: a stream cipher that works on one byte at a time.
//!
//! The cipher keeps a feedback register of sixteen bytes, which starts out as
//! the initialisation vector. For every byte it encrypts the register with
//! AES-128, combines the first byte of the result with the input byte, and
//! shifts the ciphertext byte into the register from the right.

use aes::Aes128;
use cfb8::cipher::generic_array::GenericArray;
use cfb8::cipher::{AsyncStreamCipher, NewCipher};
use cfb8::Cfb8;
use vstd::prelude::*;

verus! {

/// The block that AES-128 makes of `block` under `key`.
pub uninterp spec fn spec_aes128_encrypt_block(key: Seq<u8>, block: Seq<u8>) -> Seq<u8>;

/// The key that a cipher state was made with.
pub uninterp spec fn cipher_key(cipher: &AesCfb8) -> Seq<u8>;

/// The feedback register of a cipher state.
pub uninterp spec fn cipher_register(cipher: &AesCfb8) -> Seq<u8>;

/// The byte that is combined with the next input byte.
pub open spec fn spec_keystream(key: Seq<u8>, register: Seq<u8>) -> u8 {
    spec_aes128_encrypt_block(key, register)[0]
}

/// The register after the ciphertext byte `c` has gone through.
pub open spec fn spec_shift(register: Seq<u8>, c: u8) -> Seq<u8> {
    register.drop_first().push(c)
}

/// The register after all of `ciphertext` has gone through.
pub open spec fn spec_cfb8_register(register: Seq<u8>, ciphertext: Seq<u8>) -> Seq<u8>
    decreases ciphertext.len(),
{
    if ciphertext.len() == 0 {
        register
    } else {
        spec_cfb8_register(spec_shift(register, ciphertext[0]), ciphertext.drop_first())
    }
}

/// The ciphertext of `data` for a cipher with the given key and register.
pub open spec fn spec_cfb8_encrypt(key: Seq<u8>, register: Seq<u8>, data: Seq<u8>) -> Seq<u8>
    decreases data.len(),
{
    if data.len() == 0 {
        Seq::empty()
    } else {
        let c = data[0] ^ spec_keystream(key, register);
        seq![c] + spec_cfb8_encrypt(key, spec_shift(register, c), data.drop_first())
    }
}

/// The plaintext of `data` for a cipher with the given key and register.
pub open spec fn spec_cfb8_decrypt(key: Seq<u8>, register: Seq<u8>, data: Seq<u8>) -> Seq<u8>
    decreases data.len(),
{
    if data.len() == 0 {
        Seq::empty()
    } else {
        let p = data[0] ^ spec_keystream(key, register);
        seq![p] + spec_cfb8_decrypt(key, spec_shift(register, data[0]), data.drop_first())
    }
}

/// Combining a byte with the same keystream byte twice gives it back.
pub proof fn lemma_xor_twice(a: u8, k: u8)
    ensures
        (a ^ k) ^ k == a,
{
    assert((a ^ k) ^ k == a) by (bit_vector);
}

/// Ciphertext is as long as its plaintext.
pub proof fn lemma_encrypt_len(key: Seq<u8>, register: Seq<u8>, data: Seq<u8>)
    ensures
        spec_cfb8_encrypt(key, register, data).len() == data.len(),
    decreases data.len(),
{
    if data.len() != 0 {
        let c = data[0] ^ spec_keystream(key, register);
        lemma_encrypt_len(key, spec_shift(register, c), data.drop_first());
    }
}

/// Plaintext is as long as its ciphertext.
pub proof fn lemma_decrypt_len(key: Seq<u8>, register: Seq<u8>, data: Seq<u8>)
    ensures
        spec_cfb8_decrypt(key, register, data).len() == data.len(),
    decreases data.len(),
{
    if data.len() != 0 {
        lemma_decrypt_len(key, spec_shift(register, data[0]), data.drop_first());
    }
}

/// Feeding a register two pieces one after the other is feeding it both at
/// once.
pub proof fn lemma_register_concat(register: Seq<u8>, a: Seq<u8>, b: Seq<u8>)
    ensures
        spec_cfb8_register(register, a + b) == spec_cfb8_register(
            spec_cfb8_register(register, a),
            b,
        ),
    decreases a.len(),
{
    if a.len() == 0 {
        assert(a + b =~= b);
    } else {
        assert((a + b)[0] == a[0]);
        assert((a + b).drop_first() =~= a.drop_first() + b);
        lemma_register_concat(spec_shift(register, a[0]), a.drop_first(), b);
    }
}

/// Decrypting with the register that encrypted gives the plaintext back.
pub proof fn lemma_decrypt_encrypt(key: Seq<u8>, register: Seq<u8>, data: Seq<u8>)
    ensures
        spec_cfb8_decrypt(key, register, spec_cfb8_encrypt(key, register, data)) == data,
    decreases data.len(),
{
    let enc = spec_cfb8_encrypt(key, register, data);
    if data.len() == 0 {
        assert(spec_cfb8_decrypt(key, register, enc) =~= data);
    } else {
        let k = spec_keystream(key, register);
        let c = data[0] ^ k;
        let next = spec_shift(register, c);
        let tail = spec_cfb8_encrypt(key, next, data.drop_first());
        assert(enc[0] == c);
        assert(enc.drop_first() =~= tail);
        lemma_xor_twice(data[0], k);
        lemma_decrypt_encrypt(key, next, data.drop_first());
        assert(spec_cfb8_decrypt(key, register, enc) =~= data);
    }
}

/// Decrypting two pieces one after the other, the second with the register
/// that the first left behind, is decrypting both at once.
pub proof fn lemma_decrypt_concat(key: Seq<u8>, register: Seq<u8>, a: Seq<u8>, b: Seq<u8>)
    ensures
        spec_cfb8_decrypt(key, register, a + b) == spec_cfb8_decrypt(key, register, a)
            + spec_cfb8_decrypt(key, spec_cfb8_register(register, a), b),
    decreases a.len(),
{
    if a.len() == 0 {
        assert(a + b =~= b);
        assert(Seq::<u8>::empty() + spec_cfb8_decrypt(key, register, b) =~= spec_cfb8_decrypt(
            key,
            register,
            b,
        ));
    } else {
        let p = a[0] ^ spec_keystream(key, register);
        let next = spec_shift(register, a[0]);
        let tail_a = spec_cfb8_decrypt(key, next, a.drop_first());
        assert((a + b)[0] == a[0]);
        assert((a + b).drop_first() =~= a.drop_first() + b);
        lemma_decrypt_concat(key, next, a.drop_first(), b);
        let rest = spec_cfb8_decrypt(key, spec_cfb8_register(next, a.drop_first()), b);
        assert(seq![p] + (tail_a + rest) =~= (seq![p] + tail_a) + rest);
    }
}

/// The state of one AES-128/CFB8 stream as the `cfb8` crate keeps it: the
/// AES key schedule and the feedback register. Nothing in it is visible to
/// the verifier; `cipher_key` and `cipher_register` name what it holds.
#[verifier::external_body]
pub struct AesCfb8 {
    inner: Cfb8<Aes128>,
}

/// Calls `Cfb8::<Aes128>::new` with `key` both as key and as initialisation
/// vector. The new state holds that key, and its register is the key.
#[verifier::external_body]
fn cfb8_new(key: &[u8; 16]) -> (cipher: AesCfb8)
    ensures
        cipher_key(&cipher) == key@,
        cipher_register(&cipher) == key@,
{
    let k = GenericArray::clone_from_slice(&key[..]);
    AesCfb8 { inner: Cfb8::<Aes128>::new(&k, &k) }
}

/// Calls `Cfb8::encrypt` on `data` in place. For each byte in turn the
/// crate encrypts the register with AES, combines the first byte of that
/// block with the input byte, and shifts the result into the register.
#[verifier::external_body]
fn cfb8_encrypt(cipher: &mut AesCfb8, data: &mut Vec<u8>)
    ensures
        final(data)@ == spec_cfb8_encrypt(
            cipher_key(old(cipher)),
            cipher_register(old(cipher)),
            old(data)@,
        ),
        old(data)@.len() > 0 ==> final(data)@[0] == old(data)@[0] ^ spec_aes128_encrypt_block(
            cipher_key(old(cipher)),
            cipher_register(old(cipher)),
        )[0],
        cipher_key(final(cipher)) == cipher_key(old(cipher)),
        cipher_register(final(cipher)) == spec_cfb8_register(
            cipher_register(old(cipher)),
            final(data)@,
        ),
{
    cipher.inner.encrypt(data.as_mut_slice());
}

/// Calls `Cfb8::decrypt` on `data` in place. For each byte in turn the
/// crate encrypts the register with AES, combines the first byte of that
/// block with the input byte, and shifts the input byte into the register.
#[verifier::external_body]
fn cfb8_decrypt(cipher: &mut AesCfb8, data: &mut Vec<u8>)
    ensures
        final(data)@ == spec_cfb8_decrypt(
            cipher_key(old(cipher)),
            cipher_register(old(cipher)),
            old(data)@,
        ),
        old(data)@.len() > 0 ==> final(data)@[0] == old(data)@[0] ^ spec_aes128_encrypt_block(
            cipher_key(old(cipher)),
            cipher_register(old(cipher)),
        )[0],
        cipher_key(final(cipher)) == cipher_key(old(cipher)),
        cipher_register(final(cipher)) == spec_cfb8_register(
            cipher_register(old(cipher)),
            old(data)@,
        ),
{
    cipher.inner.decrypt(data.as_mut_slice());
}

/// What a stream cipher is made of: its key, which is its initialisation
/// vector too, and every ciphertext byte that has gone through it.
#[verifier::ext_equal]
pub struct StreamCipherView {
    pub key: Seq<u8>,
    pub fed: Seq<u8>,
}

impl StreamCipherView {
    /// The feedback register: the last sixteen bytes of the key followed by
    /// the ciphertext so far.
    pub open spec fn register(self) -> Seq<u8> {
        spec_cfb8_register(self.key, self.fed)
    }

    /// A cipher just made with `key`.
    pub open spec fn fresh(key: Seq<u8>) -> StreamCipherView {
        StreamCipherView { key, fed: Seq::empty() }
    }

    /// The cipher after it has taken `ciphertext` in.
    pub open spec fn feed(self, ciphertext: Seq<u8>) -> StreamCipherView {
        StreamCipherView { key: self.key, fed: self.fed + ciphertext }
    }

    /// The ciphertext that this cipher makes of `data`.
    pub open spec fn encrypt(self, data: Seq<u8>) -> Seq<u8> {
        spec_cfb8_encrypt(self.key, self.register(), data)
    }

    /// The plaintext that this cipher makes of `data`.
    pub open spec fn decrypt(self, data: Seq<u8>) -> Seq<u8> {
        spec_cfb8_decrypt(self.key, self.register(), data)
    }
}

/// One direction of an encrypted connection.
pub struct StreamCipher {
    state: AesCfb8,
    fed: Ghost<Seq<u8>>,
}

impl View for StreamCipher {
    type V = StreamCipherView;

    closed spec fn view(&self) -> StreamCipherView {
        StreamCipherView { key: cipher_key(&self.state), fed: self.fed@ }
    }
}

impl StreamCipher {
    /// The register of the state is the one that the key and the ciphertext
    /// so far give.
    pub closed spec fn wf(&self) -> bool {
        cipher_register(&self.state) == self@.register()
    }

    /// A cipher with `key` as its key and its initialisation vector.
    pub fn new(key: &[u8; 16]) -> (cipher: StreamCipher)
        ensures
            cipher.wf(),
            cipher@ == StreamCipherView::fresh(key@),
    {
        StreamCipher { state: cfb8_new(key), fed: Ghost(Seq::empty()) }
    }

    /// Encrypts `data` in place. The ciphertext goes into the cipher's
    /// history.
    pub fn encrypt(&mut self, data: &mut Vec<u8>)
        requires
            old(self).wf(),
        ensures
            final(self).wf(),
            final(data)@ == old(self)@.encrypt(old(data)@),
            final(data)@.len() == old(data)@.len(),
            final(self)@ == old(self)@.feed(final(data)@),
    {
        proof {
            lemma_encrypt_len(self@.key, self@.register(), data@);
        }
        cfb8_encrypt(&mut self.state, data);
        proof {
            lemma_register_concat(old(self)@.key, old(self)@.fed, data@);
            self.fed@ = self.fed@ + data@;
        }
    }

    /// Decrypts `data` in place. The ciphertext goes into the cipher's
    /// history.
    pub fn decrypt(&mut self, data: &mut Vec<u8>)
        requires
            old(self).wf(),
        ensures
            final(self).wf(),
            final(data)@ == old(self)@.decrypt(old(data)@),
            final(data)@.len() == old(data)@.len(),
            final(self)@ == old(self)@.feed(old(data)@),
    {
        proof {
            lemma_decrypt_len(self@.key, self@.register(), data@);
            lemma_register_concat(self@.key, self@.fed, data@);
        }
        let ghost taken = data@;
        cfb8_decrypt(&mut self.state, data);
        proof {
            self.fed@ = self.fed@ + taken;
        }
    }
}

} // verus!
