//! Encryption and decryption of the byte stream between the client and the proxy.
//!
//! The cipher is AES-128 in CFB-8 mode: one byte in, one byte out, the cipher's
//! sixteen-byte shift register fed with every ciphertext byte. The register
//! lives across calls, so a stream may be cut anywhere and fed piece by piece.

use crate::error::{CryptoError, FramingError};
use crate::io::{ByteCursor, ProtocolReadExt};
use crate::packet::MAX_PACKET_LENGTH;
use crate::trusted::{aes128_encrypt, aes128_encrypt_block};
use crate::varint::{
    encode_var, lemma_continuation_run, lemma_encode_var_bounds, lemma_encode_var_flags,
};
use crate::wire::{encode_prefixed, lemma_prefixed_round_trip, parse_prefixed};
use vstd::prelude::*;

verus! {

/// One direction of a CFB-8 stream.
#[derive(Clone, Copy, Debug, PartialEq, Eq)]
pub struct Cfb8 {
    /// The AES key.
    pub key: [u8; 16],
    /// The shift register: at the start the initialisation vector, afterwards
    /// the last sixteen bytes of ciphertext.
    pub register: [u8; 16],
}

/// One direction of a CFB-8 stream as a mathematical value.
pub struct Cfb8View {
    pub key: Seq<u8>,
    pub register: Seq<u8>,
}

impl View for Cfb8 {
    type V = Cfb8View;

    open spec fn view(&self) -> Cfb8View {
        Cfb8View { key: self.key@, register: self.register@ }
    }
}

/// The cipher state of one connection.
#[derive(Clone, Debug, PartialEq, Eq)]
pub enum Cryptor {
    /// No shared secret yet: traffic passes as it is, and the cryptor is not to be called.
    Uninitialized,
    /// A shared secret is set.
    Initialized {
        /// The outbound stream.
        encryptor: Cfb8,
        /// The inbound stream.
        decryptor: Cfb8,
        /// Bytes already decrypted that do not yet make a whole packet.
        inbuffer: Vec<u8>,
    },
}

impl Default for Cryptor {
    fn default() -> (cryptor: Self)
        ensures
            cryptor@ == CryptorView::Uninitialized,
    {
        Cryptor::Uninitialized
    }
}

/// The cipher state of one connection as a mathematical value.
pub enum CryptorView {
    Uninitialized,
    Initialized { encryptor: Cfb8View, decryptor: Cfb8View, inbuffer: Seq<u8> },
}

impl View for Cryptor {
    type V = CryptorView;

    open spec fn view(&self) -> CryptorView {
        match self {
            Cryptor::Uninitialized => CryptorView::Uninitialized,
            Cryptor::Initialized { encryptor, decryptor, inbuffer } => CryptorView::Initialized {
                encryptor: encryptor@,
                decryptor: decryptor@,
                inbuffer: inbuffer@,
            },
        }
    }
}

/// The byte that is XORed onto the next byte of the stream.
pub open spec fn keystream(key: Seq<u8>, register: Seq<u8>) -> u8 {
    aes128_encrypt(key, register)[0]
}

/// The register after one more byte of ciphertext.
pub open spec fn shift(register: Seq<u8>, byte: u8) -> Seq<u8> {
    register.skip(1).push(byte)
}

/// The register after a run of ciphertext.
pub open spec fn feed(register: Seq<u8>, ciphertext: Seq<u8>) -> Seq<u8>
    decreases ciphertext.len(),
{
    if ciphertext.len() == 0 {
        register
    } else {
        shift(feed(register, ciphertext.drop_last()), ciphertext.last())
    }
}

/// The plaintext of a run of ciphertext: each byte XORed with the keystream byte
/// of the register as the ciphertext before it has left it.
pub open spec fn cfb8_decrypt(key: Seq<u8>, register: Seq<u8>, ciphertext: Seq<u8>) -> Seq<u8> {
    Seq::new(
        ciphertext.len(),
        |i: int| ciphertext[i] ^ keystream(key, feed(register, ciphertext.take(i))),
    )
}

/// The ciphertext of a run of plaintext: each byte XORed with the keystream byte
/// of the register as the ciphertext made so far has left it.
pub open spec fn cfb8_encrypt(key: Seq<u8>, register: Seq<u8>, plaintext: Seq<u8>) -> Seq<u8>
    decreases plaintext.len(),
{
    if plaintext.len() == 0 {
        Seq::empty()
    } else {
        let head = cfb8_encrypt(key, register, plaintext.drop_last());
        head.push(plaintext.last() ^ keystream(key, feed(register, head)))
    }
}

/// What the pending buffer yields: a whole packet body and the number of bytes
/// it takes with its length prefix, nothing yet, or the finding that the stream
/// does not frame packets.
pub open spec fn extract(buffer: Seq<u8>) -> Result<Option<(Seq<u8>, nat)>, CryptoError> {
    match parse_prefixed(buffer, MAX_PACKET_LENGTH as nat) {
        Ok((body, n)) => Ok(Some((body, n))),
        Err(FramingError::UnexpectedEof) => Ok(None),
        Err(_) => Err(CryptoError::DecryptFailed),
    }
}

/// One call of [`Cryptor::next_packet`]: the state it leaves, the plaintext it
/// leaves in the caller's buffer, and what it returns.
pub open spec fn receive(state: CryptorView, data: Seq<u8>) -> (
    CryptorView,
    Seq<u8>,
    Result<Option<Seq<u8>>, CryptoError>,
) {
    match state {
        CryptorView::Uninitialized => (state, data, Err(CryptoError::NotInitialized)),
        CryptorView::Initialized { encryptor, decryptor, inbuffer } => {
            let plain = cfb8_decrypt(decryptor.key, decryptor.register, data);
            let buffer = inbuffer + plain;
            let next = Cfb8View { key: decryptor.key, register: feed(decryptor.register, data) };
            match extract(buffer) {
                Ok(Some((body, n))) => (
                    CryptorView::Initialized {
                        encryptor,
                        decryptor: next,
                        inbuffer: buffer.skip(n as int),
                    },
                    plain,
                    Ok(Some(body)),
                ),
                Ok(None) => (
                    CryptorView::Initialized { encryptor, decryptor: next, inbuffer: buffer },
                    plain,
                    Ok(None),
                ),
                Err(e) => (
                    CryptorView::Initialized { encryptor, decryptor: next, inbuffer: buffer },
                    plain,
                    Err(e),
                ),
            }
        },
    }
}

/// One call of [`Cryptor::encrypt_packet`]: the state it leaves and what it returns.
pub open spec fn send(state: CryptorView, data: Seq<u8>) -> (
    CryptorView,
    Result<Seq<u8>, CryptoError>,
) {
    match state {
        CryptorView::Uninitialized => (state, Err(CryptoError::NotInitialized)),
        CryptorView::Initialized { encryptor, decryptor, inbuffer } => {
            let cipher = cfb8_encrypt(encryptor.key, encryptor.register, data);
            (
                CryptorView::Initialized {
                    encryptor: Cfb8View {
                        key: encryptor.key,
                        register: feed(encryptor.register, cipher),
                    },
                    decryptor,
                    inbuffer,
                },
                Ok(cipher),
            )
        },
    }
}

impl Cfb8 {
    /// A stream with `secret` as both key and initialisation vector.
    pub fn new(secret: &[u8; 16]) -> (stream: Self)
        ensures
            stream@ == (Cfb8View { key: secret@, register: secret@ }),
    {
        Cfb8 { key: *secret, register: *secret }
    }

    /// Moves `byte` into the register.
    fn shift_in(&mut self, byte: u8)
        ensures
            final(self).key == old(self).key,
            final(self).register@ == shift(old(self).register@, byte),
    {
        let mut next: [u8; 16] = [0u8; 16];
        let mut i: usize = 0;
        while i < 15
            invariant
                i <= 15,
                forall|j: int| 0 <= j < i ==> next@[j] == self.register@[j + 1],
            decreases 15 - i,
        {
            next[i] = self.register[i + 1];
            i = i + 1;
        }
        next[15] = byte;
        assert(next@ =~= shift(self.register@, byte));
        self.register = next;
    }

    /// Decrypts one byte of ciphertext, given the block that the cipher has
    /// made of the register: the plaintext is the byte XORed with the first
    /// byte of the block, and the ciphertext byte moves into the register.
    pub fn decrypt_with_block(&mut self, block: &[u8; 16], byte: u8) -> (plain: u8)
        ensures
            plain == byte ^ block@[0],
            final(self).key == old(self).key,
            final(self).register@ == shift(old(self).register@, byte),
    {
        let plain = byte ^ block[0];
        self.shift_in(byte);
        plain
    }

    /// Encrypts one byte of plaintext, given the block that the cipher has
    /// made of the register: the ciphertext is the byte XORed with the first
    /// byte of the block, and the ciphertext byte moves into the register.
    pub fn encrypt_with_block(&mut self, block: &[u8; 16], byte: u8) -> (cipher: u8)
        ensures
            cipher == byte ^ block@[0],
            final(self).key == old(self).key,
            final(self).register@ == shift(old(self).register@, cipher),
    {
        let cipher = byte ^ block[0];
        self.shift_in(cipher);
        cipher
    }

    /// Decrypts one byte.
    pub fn decrypt_byte(&mut self, byte: u8) -> (plain: u8)
        ensures
            plain == byte ^ keystream(old(self).key@, old(self).register@),
            final(self).key == old(self).key,
            final(self).register@ == shift(old(self).register@, byte),
    {
        let block = aes128_encrypt_block(&self.key, &self.register);
        self.decrypt_with_block(&block, byte)
    }

    /// Encrypts one byte.
    pub fn encrypt_byte(&mut self, byte: u8) -> (cipher: u8)
        ensures
            cipher == byte ^ keystream(old(self).key@, old(self).register@),
            final(self).key == old(self).key,
            final(self).register@ == shift(old(self).register@, cipher),
    {
        let block = aes128_encrypt_block(&self.key, &self.register);
        self.encrypt_with_block(&block, byte)
    }

    /// Decrypts `data` in place.
    pub fn decrypt(&mut self, data: &mut [u8])
        ensures
            final(data)@ == cfb8_decrypt(old(self).key@, old(self).register@, old(data)@),
            final(self).key == old(self).key,
            final(self).register@ == feed(old(self).register@, old(data)@),
    {
        let ghost input = data@;
        let ghost start = self.register@;
        let ghost plain = cfb8_decrypt(self.key@, start, input);
        let n = data.len();
        let mut i: usize = 0;
        while i < n
            invariant
                i <= n,
                n == input.len(),
                data@.len() == n,
                self.key == old(self).key,
                plain == cfb8_decrypt(self.key@, start, input),
                self.register@ == feed(start, input.take(i as int)),
                forall|j: int| 0 <= j < i ==> data@[j] == plain[j],
                forall|j: int| i <= j < n ==> data@[j] == input[j],
            decreases n - i,
        {
            let byte = data[i];
            let out = self.decrypt_byte(byte);
            data[i] = out;
            proof {
                let done = input.take(i + 1);
                assert(done.drop_last() =~= input.take(i as int));
                assert(done.last() == byte);
            }
            i = i + 1;
        }
        assert(input.take(n as int) =~= input);
        assert(data@ =~= plain);
    }

    /// Encrypts `data` into a new vector.
    pub fn encrypt(&mut self, data: &[u8]) -> (cipher: Vec<u8>)
        ensures
            cipher@ == cfb8_encrypt(old(self).key@, old(self).register@, data@),
            final(self).key == old(self).key,
            final(self).register@ == feed(old(self).register@, cipher@),
    {
        let ghost start = self.register@;
        let n = data.len();
        let mut cipher: Vec<u8> = Vec::with_capacity(n);
        let mut i: usize = 0;
        while i < n
            invariant
                i <= n,
                n == data@.len(),
                self.key == old(self).key,
                cipher@ == cfb8_encrypt(self.key@, start, data@.take(i as int)),
                self.register@ == feed(start, cipher@),
            decreases n - i,
        {
            let ghost before = cipher@;
            let out = self.encrypt_byte(data[i]);
            cipher.push(out);
            proof {
                let done = data@.take(i + 1);
                assert(done.drop_last() =~= data@.take(i as int));
                assert(done.last() == data@[i as int]);
                assert(cipher@.drop_last() =~= before);
            }
            i = i + 1;
        }
        assert(data@.take(n as int) =~= data@);
        cipher
    }
}

impl Cryptor {
    /// Create a new cryptor instance. The shared secret seeds both directions,
    /// as key and as initialisation vector.
    pub fn new(key: &[u8]) -> (cryptor: Self)
        requires
            key@.len() == 16,
        ensures
            cryptor@ == (CryptorView::Initialized {
                encryptor: Cfb8View { key: key@, register: key@ },
                decryptor: Cfb8View { key: key@, register: key@ },
                inbuffer: Seq::empty(),
            }),
    {
        let mut secret: [u8; 16] = [0u8; 16];
        let mut i: usize = 0;
        while i < 16
            invariant
                i <= 16,
                key@.len() == 16,
                forall|j: int| 0 <= j < i ==> secret@[j] == key@[j],
            decreases 16 - i,
        {
            secret[i] = key[i];
            i = i + 1;
        }
        assert(secret@ =~= key@);
        Cryptor::Initialized {
            encryptor: Cfb8::new(&secret),
            decryptor: Cfb8::new(&secret),
            inbuffer: Vec::new(),
        }
    }

    /// Create a new cryptor instance where `key` has sixteen bytes; `None` where
    /// it has not.
    pub fn try_new(key: &[u8]) -> (cryptor: Option<Self>)
        ensures
            key@.len() == 16 ==> (cryptor matches Some(c) && c@ == (CryptorView::Initialized {
                encryptor: Cfb8View { key: key@, register: key@ },
                decryptor: Cfb8View { key: key@, register: key@ },
                inbuffer: Seq::empty(),
            })),
            key@.len() != 16 ==> cryptor is None,
    {
        if key.len() == 16 {
            Some(Cryptor::new(key))
        } else {
            None
        }
    }

    /// Read the next packet from the stream.
    ///
    /// Decrypts `data` in place and appends the plaintext to the pending buffer.
    /// When the buffer then starts with a whole length-prefixed packet, the
    /// packet's bytes are returned and leave the buffer together with their
    /// prefix. `None` says that more bytes are needed.
    pub fn next_packet(&mut self, data: &mut [u8]) -> (r: Result<Option<Vec<u8>>, CryptoError>)
        ensures
            final(self)@ == receive(old(self)@, old(data)@).0,
            final(data)@ == receive(old(self)@, old(data)@).1,
            match receive(old(self)@, old(data)@).2 {
                Ok(Some(body)) => r matches Ok(Some(bytes)) && bytes@ == body,
                Ok(None) => r == Ok::<Option<Vec<u8>>, CryptoError>(None),
                Err(e) => r == Err::<Option<Vec<u8>>, CryptoError>(e),
            },
    {
        match self {
            Cryptor::Uninitialized => Err(CryptoError::NotInitialized),
            Cryptor::Initialized { encryptor: _, decryptor, inbuffer } => {
                // decrypt data
                decryptor.decrypt(data);
                inbuffer.extend_from_slice(data);
                let ghost buffer = inbuffer@;
                assert(buffer =~= old(self)@->inbuffer + data@);
                // read packet length and attempt to fetch the packet
                let mut cursor = ByteCursor::new(inbuffer.as_slice());
                match cursor.read_prefixed() {
                    Ok(packet) => {
                        let consumed = inbuffer.len() - cursor.remaining_len();
                        // update internal buffer
                        let rest = inbuffer.split_off(consumed);
                        *inbuffer = rest;
                        assert(inbuffer@ =~= buffer.skip(consumed as int));
                        Ok(Some(packet))
                    },
                    Err(FramingError::UnexpectedEof) => Ok(None),
                    Err(_) => Err(CryptoError::DecryptFailed),
                }
            },
        }
    }

    /// Encrypt the given data.
    pub fn encrypt_packet(&mut self, data: &[u8]) -> (r: Result<Vec<u8>, CryptoError>)
        ensures
            final(self)@ == send(old(self)@, data@).0,
            match send(old(self)@, data@).1 {
                Ok(cipher) => r matches Ok(bytes) && bytes@ == cipher,
                Err(e) => r == Err::<Vec<u8>, CryptoError>(e),
            },
    {
        match self {
            Cryptor::Uninitialized => Err(CryptoError::NotInitialized),
            Cryptor::Initialized { encryptor, decryptor: _, inbuffer: _ } => Ok(
                encryptor.encrypt(data),
            ),
        }
    }
}

/// The fragments of a stream, put end to end.
pub open spec fn joined(fragments: Seq<Seq<u8>>) -> Seq<u8>
    decreases fragments.len(),
{
    if fragments.len() == 0 {
        Seq::empty()
    } else {
        joined(fragments.drop_last()) + fragments.last()
    }
}

/// The state after `fragments` have been handed to [`Cryptor::next_packet`] one
/// by one, and what each call returned.
pub open spec fn receive_all(state: CryptorView, fragments: Seq<Seq<u8>>) -> (
    CryptorView,
    Seq<Result<Option<Seq<u8>>, CryptoError>>,
)
    decreases fragments.len(),
{
    if fragments.len() == 0 {
        (state, Seq::empty())
    } else {
        let (before, outcomes) = receive_all(state, fragments.drop_last());
        let (after, _, outcome) = receive(before, fragments.last());
        (after, outcomes.push(outcome))
    }
}

/// Feeding two runs one after the other is feeding them joined.
pub proof fn lemma_feed_concat(register: Seq<u8>, a: Seq<u8>, b: Seq<u8>)
    ensures
        feed(register, a + b) == feed(feed(register, a), b),
    decreases b.len(),
{
    if b.len() == 0 {
        assert(a + b =~= a);
    } else {
        lemma_feed_concat(register, a, b.drop_last());
        assert((a + b).drop_last() =~= a + b.drop_last());
    }
}

/// Where a stream is cut does not matter: decrypting two runs one after the
/// other, the register carried over, gives what decrypting them joined gives.
pub proof fn lemma_decrypt_split(key: Seq<u8>, register: Seq<u8>, a: Seq<u8>, b: Seq<u8>)
    ensures
        cfb8_decrypt(key, register, a + b) == cfb8_decrypt(key, register, a) + cfb8_decrypt(
            key,
            feed(register, a),
            b,
        ),
{
    let whole = cfb8_decrypt(key, register, a + b);
    let first = cfb8_decrypt(key, register, a);
    let second = cfb8_decrypt(key, feed(register, a), b);
    assert forall|i: int| 0 <= i < whole.len() implies whole[i] == (first + second)[i] by {
        if i < a.len() {
            assert((a + b).take(i) =~= a.take(i));
        } else {
            let j = i - a.len();
            assert((a + b).take(i) =~= a + b.take(j));
            lemma_feed_concat(register, a, b.take(j));
        }
    }
    assert(whole =~= first + second);
}

/// Where a stream is cut does not matter to the sender either: encrypting two
/// runs one after the other, the register carried over, gives what encrypting
/// them joined gives.
pub proof fn lemma_encrypt_split(key: Seq<u8>, register: Seq<u8>, a: Seq<u8>, b: Seq<u8>)
    ensures
        cfb8_encrypt(key, register, a + b) == cfb8_encrypt(key, register, a) + cfb8_encrypt(
            key,
            feed(register, cfb8_encrypt(key, register, a)),
            b,
        ),
    decreases b.len(),
{
    let first = cfb8_encrypt(key, register, a);
    let carried = feed(register, first);
    if b.len() == 0 {
        assert(a + b =~= a);
        assert(first + cfb8_encrypt(key, carried, b) =~= first);
    } else {
        let head = b.drop_last();
        lemma_encrypt_split(key, register, a, head);
        assert((a + b).drop_last() =~= a + head);
        assert((a + b).last() == b.last());
        let second = cfb8_encrypt(key, carried, head);
        lemma_feed_concat(register, first, second);
        assert((first + second).push(b.last() ^ keystream(key, feed(carried, second))) =~= first
            + second.push(b.last() ^ keystream(key, feed(carried, second))));
    }
}

/// The plaintext of the first `n` bytes of a stream is the first `n` bytes of
/// the stream's plaintext.
pub proof fn lemma_decrypt_take(key: Seq<u8>, register: Seq<u8>, data: Seq<u8>, n: int)
    requires
        0 <= n <= data.len(),
    ensures
        cfb8_decrypt(key, register, data.take(n)) == cfb8_decrypt(key, register, data).take(n),
{
    let part = cfb8_decrypt(key, register, data.take(n));
    let whole = cfb8_decrypt(key, register, data);
    assert forall|i: int| 0 <= i < n implies part[i] == whole.take(n)[i] by {
        assert(data.take(n).take(i) =~= data.take(i));
    }
    assert(part =~= whole.take(n));
}

/// Ciphertext is as long as its plaintext, and the ciphertext of the first `n`
/// bytes is the first `n` bytes of the ciphertext.
pub proof fn lemma_encrypt_take(key: Seq<u8>, register: Seq<u8>, data: Seq<u8>, n: int)
    requires
        0 <= n <= data.len(),
    ensures
        cfb8_encrypt(key, register, data).len() == data.len(),
        cfb8_encrypt(key, register, data.take(n)) == cfb8_encrypt(key, register, data).take(n),
    decreases data.len(),
{
    if data.len() == 0 {
        assert(data.take(n) =~= data);
        assert(cfb8_encrypt(key, register, data).take(n) =~= cfb8_encrypt(key, register, data));
    } else {
        let head = data.drop_last();
        lemma_encrypt_take(key, register, head, head.len() as int);
        if n == data.len() {
            assert(data.take(n) =~= data);
            assert(cfb8_encrypt(key, register, data).take(n) =~= cfb8_encrypt(
                key,
                register,
                data,
            ));
        } else {
            lemma_encrypt_take(key, register, head, n);
            assert(data.take(n) =~= head.take(n));
            assert(cfb8_encrypt(key, register, data).take(n) =~= cfb8_encrypt(
                key,
                register,
                head,
            ).take(n));
        }
    }
}

/// Decryption undoes encryption: a receiver that starts from the register the
/// sender started from reads what the sender wrote.
pub proof fn lemma_decrypt_encrypt(key: Seq<u8>, register: Seq<u8>, data: Seq<u8>)
    ensures
        cfb8_decrypt(key, register, cfb8_encrypt(key, register, data)) == data,
{
    let cipher = cfb8_encrypt(key, register, data);
    let plain = cfb8_decrypt(key, register, cipher);
    lemma_encrypt_take(key, register, data, 0);
    assert forall|i: int| 0 <= i < data.len() implies plain[i] == data[i] by {
        lemma_encrypt_take(key, register, data, i);
        lemma_encrypt_take(key, register, data, i + 1);
        let upto = data.take(i + 1);
        assert(upto.drop_last() =~= data.take(i));
        assert(upto.last() == data[i]);
        let head = cfb8_encrypt(key, register, data.take(i));
        assert(cfb8_encrypt(key, register, upto) == head.push(
            data[i] ^ keystream(key, feed(register, head)),
        ));
        assert(cipher.take(i + 1)[i] == cipher[i]);
        let k = keystream(key, feed(register, head));
        let d = data[i];
        assert((d ^ k) ^ k == d) by (bit_vector);
    }
    assert(plain =~= data);
}

/// A packet behind its length prefix is taken whole, and no proper prefix of it
/// is taken for a packet or for garbage.
pub proof fn lemma_extract_prefix(body: Seq<u8>, cut: int)
    requires
        body.len() <= MAX_PACKET_LENGTH,
        0 <= cut <= encode_prefixed(body).len(),
    ensures
        cut < encode_prefixed(body).len() ==> extract(encode_prefixed(body).take(cut)) == Ok::<
            Option<(Seq<u8>, nat)>,
            CryptoError,
        >(None),
        cut == encode_prefixed(body).len() ==> extract(encode_prefixed(body).take(cut)) == Ok::<
            Option<(Seq<u8>, nat)>,
            CryptoError,
        >(Some((body, encode_prefixed(body).len()))),
{
    let prefix = encode_var(body.len());
    let whole = encode_prefixed(body);
    let input = whole.take(cut);
    lemma_encode_var_bounds(body.len());
    lemma_encode_var_flags(body.len());
    if cut == whole.len() {
        assert(input =~= whole + Seq::<u8>::empty());
        lemma_prefixed_round_trip(body, Seq::empty(), MAX_PACKET_LENGTH as nat);
    } else if cut < prefix.len() {
        assert forall|i: int| 0 <= i < cut implies #[trigger] input[i] >= 128 by {
            assert(input[i] == prefix[i]);
        }
        lemma_continuation_run(input, cut as nat);
    } else {
        let part = body.take(cut - prefix.len());
        assert(input =~= prefix + part);
        crate::varint::lemma_var_int_round_trip(body.len() as i32, part);
        assert(input.skip(prefix.len() as int) =~= part);
    }
}

/// What [`lemma_fragmentation`] says of the calls before the last: while the
/// fragments handed over make a proper prefix of the ciphertext, every call
/// asks for more, and the pending buffer holds the plaintext so far.
pub proof fn lemma_fragments_pending(
    encryptor: Cfb8View,
    key: Seq<u8>,
    register: Seq<u8>,
    body: Seq<u8>,
    fragments: Seq<Seq<u8>>,
)
    requires
        body.len() <= MAX_PACKET_LENGTH,
        joined(fragments).len() < encode_prefixed(body).len(),
        joined(fragments) == cfb8_encrypt(key, register, encode_prefixed(body)).take(
            joined(fragments).len() as int,
        ),
    ensures
        receive_all(
            CryptorView::Initialized {
                encryptor,
                decryptor: Cfb8View { key, register },
                inbuffer: Seq::empty(),
            },
            fragments,
        ).0 == (CryptorView::Initialized {
            encryptor,
            decryptor: Cfb8View { key, register: feed(register, joined(fragments)) },
            inbuffer: encode_prefixed(body).take(joined(fragments).len() as int),
        }),
        receive_all(
            CryptorView::Initialized {
                encryptor,
                decryptor: Cfb8View { key, register },
                inbuffer: Seq::empty(),
            },
            fragments,
        ).1 == Seq::new(
            fragments.len(),
            |i: int| Ok::<Option<Seq<u8>>, CryptoError>(None),
        ),
    decreases fragments.len(),
{
    let plain = encode_prefixed(body);
    let cipher = cfb8_encrypt(key, register, plain);
    let start = CryptorView::Initialized {
        encryptor,
        decryptor: Cfb8View { key, register },
        inbuffer: Seq::empty(),
    };
    lemma_encrypt_take(key, register, plain, 0);
    if fragments.len() == 0 {
        assert(plain.take(0) =~= Seq::<u8>::empty());
        assert(receive_all(start, fragments).1 =~= Seq::new(
            fragments.len(),
            |i: int| Ok::<Option<Seq<u8>>, CryptoError>(None),
        ));
    } else {
        let earlier = fragments.drop_last();
        let last = fragments.last();
        let m0 = joined(earlier).len() as int;
        let m1 = joined(fragments).len() as int;
        assert(joined(earlier) =~= cipher.take(m1).take(m0));
        assert(cipher.take(m1).take(m0) =~= cipher.take(m0));
        lemma_fragments_pending(encryptor, key, register, body, earlier);
        assert(joined(fragments) == joined(earlier) + last);
        lemma_step(key, register, body, joined(earlier), last);
        lemma_extract_prefix(body, m1);
        let (before, outcomes) = receive_all(start, earlier);
        let (after, _, outcome) = receive(before, last);
        assert(outcome == Ok::<Option<Seq<u8>>, CryptoError>(None));
        assert(receive_all(start, fragments).1 == outcomes.push(outcome));
        assert(receive_all(start, fragments).1 =~= Seq::new(
            fragments.len(),
            |i: int| Ok::<Option<Seq<u8>>, CryptoError>(None),
        ));
    }
}

/// One call on the next fragment of the ciphertext of a packet: the pending
/// buffer becomes the plaintext of all that was handed over.
pub proof fn lemma_step(
    key: Seq<u8>,
    register: Seq<u8>,
    body: Seq<u8>,
    fed: Seq<u8>,
    fragment: Seq<u8>,
)
    requires
        body.len() <= MAX_PACKET_LENGTH,
        (fed + fragment).len() <= encode_prefixed(body).len(),
        fed + fragment == cfb8_encrypt(key, register, encode_prefixed(body)).take(
            (fed + fragment).len() as int,
        ),
    ensures
        encode_prefixed(body).take(fed.len() as int) + cfb8_decrypt(
            key,
            feed(register, fed),
            fragment,
        ) == encode_prefixed(body).take((fed + fragment).len() as int),
        feed(feed(register, fed), fragment) == feed(register, fed + fragment),
{
    let plain = encode_prefixed(body);
    let cipher = cfb8_encrypt(key, register, plain);
    let m0 = fed.len() as int;
    let m1 = (fed + fragment).len() as int;
    lemma_encrypt_take(key, register, plain, m1);
    lemma_decrypt_encrypt(key, register, plain);
    lemma_decrypt_take(key, register, cipher, m1);
    lemma_decrypt_split(key, register, fed, fragment);
    lemma_feed_concat(register, fed, fragment);
    assert(fed =~= cipher.take(m1).take(m0));
    assert(cipher.take(m1).take(m0) =~= cipher.take(m0));
    lemma_decrypt_take(key, register, cipher, m0);
}

/// A packet that went out encrypted comes back whole however its ciphertext is
/// cut up. When the fragments, in order, make up the ciphertext of one
/// length-prefixed packet and are handed to a cryptor with an empty buffer
/// whose inbound register is where the sender's was, then every call but the
/// last asks for more, the last returns the packet, and the buffer is empty
/// again.
pub proof fn lemma_fragmentation(
    encryptor: Cfb8View,
    key: Seq<u8>,
    register: Seq<u8>,
    body: Seq<u8>,
    fragments: Seq<Seq<u8>>,
)
    requires
        body.len() <= MAX_PACKET_LENGTH,
        fragments.len() >= 1,
        fragments.last().len() >= 1,
        joined(fragments) == cfb8_encrypt(key, register, encode_prefixed(body)),
    ensures
        ({
            let start = CryptorView::Initialized {
                encryptor,
                decryptor: Cfb8View { key, register },
                inbuffer: Seq::empty(),
            };
            let (end, outcomes) = receive_all(start, fragments);
            &&& outcomes.len() == fragments.len()
            &&& forall|i: int|
                0 <= i < fragments.len() - 1 ==> outcomes[i] == Ok::<
                    Option<Seq<u8>>,
                    CryptoError,
                >(None)
            &&& outcomes.last() == Ok::<Option<Seq<u8>>, CryptoError>(Some(body))
            &&& end == (CryptorView::Initialized {
                encryptor,
                decryptor: Cfb8View { key, register: feed(register, joined(fragments)) },
                inbuffer: Seq::empty(),
            })
        }),
{
    let plain = encode_prefixed(body);
    let cipher = cfb8_encrypt(key, register, plain);
    let earlier = fragments.drop_last();
    let last = fragments.last();
    let m0 = joined(earlier).len() as int;
    lemma_encrypt_take(key, register, plain, 0);
    assert(joined(earlier) =~= cipher.take(m0));
    lemma_fragments_pending(encryptor, key, register, body, earlier);
    assert(joined(fragments) == joined(earlier) + last);
    assert(cipher.take(cipher.len() as int) =~= cipher);
    lemma_step(key, register, body, joined(earlier), last);
    assert(plain.take(plain.len() as int) =~= plain);
    lemma_extract_prefix(body, plain.len() as int);
    assert(plain.skip(plain.len() as int) =~= Seq::<u8>::empty());
}

} // verus!
