//! The calls this library makes into code that Verus does not see.
//!
//! Each item here has a contract that is believed, not proved. Everything else in
//! the crate is verified against these contracts.

use aes::cipher::{BlockEncrypt, KeyInit};
use rand::{Rng, RngCore};
use rsa::pkcs8::DecodePublicKey;
use rsa::{PaddingScheme, PublicKey, PublicKeyParts, RsaPublicKey};
use vstd::prelude::*;
use vstd::utf8::{decode_utf8, valid_utf8};

verus! {

/// The error of `String::from_utf8`.
#[verifier::external_type_specification]
#[verifier::external_body]
pub struct ExFromUtf8Error(std::string::FromUtf8Error);

/// `String::from_utf8`: succeeds exactly on valid UTF-8, and the string it gives
/// is the text that the bytes encode.
#[verifier::external_body]
pub(crate) fn string_from_utf8(bytes: Vec<u8>) -> (r: Result<String, std::string::FromUtf8Error>)
    ensures
        r is Ok <==> valid_utf8(bytes@),
        r matches Ok(s) ==> s@ == decode_utf8(bytes@),
{
    String::from_utf8(bytes)
}

/// The error of the inflate functions of `miniz_oxide`.
#[verifier::external_type_specification]
#[verifier::external_body]
pub struct ExDecompressError(miniz_oxide::inflate::DecompressError);

/// What inflating the zlib stream `data` gives when the output may grow to
/// `max_size` bytes: the inflated bytes, or `None` where the stream is invalid
/// or truncated, fails its checksum, or holds more than `max_size` bytes.
pub uninterp spec fn zlib_inflate(data: Seq<u8>, max_size: nat) -> Option<Seq<u8>>;

/// `miniz_oxide::inflate::decompress_to_vec_zlib_with_limit`: whether it
/// succeeds, and the bytes it gives, are a function of the stream and the
/// limit, and it gives no more bytes than the limit allows.
#[verifier::external_body]
pub(crate) fn inflate_zlib(data: &[u8], max_size: usize) -> (r: Result<
    Vec<u8>,
    miniz_oxide::inflate::DecompressError,
>)
    ensures
        match zlib_inflate(data@, max_size as nat) {
            Some(out) => r matches Ok(bytes) && bytes@ == out && bytes@.len() <= max_size,
            None => r is Err,
        },
{
    miniz_oxide::inflate::decompress_to_vec_zlib_with_limit(data, max_size)
}

/// The block that AES-128 makes of the 16-byte `block` under the 16-byte `key`.
pub uninterp spec fn aes128_encrypt(key: Seq<u8>, block: Seq<u8>) -> Seq<u8>;

/// `encrypt_block` of `aes::Aes128`, on a cipher made from `key` by `new`: one
/// block of the block cipher, a function of the key and the block.
#[verifier::external_body]
pub(crate) fn aes128_encrypt_block(key: &[u8; 16], block: &[u8; 16]) -> (out: [u8; 16])
    ensures
        out@ == aes128_encrypt(key@, block@),
{
    let cipher = aes::Aes128::new(key.into());
    let mut out: aes::Block = (*block).into();
    cipher.encrypt_block(&mut out);
    out.into()
}

/// `gen_range` of `rand::Rng`, on the thread's generator and the range from
/// zero up to `len`, `len` excluded: some index below `len`. Which one is a
/// matter of chance, and two calls need not agree.
#[verifier::external_body]
pub(crate) fn random_index(len: usize) -> (index: usize)
    requires
        len > 0,
    ensures
        index < len,
{
    rand::thread_rng().gen_range(0..len)
}

/// The size in bytes of the modulus of the RSA public key that `der` encodes;
/// `None` where `der` does not decode as an RSA public key.
pub uninterp spec fn rsa_modulus_size(der: Seq<u8>) -> Option<nat>;

/// `from_public_key_der` of `rsa::RsaPublicKey`, then `size` of the key: whether
/// the bytes decode, and the size of the modulus, are a function of the bytes.
/// `None` stands for the error of decoding.
#[verifier::external_body]
pub(crate) fn rsa_key_size(der: &[u8]) -> (r: Option<usize>)
    ensures
        match rsa_modulus_size(der@) {
            Some(size) => r matches Some(k) && k == size,
            None => r is None,
        },
{
    match RsaPublicKey::from_public_key_der(der) {
        Ok(key) => Some(key.size()),
        Err(_) => None,
    }
}

/// `encrypt` of `rsa::RsaPublicKey` with PKCS#1 v1.5 padding, on the key that
/// `der` encodes and the thread's generator. Whether it succeeds is a matter of
/// the sizes alone: a message is encrypted exactly when it leaves room for
/// eleven bytes of padding. The padding is drawn by chance, so of the
/// ciphertext only its length is known: that of the modulus. The key must be
/// one that decodes and has room for the padding at all. `None` stands for the
/// error of decoding or of encrypting.
#[verifier::external_body]
pub(crate) fn rsa_encrypt(der: &[u8], message: &[u8]) -> (r: Option<Vec<u8>>)
    requires
        rsa_modulus_size(der@) matches Some(size) && size >= 11,
    ensures
        r matches Some(cipher) ==> rsa_modulus_size(der@) == Some(cipher@.len()),
        (rsa_modulus_size(der@) matches Some(size) && message@.len() + 11 > size) ==> r is None,
        (rsa_modulus_size(der@) matches Some(size) && message@.len() + 11 <= size) ==> r is Some,
{
    match RsaPublicKey::from_public_key_der(der) {
        Ok(key) => match key.encrypt(
            &mut rand::thread_rng(),
            PaddingScheme::PKCS1v15Encrypt,
            message,
        ) {
            Ok(cipher) => Some(cipher),
            Err(_) => None,
        },
        Err(_) => None,
    }
}

/// `fill_bytes` of `rand::RngCore`, on the thread's generator: sixteen bytes
/// of chance, of which nothing is known beforehand.
#[verifier::external_body]
pub(crate) fn random_secret() -> (secret: [u8; 16]) {
    let mut secret = [0u8; 16];
    rand::thread_rng().fill_bytes(&mut secret);
    secret
}

} // verus!
