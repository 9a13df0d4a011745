use aes::cipher::{AsyncStreamCipher, KeyIvInit};
use magma::cryptor::{Cfb8, Cryptor};
use magma::error::CryptoError;
use magma::io::ProtocolWriteExt;

const KEY: [u8; 16] = [0x42; 16];
const IV: [u8; 16] = [0x24; 16];

const PLAINTEXT: &[u8] = b"hello world! this is my plaintext.";

const CIPHERTEXT: [u8; 34] = [
    0x33, 0xb3, 0x56, 0xce, 0x91, 0x84, 0x29, 0x0c, 0x4c, 0x8f, 0xac, 0xc1, 0xc0, 0xb1, 0xf9, 0x18,
    0xd5, 0x47, 0x5a, 0xeb, 0x75, 0xb8, 0x8c, 0x16, 0x1c, 0xa6, 0x5b, 0xdf, 0x05, 0xc7, 0x13, 0x7f,
    0xf4, 0xb0,
];

fn secret() -> [u8; 16] {
    let mut secret = [0u8; 16];
    for i in 0..16 {
        secret[i] = (i as u8) * 17 + 3;
    }
    secret
}

fn framed(body: &[u8]) -> Vec<u8> {
    let mut bytes: Vec<u8> = Vec::new();
    assert_eq!(bytes.write_prefixed(body), Ok(()));
    bytes
}

fn reference_encrypt(key: &[u8; 16], iv: &[u8; 16], data: &[u8]) -> Vec<u8> {
    let mut buf = data.to_vec();
    cfb8::Encryptor::<aes::Aes128>::new(key.into(), iv.into()).encrypt(&mut buf);
    buf
}

fn reference_decrypt(key: &[u8; 16], iv: &[u8; 16], data: &[u8]) -> Vec<u8> {
    let mut buf = data.to_vec();
    cfb8::Decryptor::<aes::Aes128>::new(key.into(), iv.into()).decrypt(&mut buf);
    buf
}

#[test]
fn encrypts_the_known_vector() {
    let mut stream = Cfb8 { key: KEY, register: IV };
    assert_eq!(stream.encrypt(PLAINTEXT), CIPHERTEXT.to_vec());
    let mut last = [0u8; 16];
    last.copy_from_slice(&CIPHERTEXT[18..]);
    assert_eq!(stream.register, last);
    assert_eq!(stream.key, KEY);
}

#[test]
fn decrypts_the_known_vector() {
    let mut stream = Cfb8 { key: KEY, register: IV };
    let mut data = CIPHERTEXT;
    stream.decrypt(&mut data);
    assert_eq!(&data[..], PLAINTEXT);
    let mut last = [0u8; 16];
    last.copy_from_slice(&CIPHERTEXT[18..]);
    assert_eq!(stream.register, last);
}

#[test]
fn single_bytes_match_the_known_vector() {
    let mut stream = Cfb8 { key: KEY, register: IV };
    assert_eq!(stream.encrypt_byte(PLAINTEXT[0]), CIPHERTEXT[0]);
    assert_eq!(stream.encrypt_byte(PLAINTEXT[1]), CIPHERTEXT[1]);
    let mut stream = Cfb8 { key: KEY, register: IV };
    assert_eq!(stream.decrypt_byte(CIPHERTEXT[0]), PLAINTEXT[0]);
    assert_eq!(stream.decrypt_byte(CIPHERTEXT[1]), PLAINTEXT[1]);
    assert_eq!(stream.register[15], CIPHERTEXT[1]);
    assert_eq!(stream.register[14], CIPHERTEXT[0]);
    assert_eq!(stream.register[13], IV[15]);
}

#[test]
fn one_byte_with_a_given_block() {
    let mut block = [0u8; 16];
    block[0] = 0x0f;
    block[1] = 0xff;
    let mut register = [0u8; 16];
    for i in 0..16 {
        register[i] = i as u8;
    }
    let mut stream = Cfb8 { key: KEY, register };
    assert_eq!(stream.encrypt_with_block(&block, 0x35), 0x3a);
    assert_eq!(stream.register, [1, 2, 3, 4, 5, 6, 7, 8, 9, 10, 11, 12, 13, 14, 15, 0x3a]);
    assert_eq!(stream.key, KEY);
    let mut stream = Cfb8 { key: KEY, register };
    assert_eq!(stream.decrypt_with_block(&block, 0x3a), 0x35);
    assert_eq!(stream.register, [1, 2, 3, 4, 5, 6, 7, 8, 9, 10, 11, 12, 13, 14, 15, 0x3a]);
}

#[test]
fn agrees_with_the_reference_cipher() {
    let key = secret();
    let mut data: Vec<u8> = Vec::new();
    for i in 0..300u32 {
        data.push((i * 31 % 256) as u8);
    }
    let mut ours = Cfb8::new(&key);
    let cipher = ours.encrypt(&data);
    assert_eq!(cipher, reference_encrypt(&key, &key, &data));
    let mut ours = Cfb8::new(&key);
    let mut buf = cipher.clone();
    ours.decrypt(&mut buf);
    assert_eq!(buf, data);
    assert_eq!(buf, reference_decrypt(&key, &key, &cipher));
}

#[test]
fn encryption_carries_over_between_calls() {
    let key = secret();
    let mut data: Vec<u8> = Vec::new();
    for i in 0..100u8 {
        data.push(i);
    }
    let whole = reference_encrypt(&key, &key, &data);
    for cut in 0..=data.len() {
        let mut cryptor = Cryptor::new(&key);
        let mut out = cryptor.encrypt_packet(&data[..cut]).unwrap();
        out.extend_from_slice(&cryptor.encrypt_packet(&data[cut..]).unwrap());
        assert_eq!(out, whole);
    }
}

#[test]
fn fragmentation_at_every_boundary() {
    let key = secret();
    let mut body: Vec<u8> = Vec::new();
    for i in 0..200u32 {
        body.push((i * 7 % 256) as u8);
    }
    let mut sender = Cryptor::new(&key);
    let cipher = sender.encrypt_packet(&framed(&body)).unwrap();
    assert_eq!(cipher.len(), body.len() + 2);
    for cut in 1..cipher.len() {
        let mut receiver = Cryptor::new(&key);
        let mut first = cipher[..cut].to_vec();
        let mut second = cipher[cut..].to_vec();
        assert_eq!(receiver.next_packet(&mut first), Ok(None));
        assert_eq!(receiver.next_packet(&mut second), Ok(Some(body.clone())));
        assert_eq!(receiver.next_packet(&mut []), Ok(None));
    }
}

#[test]
fn fragmentation_one_byte_at_a_time() {
    let key = secret();
    let body = b"\x00a status request that is long enough to matter".to_vec();
    let mut sender = Cryptor::new(&key);
    let cipher = sender.encrypt_packet(&framed(&body)).unwrap();
    let mut receiver = Cryptor::new(&key);
    let mut seen = 0;
    for (i, byte) in cipher.iter().enumerate() {
        let mut one = [*byte];
        let got = receiver.next_packet(&mut one).unwrap();
        if i + 1 < cipher.len() {
            assert_eq!(got, None);
        } else {
            assert_eq!(got, Some(body.clone()));
            seen += 1;
        }
    }
    assert_eq!(seen, 1);
    assert_eq!(receiver.next_packet(&mut []), Ok(None));
}

#[test]
fn fragmentation_in_three_pieces() {
    let key = secret();
    let body = vec![9u8; 40];
    let mut sender = Cryptor::new(&key);
    let cipher = sender.encrypt_packet(&framed(&body)).unwrap();
    for a in 0..cipher.len() {
        for b in a..cipher.len() {
            let mut receiver = Cryptor::new(&key);
            assert_eq!(receiver.next_packet(&mut cipher[..a].to_vec()), Ok(None));
            assert_eq!(receiver.next_packet(&mut cipher[a..b].to_vec()), Ok(None));
            assert_eq!(receiver.next_packet(&mut cipher[b..].to_vec()), Ok(Some(body.clone())));
        }
    }
}

#[test]
fn whole_packet_in_one_call() {
    let key = secret();
    let body = vec![1u8, 2, 3];
    let mut sender = Cryptor::new(&key);
    let mut cipher = sender.encrypt_packet(&framed(&body)).unwrap();
    let mut receiver = Cryptor::new(&key);
    assert_eq!(receiver.next_packet(&mut cipher), Ok(Some(body)));
    // the caller's buffer now holds the plaintext
    assert_eq!(cipher, vec![3, 1, 2, 3]);
}

#[test]
fn two_packets_in_one_read_come_out_one_by_one() {
    let key = secret();
    let mut plain = framed(&[1, 2, 3]);
    plain.extend_from_slice(&framed(&[4, 5]));
    let mut sender = Cryptor::new(&key);
    let mut cipher = sender.encrypt_packet(&plain).unwrap();
    let mut receiver = Cryptor::new(&key);
    assert_eq!(receiver.next_packet(&mut cipher), Ok(Some(vec![1, 2, 3])));
    assert_eq!(receiver.next_packet(&mut []), Ok(Some(vec![4, 5])));
    assert_eq!(receiver.next_packet(&mut []), Ok(None));
}

#[test]
fn empty_packet_body() {
    let key = secret();
    let mut sender = Cryptor::new(&key);
    let mut cipher = sender.encrypt_packet(&[0x00]).unwrap();
    let mut receiver = Cryptor::new(&key);
    assert_eq!(receiver.next_packet(&mut cipher), Ok(Some(vec![])));
    assert_eq!(receiver.next_packet(&mut []), Ok(None));
}

#[test]
fn pending_buffer_is_kept_across_calls() {
    let key = secret();
    let mut sender = Cryptor::new(&key);
    let cipher = sender.encrypt_packet(&framed(&[7u8; 10])).unwrap();
    let mut receiver = Cryptor::new(&key);
    assert_eq!(receiver.next_packet(&mut cipher[..5].to_vec()), Ok(None));
    match &receiver {
        Cryptor::Initialized { inbuffer, .. } => assert_eq!(inbuffer, &vec![10, 7, 7, 7, 7]),
        Cryptor::Uninitialized => panic!("the cryptor was initialised"),
    }
    assert_eq!(receiver.next_packet(&mut cipher[5..].to_vec()), Ok(Some(vec![7u8; 10])));
    match &receiver {
        Cryptor::Initialized { inbuffer, .. } => assert!(inbuffer.is_empty()),
        Cryptor::Uninitialized => panic!("the cryptor was initialised"),
    }
}

#[test]
fn uninitialised_cryptor_refuses() {
    let mut cryptor = Cryptor::default();
    assert_eq!(cryptor, Cryptor::Uninitialized);
    let mut data = [1u8, 2, 3];
    assert_eq!(cryptor.next_packet(&mut data), Err(CryptoError::NotInitialized));
    assert_eq!(data, [1, 2, 3]);
    assert_eq!(cryptor.encrypt_packet(&[1, 2, 3]), Err(CryptoError::NotInitialized));
    assert_eq!(cryptor, Cryptor::Uninitialized);
}

#[test]
fn stream_that_frames_no_packet_is_refused() {
    let key = secret();
    // a length prefix of six continuation bytes
    let mut sender = Cryptor::new(&key);
    let mut cipher = sender.encrypt_packet(&[0xff; 6]).unwrap();
    let mut receiver = Cryptor::new(&key);
    assert_eq!(receiver.next_packet(&mut cipher), Err(CryptoError::DecryptFailed));
    // a length above the largest packet
    let mut sender = Cryptor::new(&key);
    let mut cipher = sender.encrypt_packet(&[0x80, 0x80, 0x80, 0x01, 0x00]).unwrap();
    let mut receiver = Cryptor::new(&key);
    assert_eq!(receiver.next_packet(&mut cipher), Err(CryptoError::DecryptFailed));
}

#[test]
fn new_seeds_both_directions_with_the_secret() {
    let key = secret();
    match Cryptor::new(&key) {
        Cryptor::Initialized { encryptor, decryptor, inbuffer } => {
            assert_eq!(encryptor, Cfb8 { key, register: key });
            assert_eq!(decryptor, Cfb8 { key, register: key });
            assert!(inbuffer.is_empty());
        }
        Cryptor::Uninitialized => panic!("the cryptor was initialised"),
    }
}

#[test]
fn try_new_wants_sixteen_bytes() {
    assert_eq!(Cryptor::try_new(&[0u8; 15]), None);
    assert_eq!(Cryptor::try_new(&[0u8; 17]), None);
    assert_eq!(Cryptor::try_new(&[]), None);
    assert_eq!(Cryptor::try_new(&secret()), Some(Cryptor::new(&secret())));
}

#[test]
fn directions_are_independent() {
    let key = secret();
    let mut a = Cryptor::new(&key);
    let mut b = Cryptor::new(&key);
    // a sends, then b sends: each direction starts from the secret
    let mut to_b = a.encrypt_packet(&framed(&[1, 1])).unwrap();
    let mut to_a = b.encrypt_packet(&framed(&[2, 2, 2])).unwrap();
    assert_eq!(b.next_packet(&mut to_b), Ok(Some(vec![1, 1])));
    assert_eq!(a.next_packet(&mut to_a), Ok(Some(vec![2, 2, 2])));
    let mut more = a.encrypt_packet(&framed(&[3])).unwrap();
    assert_eq!(b.next_packet(&mut more), Ok(Some(vec![3])));
}
