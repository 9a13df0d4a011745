//! The proxy as a client: logging in at an upstream server.
//!
//! The program that owns the socket sends what [`Client::handshake`] gives it
//! and hands every packet that comes back to [`Client::on_packet`], until the
//! login is done or refused.

use crate::address::SocketAddress;
use crate::config::DEFAULT_PROTOCOL_VERSION;
use crate::cryptor::{Cfb8View, Cryptor, CryptorView};
use crate::error::{CryptoError, Error, FramingError, ProtocolError};
use crate::login::{
    encode_encryption_response, encode_login_start, parse_encryption_request, EncryptionRequest,
    EncryptionResponse, EncryptionResponseView, LoginStart, LoginStartView,
};
use crate::packet::{UncompressedPacket, UncompressedPacketView};
use crate::protocol::{encode_handshake, HandshakeResult, HandshakeView, ProtocolState};
use crate::trusted::{random_secret, rsa_encrypt, rsa_key_size, rsa_modulus_size};
use vstd::prelude::*;
use vstd::utf8::encode_utf8;

verus! {

/// The shortest modulus, in bytes, that leaves room for the padding of a message.
pub const MIN_MODULUS_BYTES: usize = 11;

/// The size in bytes of the modulus of the public key that `public_key`
/// encodes, where it encodes one that can be encrypted under.
pub open spec fn usable_key_size(public_key: Seq<u8>) -> Option<nat> {
    match rsa_modulus_size(public_key) {
        Some(size) => if size >= MIN_MODULUS_BYTES {
            Some(size)
        } else {
            None
        },
        None => None,
    }
}

/// Encrypts the shared secret and the verify token under the server's public
/// key, which comes DER-encoded, and gives them in that order.
///
/// A key that does not decode, or whose modulus is too short for any message,
/// is refused. Under any other key the call succeeds exactly when the secret
/// and the token each leave room for the padding. The padding is drawn by
/// chance: of the two ciphertexts it is known that each is as long as the
/// key's modulus.
pub fn encrypt_for_server(public_key: &[u8], secret: &[u8; 16], verify_token: &[u8]) -> (r: Result<
    (Vec<u8>, Vec<u8>),
    CryptoError,
>)
    ensures
        match usable_key_size(public_key@) {
            None => r == Err::<(Vec<u8>, Vec<u8>), CryptoError>(CryptoError::InvalidKey),
            Some(size) => {
                &&& r matches Ok((encrypted_secret, encrypted_token)) ==> encrypted_secret@.len()
                    == size && encrypted_token@.len() == size
                &&& r matches Err(e) ==> e == CryptoError::EncryptFailed
                &&& r is Ok <==> 16 + MIN_MODULUS_BYTES <= size && verify_token@.len()
                    + MIN_MODULUS_BYTES <= size
            },
        },
{
    match rsa_key_size(public_key) {
        None => {
            return Err(CryptoError::InvalidKey);
        },
        Some(size) => {
            if size < MIN_MODULUS_BYTES {
                return Err(CryptoError::InvalidKey);
            }
        },
    }
    // encrypt secret and token
    let encrypted_secret = match rsa_encrypt(public_key, secret.as_slice()) {
        Some(cipher) => cipher,
        None => {
            return Err(CryptoError::EncryptFailed);
        },
    };
    let encrypted_token = match rsa_encrypt(public_key, verify_token) {
        Some(cipher) => cipher,
        None => {
            return Err(CryptoError::EncryptFailed);
        },
    };
    Ok((encrypted_secret, encrypted_token))
}

/// A login at an upstream server.
#[derive(Debug)]
pub struct Client {
    /// The address of the server.
    pub addr: SocketAddress,
    /// The name of the player who logs in.
    pub player_name: String,
    /// The UUID of the player who logs in.
    pub player_uuid: u128,
    /// Whether the connection is encrypted.
    pub encrypted: bool,
    /// The cipher state of the connection.
    pub cryptor: Cryptor,
}

/// What a packet from the server means for the login.
#[derive(Debug)]
pub enum LoginStep {
    /// The server asks for encryption. `secret` is a fresh shared secret: it
    /// and the verify token go back encrypted under the public key, in the
    /// packet that [`Client::encryption_response`] makes.
    Encrypt { public_key: Vec<u8>, verify_token: Vec<u8>, secret: [u8; 16] },
    /// The server has accepted the login.
    Done,
    /// The server has refused the login.
    Disconnected,
}

/// What a packet from the server means, as far as the packet decides it.
pub enum LoginStepView {
    Encrypt { public_key: Seq<u8>, verify_token: Seq<u8> },
    Done,
    Disconnected,
}

/// The meaning of a packet from the server during login: id 0 refuses the
/// login, id 1 asks for encryption, id 2 accepts the login. A request for
/// encryption must name no server id, and comes at most once.
pub open spec fn login_step(encrypted: bool, packet: UncompressedPacketView) -> Result<
    LoginStepView,
    Error,
> {
    if packet.id == 0 {
        Ok(LoginStepView::Disconnected)
    } else if packet.id == 1 {
        match parse_encryption_request(packet) {
            Err(e) => Err(e),
            Ok(request) => if request.server_id.len() != 0 {
                Err(
                    Error::Protocol(ProtocolError::HandshakeFailed(FramingError::LengthTooLarge)),
                )
            } else if encrypted {
                Err(Error::Crypto(CryptoError::AlreadyInitialized))
            } else {
                Ok(
                    LoginStepView::Encrypt {
                        public_key: request.public_key,
                        verify_token: request.verify_token,
                    },
                )
            },
        }
    } else if packet.id == 2 {
        Ok(LoginStepView::Done)
    } else {
        Err(Error::Protocol(ProtocolError::InvalidPacketId(packet.id)))
    }
}

impl Client {
    /// A login of the player at the server at `addr`, not yet begun.
    pub fn new(addr: SocketAddress, player_name: String, player_uuid: u128) -> (client: Self)
        ensures
            client.addr == addr,
            client.player_name == player_name,
            client.player_uuid == player_uuid,
            !client.encrypted,
            client.cryptor@ == CryptorView::Uninitialized,
    {
        Self { addr, player_name, player_uuid, encrypted: false, cryptor: Cryptor::Uninitialized }
    }

    /// The two packets that open the login: the handshake, which names the
    /// server's own address and asks for the login state, and the login start,
    /// which names the player.
    pub fn handshake(&self) -> (r: Result<(UncompressedPacket, UncompressedPacket), FramingError>)
        ensures
            encode_utf8(self.addr.host@).len() <= i32::MAX && encode_utf8(
                self.player_name@,
            ).len() <= i32::MAX ==> (r matches Ok((first, second)) && first@ == (
            UncompressedPacketView {
                id: 0,
                data: encode_handshake(
                    HandshakeView {
                        next_state: ProtocolState::Login,
                        server_address: self.addr.host@,
                        server_port: self.addr.port,
                        protocol_version: DEFAULT_PROTOCOL_VERSION as u16,
                    },
                ),
            }) && second@ == (UncompressedPacketView {
                id: 0,
                data: encode_login_start(
                    LoginStartView { username: self.player_name@, uuid: self.player_uuid },
                ),
            })),
            encode_utf8(self.addr.host@).len() > i32::MAX || encode_utf8(
                self.player_name@,
            ).len() > i32::MAX ==> r == Err::<
                (UncompressedPacket, UncompressedPacket),
                FramingError,
            >(FramingError::LengthTooLarge),
    {
        // write handshake packet
        let handshake = HandshakeResult {
            next_state: ProtocolState::Login,
            server_address: self.addr.host.clone(),
            server_port: self.addr.port,
            protocol_version: DEFAULT_PROTOCOL_VERSION as u16,
        };
        let first = match handshake.to_packet() {
            Ok(packet) => packet,
            Err(e) => {
                return Err(e);
            },
        };
        // write login start packet
        let login = LoginStart { username: self.player_name.clone(), uuid: self.player_uuid };
        let second = match login.to_packet() {
            Ok(packet) => packet,
            Err(e) => {
                return Err(e);
            },
        };
        Ok((first, second))
    }

    /// Take a packet from the server.
    ///
    /// Nothing changes in the client: encryption begins only when the answer
    /// to the server's request is made.
    pub fn on_packet(&self, packet: &UncompressedPacket) -> (r: Result<LoginStep, Error>)
        ensures
            match login_step(self.encrypted, packet@) {
                Ok(LoginStepView::Encrypt { public_key, verify_token }) => r matches Ok(
                    LoginStep::Encrypt { public_key: k, verify_token: t, secret: _ },
                ) && k@ == public_key && t@ == verify_token,
                Ok(LoginStepView::Done) => r matches Ok(LoginStep::Done),
                Ok(LoginStepView::Disconnected) => r matches Ok(LoginStep::Disconnected),
                Err(e) => r matches Err(x) && x == e,
            },
    {
        match packet.id {
            0x00 => Ok(LoginStep::Disconnected),
            0x01 => {
                let request = match EncryptionRequest::parse(packet) {
                    Ok(request) => request,
                    Err(e) => {
                        return Err(e);
                    },
                };
                if !request.server_id.as_str().is_empty() {
                    return Err(
                        Error::Protocol(
                            ProtocolError::HandshakeFailed(FramingError::LengthTooLarge),
                        ),
                    );
                }
                if self.encrypted {
                    return Err(Error::Crypto(CryptoError::AlreadyInitialized));
                }
                // generate secret
                let secret = random_secret();
                Ok(
                    LoginStep::Encrypt {
                        public_key: request.public_key,
                        verify_token: request.verify_token,
                        secret,
                    },
                )
            },
            0x02 => Ok(LoginStep::Done),
            _ => Err(Error::Protocol(ProtocolError::InvalidPacketId(packet.id))),
        }
    }

    /// The answer to the server's request for encryption, made of the secret
    /// and the verify token as they came out encrypted under the server's
    /// public key. From here on the connection is encrypted with `secret`.
    ///
    /// Where a part does not fit a length prefix nothing is made, and nothing
    /// changes.
    pub fn encryption_response(
        &mut self,
        secret: &[u8; 16],
        encrypted_secret: Vec<u8>,
        encrypted_token: Vec<u8>,
    ) -> (r: Result<UncompressedPacket, FramingError>)
        ensures
            final(self).addr == old(self).addr,
            final(self).player_name == old(self).player_name,
            final(self).player_uuid == old(self).player_uuid,
            encrypted_secret@.len() <= i32::MAX && encrypted_token@.len() <= i32::MAX ==> {
                &&& r matches Ok(packet)
                &&& packet@ == (UncompressedPacketView {
                    id: 1,
                    data: encode_encryption_response(
                        EncryptionResponseView {
                            shared_secret: encrypted_secret@,
                            verify_token: encrypted_token@,
                        },
                    ),
                })
                &&& final(self).encrypted
                &&& final(self).cryptor@ == (CryptorView::Initialized {
                    encryptor: Cfb8View { key: secret@, register: secret@ },
                    decryptor: Cfb8View { key: secret@, register: secret@ },
                    inbuffer: Seq::empty(),
                })
            },
            encrypted_secret@.len() > i32::MAX || encrypted_token@.len() > i32::MAX ==> {
                &&& r == Err::<UncompressedPacket, FramingError>(FramingError::LengthTooLarge)
                &&& final(self).encrypted == old(self).encrypted
                &&& final(self).cryptor == old(self).cryptor
            },
    {
        let response = EncryptionResponse {
            shared_secret: encrypted_secret,
            verify_token: encrypted_token,
        };
        match response.to_packet() {
            Ok(packet) => {
                // enable encryption
                self.encrypted = true;
                self.cryptor = Cryptor::new(secret.as_slice());
                Ok(packet)
            },
            Err(e) => Err(e),
        }
    }
}

} // verus!
