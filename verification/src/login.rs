//! The packets of the login sequence.

use crate::error::{Error, FramingError, ProtocolError};
use crate::io::{ProtocolReadExt, ProtocolWriteExt};
use crate::packet::{UncompressedPacket, UncompressedPacketView, MAX_PACKET_LENGTH};
use crate::wire::{
    be_bytes, encode_prefixed, encode_string, parse_fixed, parse_prefixed, parse_string,
};
use vstd::prelude::*;
use vstd::utf8::encode_utf8;

verus! {

/// The packet by which a client starts its login.
#[derive(Debug, PartialEq, Eq)]
pub struct LoginStart {
    /// The player's name.
    pub username: String,
    /// The player's UUID.
    pub uuid: u128,
}

/// A login start as a mathematical value.
pub struct LoginStartView {
    pub username: Seq<char>,
    pub uuid: u128,
}

impl View for LoginStart {
    type V = LoginStartView;

    open spec fn view(&self) -> LoginStartView {
        LoginStartView { username: self.username@, uuid: self.uuid }
    }
}

/// The login start that a packet holds: id 0, the name, the UUID.
pub open spec fn parse_login_start(packet: UncompressedPacketView) -> Result<LoginStartView, Error> {
    if packet.id != 0 {
        Err(Error::Protocol(ProtocolError::InvalidPacketId(packet.id)))
    } else {
        match parse_string(packet.data, MAX_PACKET_LENGTH as nat) {
            Err(e) => Err(Error::Framing(e)),
            Ok((username, n)) => match parse_fixed(packet.data.skip(n as int), 16) {
                Err(e) => Err(Error::Framing(e)),
                Ok((uuid, _)) => Ok(LoginStartView { username, uuid: uuid as u128 }),
            },
        }
    }
}

/// The payload of a login start.
pub open spec fn encode_login_start(login: LoginStartView) -> Seq<u8> {
    encode_string(login.username) + be_bytes(login.uuid as nat, 16)
}

impl LoginStart {
    /// Reads a login start out of a packet.
    pub fn parse(packet: &UncompressedPacket) -> (r: Result<LoginStart, Error>)
        ensures
            match parse_login_start(packet@) {
                Ok(login) => r matches Ok(l) && l@ == login,
                Err(e) => r == Err::<LoginStart, Error>(e),
            },
    {
        if packet.id != 0x00 {
            return Err(Error::Protocol(ProtocolError::InvalidPacketId(packet.id)));
        }
        // read login info
        let mut data = packet.as_cursor();
        let username = match data.read_string() {
            Ok(v) => v,
            Err(e) => {
                return Err(Error::Framing(e));
            },
        };
        let uuid = match data.read_uuid() {
            Ok(v) => v,
            Err(e) => {
                return Err(Error::Framing(e));
            },
        };
        Ok(LoginStart { username, uuid })
    }

    /// The packet that says what this login start says.
    pub fn to_packet(&self) -> (r: Result<UncompressedPacket, FramingError>)
        ensures
            encode_utf8(self.username@).len() <= i32::MAX ==> (r matches Ok(packet) && packet@ == (
            UncompressedPacketView { id: 0, data: encode_login_start(self@) })),
            encode_utf8(self.username@).len() > i32::MAX ==> r == Err::<
                UncompressedPacket,
                FramingError,
            >(FramingError::LengthTooLarge),
    {
        let mut data: Vec<u8> = Vec::new();
        match data.write_string(self.username.clone()) {
            Ok(()) => {},
            Err(e) => {
                return Err(e);
            },
        }
        data.write_uuid(self.uuid);
        Ok(UncompressedPacket { id: 0x00, data })
    }
}

/// The packet by which a server asks for encryption.
#[derive(Debug, PartialEq, Eq)]
pub struct EncryptionRequest {
    /// The server's id.
    pub server_id: String,
    /// The server's public key, DER-encoded.
    pub public_key: Vec<u8>,
    /// The token that the client sends back encrypted.
    pub verify_token: Vec<u8>,
}

/// An encryption request as a mathematical value.
pub struct EncryptionRequestView {
    pub server_id: Seq<char>,
    pub public_key: Seq<u8>,
    pub verify_token: Seq<u8>,
}

impl View for EncryptionRequest {
    type V = EncryptionRequestView;

    open spec fn view(&self) -> EncryptionRequestView {
        EncryptionRequestView {
            server_id: self.server_id@,
            public_key: self.public_key@,
            verify_token: self.verify_token@,
        }
    }
}

/// The encryption request that a packet holds: id 1, the server id, the public
/// key behind its length, the verify token behind its length.
pub open spec fn parse_encryption_request(packet: UncompressedPacketView) -> Result<
    EncryptionRequestView,
    Error,
> {
    if packet.id != 1 {
        Err(Error::Protocol(ProtocolError::InvalidPacketId(packet.id)))
    } else {
        match parse_string(packet.data, MAX_PACKET_LENGTH as nat) {
            Err(e) => Err(Error::Framing(e)),
            Ok((server_id, n1)) => match parse_prefixed(
                packet.data.skip(n1 as int),
                MAX_PACKET_LENGTH as nat,
            ) {
                Err(e) => Err(Error::Framing(e)),
                Ok((public_key, n2)) => match parse_prefixed(
                    packet.data.skip((n1 + n2) as int),
                    MAX_PACKET_LENGTH as nat,
                ) {
                    Err(e) => Err(Error::Framing(e)),
                    Ok((verify_token, _)) => Ok(
                        EncryptionRequestView { server_id, public_key, verify_token },
                    ),
                },
            },
        }
    }
}

impl EncryptionRequest {
    /// Reads an encryption request out of a packet.
    pub fn parse(packet: &UncompressedPacket) -> (r: Result<EncryptionRequest, Error>)
        ensures
            match parse_encryption_request(packet@) {
                Ok(request) => r matches Ok(q) && q@ == request,
                Err(e) => r == Err::<EncryptionRequest, Error>(e),
            },
    {
        if packet.id != 0x01 {
            return Err(Error::Protocol(ProtocolError::InvalidPacketId(packet.id)));
        }
        let mut data = packet.as_cursor();
        let ghost input = data.remaining();
        let server_id = match data.read_string() {
            Ok(v) => v,
            Err(e) => {
                return Err(Error::Framing(e));
            },
        };
        let ghost after_id = data.remaining();
        // read public key
        let public_key = match data.read_prefixed() {
            Ok(v) => v,
            Err(e) => {
                return Err(Error::Framing(e));
            },
        };
        proof {
            let n1 = parse_string(input, MAX_PACKET_LENGTH as nat)->Ok_0.1;
            let n2 = parse_prefixed(after_id, MAX_PACKET_LENGTH as nat)->Ok_0.1;
            assert(data.remaining() =~= input.skip((n1 + n2) as int));
        }
        // read verify token
        let verify_token = match data.read_prefixed() {
            Ok(v) => v,
            Err(e) => {
                return Err(Error::Framing(e));
            },
        };
        Ok(EncryptionRequest { server_id, public_key, verify_token })
    }
}

/// The packet by which a client answers an encryption request.
#[derive(Debug, PartialEq, Eq)]
pub struct EncryptionResponse {
    /// The shared secret, encrypted under the server's public key.
    pub shared_secret: Vec<u8>,
    /// The verify token, encrypted under the server's public key.
    pub verify_token: Vec<u8>,
}

/// An encryption response as a mathematical value.
pub struct EncryptionResponseView {
    pub shared_secret: Seq<u8>,
    pub verify_token: Seq<u8>,
}

impl View for EncryptionResponse {
    type V = EncryptionResponseView;

    open spec fn view(&self) -> EncryptionResponseView {
        EncryptionResponseView {
            shared_secret: self.shared_secret@,
            verify_token: self.verify_token@,
        }
    }
}

/// The encryption response that a packet holds: id 1, the encrypted secret
/// behind its length, the encrypted token behind its length.
pub open spec fn parse_encryption_response(packet: UncompressedPacketView) -> Result<
    EncryptionResponseView,
    Error,
> {
    if packet.id != 1 {
        Err(Error::Protocol(ProtocolError::InvalidPacketId(packet.id)))
    } else {
        match parse_prefixed(packet.data, MAX_PACKET_LENGTH as nat) {
            Err(e) => Err(Error::Framing(e)),
            Ok((shared_secret, n)) => match parse_prefixed(
                packet.data.skip(n as int),
                MAX_PACKET_LENGTH as nat,
            ) {
                Err(e) => Err(Error::Framing(e)),
                Ok((verify_token, _)) => Ok(EncryptionResponseView { shared_secret, verify_token }),
            },
        }
    }
}

/// The payload of an encryption response.
pub open spec fn encode_encryption_response(response: EncryptionResponseView) -> Seq<u8> {
    encode_prefixed(response.shared_secret) + encode_prefixed(response.verify_token)
}

impl EncryptionResponse {
    /// Reads an encryption response out of a packet.
    pub fn parse(packet: &UncompressedPacket) -> (r: Result<EncryptionResponse, Error>)
        ensures
            match parse_encryption_response(packet@) {
                Ok(response) => r matches Ok(p) && p@ == response,
                Err(e) => r == Err::<EncryptionResponse, Error>(e),
            },
    {
        if packet.id != 0x01 {
            return Err(Error::Protocol(ProtocolError::InvalidPacketId(packet.id)));
        }
        let mut data = packet.as_cursor();
        let shared_secret = match data.read_prefixed() {
            Ok(v) => v,
            Err(e) => {
                return Err(Error::Framing(e));
            },
        };
        let verify_token = match data.read_prefixed() {
            Ok(v) => v,
            Err(e) => {
                return Err(Error::Framing(e));
            },
        };
        Ok(EncryptionResponse { shared_secret, verify_token })
    }

    /// The packet that says what this response says. Nothing is made when one
    /// of the two parts does not fit a length prefix.
    pub fn to_packet(&self) -> (r: Result<UncompressedPacket, FramingError>)
        ensures
            self.shared_secret@.len() <= i32::MAX && self.verify_token@.len() <= i32::MAX ==> (
            r matches Ok(packet) && packet@ == (UncompressedPacketView {
                id: 1,
                data: encode_encryption_response(self@),
            })),
            self.shared_secret@.len() > i32::MAX || self.verify_token@.len() > i32::MAX ==> r
                == Err::<UncompressedPacket, FramingError>(FramingError::LengthTooLarge),
    {
        // write encryption response packet
        let mut data: Vec<u8> = Vec::new();
        match data.write_prefixed(self.shared_secret.as_slice()) {
            Ok(()) => {},
            Err(e) => {
                return Err(e);
            },
        }
        match data.write_prefixed(self.verify_token.as_slice()) {
            Ok(()) => {},
            Err(e) => {
                return Err(e);
            },
        }
        Ok(UncompressedPacket { id: 0x01, data })
    }
}

} // verus!
