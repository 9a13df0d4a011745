//! The protocol state of a connection, and the handshake that opens it.

use crate::error::{FramingError, ProtocolError};
use crate::io::{ProtocolReadExt, ProtocolWriteExt};
use crate::packet::{UncompressedPacket, UncompressedPacketView, MAX_PACKET_LENGTH};
use crate::varint::{decode_var_int, encode_var_int, lemma_var_int_round_trip};
use crate::wire::{
    be_bytes, be_value, encode_string, lemma_be_value_of_bytes, lemma_string_round_trip,
    parse_fixed, parse_string, pow256,
};
use vstd::prelude::*;
use vstd::utf8::encode_utf8;

verus! {

/// The protocol state.
#[derive(Clone, Copy, Debug, PartialEq, Eq, Structural)]
pub enum ProtocolState {
    /// The protocol is awaiting a handshake.
    Handshaking,
    /// The protocol is awaiting a status request.
    Status,
    /// Login state - the protocol is awaiting a login.
    Login,
    /// Play state - the protocol is connected to a server.
    Play,
}

impl Default for ProtocolState {
    fn default() -> (state: Self)
        ensures
            state == ProtocolState::Handshaking,
    {
        ProtocolState::Handshaking
    }
}

/// The number that stands for a state on the wire.
pub open spec fn state_number(state: ProtocolState) -> i32 {
    match state {
        ProtocolState::Handshaking => 0,
        ProtocolState::Status => 1,
        ProtocolState::Login => 2,
        ProtocolState::Play => 3,
    }
}

/// The state that a number stands for.
pub open spec fn state_of_number(value: i32) -> Result<ProtocolState, ProtocolError> {
    if value == 0 {
        Ok(ProtocolState::Handshaking)
    } else if value == 1 {
        Ok(ProtocolState::Status)
    } else if value == 2 {
        Ok(ProtocolState::Login)
    } else if value == 3 {
        Ok(ProtocolState::Play)
    } else {
        Err(ProtocolError::InvalidNextState(value))
    }
}

impl TryFrom<i32> for ProtocolState {
    type Error = ProtocolError;

    fn try_from(value: i32) -> (r: Result<Self, ProtocolError>) {
        match value {
            0 => Ok(ProtocolState::Handshaking),
            1 => Ok(ProtocolState::Status),
            2 => Ok(ProtocolState::Login),
            3 => Ok(ProtocolState::Play),
            _ => Err(ProtocolError::InvalidNextState(value)),
        }
    }
}

impl vstd::std_specs::convert::TryFromSpecImpl<i32> for ProtocolState {
    open spec fn obeys_try_from_spec() -> bool {
        true
    }

    open spec fn try_from_spec(value: i32) -> Result<Self, ProtocolError> {
        state_of_number(value)
    }
}

impl From<&ProtocolState> for i32 {
    fn from(protocol_state: &ProtocolState) -> (number: Self) {
        match protocol_state {
            ProtocolState::Handshaking => 0,
            ProtocolState::Status => 1,
            ProtocolState::Login => 2,
            ProtocolState::Play => 3,
        }
    }
}

impl vstd::std_specs::convert::FromSpecImpl<&ProtocolState> for i32 {
    open spec fn obeys_from_spec() -> bool {
        true
    }

    open spec fn from_spec(protocol_state: &ProtocolState) -> i32 {
        state_number(*protocol_state)
    }
}

impl From<ProtocolState> for i32 {
    fn from(protocol_state: ProtocolState) -> (number: Self) {
        match protocol_state {
            ProtocolState::Handshaking => 0,
            ProtocolState::Status => 1,
            ProtocolState::Login => 2,
            ProtocolState::Play => 3,
        }
    }
}

impl vstd::std_specs::convert::FromSpecImpl<ProtocolState> for i32 {
    open spec fn obeys_from_spec() -> bool {
        true
    }

    open spec fn from_spec(protocol_state: ProtocolState) -> i32 {
        state_number(protocol_state)
    }
}

/// A state's number stands for that state.
pub proof fn lemma_state_number_round_trip(state: ProtocolState)
    ensures
        state_of_number(state_number(state)) == Ok::<ProtocolState, ProtocolError>(state),
{
}

/// What a client's handshake asks for.
#[derive(Clone, Debug, PartialEq, Eq)]
pub struct HandshakeResult {
    /// The state the client wants to go to: status or login.
    pub next_state: ProtocolState,
    /// The virtual host the client asked for.
    pub server_address: String,
    /// The port the client connected to.
    pub server_port: u16,
    /// The client's protocol version.
    pub protocol_version: u16,
}

/// A handshake as a mathematical value.
pub struct HandshakeView {
    pub next_state: ProtocolState,
    pub server_address: Seq<char>,
    pub server_port: u16,
    pub protocol_version: u16,
}

impl View for HandshakeResult {
    type V = HandshakeView;

    open spec fn view(&self) -> HandshakeView {
        HandshakeView {
            next_state: self.next_state,
            server_address: self.server_address@,
            server_port: self.server_port,
            protocol_version: self.protocol_version,
        }
    }
}

/// The handshake that a packet holds.
///
/// The packet must have id 0. Its payload is the protocol version, the server
/// address, the server port, and the next state, which must be 1 (status) or 2
/// (login). What follows the next state is not looked at.
pub open spec fn parse_handshake(packet: UncompressedPacketView) -> Result<
    HandshakeView,
    ProtocolError,
> {
    if packet.id != 0 {
        Err(ProtocolError::InvalidPacketId(packet.id))
    } else {
        match decode_var_int(packet.data) {
            Err(e) => Err(ProtocolError::HandshakeFailed(e)),
            Ok((version, n1)) => match parse_string(
                packet.data.skip(n1 as int),
                MAX_PACKET_LENGTH as nat,
            ) {
                Err(e) => Err(ProtocolError::HandshakeFailed(e)),
                Ok((address, n2)) => match parse_fixed(packet.data.skip((n1 + n2) as int), 2) {
                    Err(e) => Err(ProtocolError::HandshakeFailed(e)),
                    Ok((port, n3)) => match decode_var_int(
                        packet.data.skip((n1 + n2 + n3) as int),
                    ) {
                        Err(e) => Err(ProtocolError::HandshakeFailed(e)),
                        Ok((next, _)) => if next != 1 && next != 2 {
                            Err(ProtocolError::InvalidNextState(next))
                        } else if version < 0 || version > 0xffff {
                            Err(ProtocolError::IllegalProtocolVersion(version))
                        } else {
                            Ok(
                                HandshakeView {
                                    next_state: if next == 1 {
                                        ProtocolState::Status
                                    } else {
                                        ProtocolState::Login
                                    },
                                    server_address: address,
                                    server_port: port as u16,
                                    protocol_version: version as u16,
                                },
                            )
                        },
                    },
                },
            },
        }
    }
}

/// The payload of a handshake packet.
pub open spec fn encode_handshake(handshake: HandshakeView) -> Seq<u8> {
    encode_var_int(handshake.protocol_version as i32) + encode_string(handshake.server_address)
        + be_bytes(handshake.server_port as nat, 2) + encode_var_int(
        state_number(handshake.next_state),
    )
}

impl HandshakeResult {
    /// Reads the handshake out of the first packet of a connection.
    pub fn parse(packet: &UncompressedPacket) -> (r: Result<HandshakeResult, ProtocolError>)
        ensures
            match parse_handshake(packet@) {
                Ok(handshake) => r matches Ok(h) && h@ == handshake,
                Err(e) => r == Err::<HandshakeResult, ProtocolError>(e),
            },
    {
        if packet.id != 0x00 {
            return Err(ProtocolError::InvalidPacketId(packet.id));
        }
        // read handshake packet data
        let mut data = packet.as_cursor();
        let ghost input = data.remaining();
        let protocol_version = match data.read_var_int() {
            Ok(v) => v,
            Err(e) => {
                return Err(ProtocolError::HandshakeFailed(e));
            },
        };
        let ghost after_version = data.remaining();
        let server_address = match data.read_string() {
            Ok(v) => v,
            Err(e) => {
                return Err(ProtocolError::HandshakeFailed(e));
            },
        };
        let ghost after_address = data.remaining();
        proof {
            let n1 = decode_var_int(input)->Ok_0.1;
            let n2 = parse_string(after_version, MAX_PACKET_LENGTH as nat)->Ok_0.1;
            assert(after_address =~= input.skip((n1 + n2) as int));
        }
        let server_port = match data.read_u16() {
            Ok(v) => v,
            Err(e) => {
                return Err(ProtocolError::HandshakeFailed(e));
            },
        };
        let ghost after_port = data.remaining();
        proof {
            let n1 = decode_var_int(input)->Ok_0.1;
            let n2 = parse_string(after_version, MAX_PACKET_LENGTH as nat)->Ok_0.1;
            assert(after_port =~= input.skip((n1 + n2 + 2) as int));
        }
        let next_state = match data.read_var_int() {
            Ok(v) => v,
            Err(e) => {
                return Err(ProtocolError::HandshakeFailed(e));
            },
        };
        // switch on next state
        let next_state = match next_state {
            1 => ProtocolState::Status,
            2 => ProtocolState::Login,
            s => {
                return Err(ProtocolError::InvalidNextState(s));
            },
        };
        if protocol_version < 0 || protocol_version > 0xffff {
            return Err(ProtocolError::IllegalProtocolVersion(protocol_version));
        }
        Ok(
            HandshakeResult {
                next_state,
                server_address,
                server_port,
                protocol_version: protocol_version as u16,
            },
        )
    }

    /// The handshake packet that says what this handshake says.
    ///
    /// Fails, with nothing made, when the address does not fit a length prefix.
    pub fn to_packet(&self) -> (r: Result<UncompressedPacket, FramingError>)
        ensures
            encode_utf8(self.server_address@).len() <= i32::MAX ==> (r matches Ok(packet)
                && packet@ == (UncompressedPacketView { id: 0, data: encode_handshake(self@) })),
            encode_utf8(self.server_address@).len() > i32::MAX ==> r == Err::<
                UncompressedPacket,
                FramingError,
            >(FramingError::LengthTooLarge),
    {
        let mut data: Vec<u8> = Vec::new();
        data.write_var_int(self.protocol_version as i32);
        match data.write_string(self.server_address.clone()) {
            Ok(()) => {},
            Err(e) => {
                return Err(e);
            },
        }
        data.write_u16(self.server_port);
        data.write_var_int(i32::from(self.next_state));
        Ok(UncompressedPacket { id: 0x00, data })
    }
}

/// A handshake that is written and read again is the same handshake: for every
/// handshake that asks for the status or the login state, and whose address
/// fits a packet.
pub proof fn lemma_handshake_round_trip(handshake: HandshakeView)
    requires
        handshake.next_state == ProtocolState::Status || handshake.next_state
            == ProtocolState::Login,
        encode_utf8(handshake.server_address).len() <= MAX_PACKET_LENGTH,
    ensures
        parse_handshake(UncompressedPacketView { id: 0, data: encode_handshake(handshake) })
            == Ok::<HandshakeView, ProtocolError>(handshake),
{
    let version = encode_var_int(handshake.protocol_version as i32);
    let address = encode_string(handshake.server_address);
    let port = be_bytes(handshake.server_port as nat, 2);
    let next = encode_var_int(state_number(handshake.next_state));
    let data = encode_handshake(handshake);
    assert(data =~= version + (address + (port + next)));
    lemma_var_int_round_trip(handshake.protocol_version as i32, address + (port + next));
    assert(data.skip(version.len() as int) =~= address + (port + next));
    lemma_string_round_trip(handshake.server_address, port + next, MAX_PACKET_LENGTH as nat);
    let after_address = data.skip((version.len() + address.len()) as int);
    assert(after_address =~= port + next);
    assert(port.len() == 2) by {
        reveal_with_fuel(be_bytes, 3);
    }
    assert(after_address.take(2) =~= port);
    assert(be_value(port) == handshake.server_port) by {
        reveal_with_fuel(pow256, 3);
        lemma_be_value_of_bytes(handshake.server_port as nat, 2);
    }
    assert(data.skip((version.len() + address.len() + 2) as int) =~= next);
    lemma_var_int_round_trip(state_number(handshake.next_state), Seq::empty());
    assert(next + Seq::<u8>::empty() =~= next);
}

} // verus!
