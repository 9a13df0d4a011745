//! The bridge between a client and an upstream server, as decisions.
//!
//! The program that owns the sockets reads bytes and hands them over; what to
//! answer, where to connect and when to close is decided here. Once a
//! connection has reached the play state nothing is parsed any more: bytes pass
//! through, by way of the cryptor where encryption was negotiated.

use crate::address::{SocketAddress, SocketAddressView};
use crate::config::{first_match, FallbackMethod, FallbackView, DEFAULT_PROTOCOL_VERSION};
use crate::cryptor::{receive, Cryptor, CryptorView};
use crate::error::{CryptoError, Error, FramingError, ProtocolError, RoutingError};
use crate::io::{ByteCursor, ProtocolReadExt, ProtocolWriteExt};
use crate::packet::{
    CompressedPacketView, Packet, UncompressedPacket, UncompressedPacketView, MAX_PACKET_LENGTH,
};
use crate::protocol::{
    encode_handshake, parse_handshake, HandshakeResult, HandshakeView, ProtocolState,
};
use crate::proxy::{selection, RouteTable};
use crate::wire::{
    encode_string, lemma_be_bytes_of_value, lemma_be_value_bound, parse_compressed, parse_fixed,
    parse_uncompressed, pow256,
};
use vstd::prelude::*;
use vstd::slice::slice_to_vec;
use vstd::utf8::encode_utf8;

verus! {

/// What is said to a client whose upstream server cannot be reached.
pub const CONNECT_FAILED: &'static str = "Failed to connect to remote server";

/// What the proxy does with a connection.
#[derive(Debug, PartialEq, Eq)]
pub enum ConnectionAction {
    /// Close the connection without a word.
    Drop,
    /// Answer the client's status exchange with this description, then close.
    Status(String),
    /// Refuse the client's login with this reason, then close.
    Disconnect(String),
    /// Connect to this upstream server.
    Connect(SocketAddress),
}

/// An action as a mathematical value.
pub enum ActionView {
    Drop,
    Status(Seq<char>),
    Disconnect(Seq<char>),
    Connect(SocketAddressView),
}

impl View for ConnectionAction {
    type V = ActionView;

    open spec fn view(&self) -> ActionView {
        match self {
            ConnectionAction::Drop => ActionView::Drop,
            ConnectionAction::Status(message) => ActionView::Status(message@),
            ConnectionAction::Disconnect(message) => ActionView::Disconnect(message@),
            ConnectionAction::Connect(target) => ActionView::Connect(target@),
        }
    }
}

/// How a message reaches a client that cannot be served: a client that asked
/// for the status gets it as a status description, a client that asked to log
/// in gets it as the reason of a disconnect.
pub open spec fn message_for(next_state: ProtocolState, message: Seq<char>) -> ActionView {
    match next_state {
        ProtocolState::Status => ActionView::Status(message),
        ProtocolState::Login => ActionView::Disconnect(message),
        _ => ActionView::Drop,
    }
}

/// The fallback policy applied to a connection that no route matches.
pub open spec fn fallback_for(fallback: FallbackView, next_state: ProtocolState) -> ActionView {
    match fallback {
        FallbackView::Drop => ActionView::Drop,
        FallbackView::Status(message) => message_for(next_state, message),
    }
}

/// Tells a client `message` in the way that fits the state it asked for.
pub fn tell(next_state: ProtocolState, message: String) -> (action: ConnectionAction)
    ensures
        action@ == message_for(next_state, message@),
{
    match next_state {
        ProtocolState::Status => ConnectionAction::Status(message),
        ProtocolState::Login => ConnectionAction::Disconnect(message),
        _ => ConnectionAction::Drop,
    }
}

/// What to do with a connection that no route matches.
pub fn fallback_action(fallback: &FallbackMethod, next_state: ProtocolState) -> (action:
    ConnectionAction)
    ensures
        action@ == fallback_for(fallback@, next_state),
{
    match fallback {
        FallbackMethod::Drop => ConnectionAction::Drop,
        FallbackMethod::Status(message) => tell(next_state, message.clone()),
    }
}

/// What to do with a connection whose upstream server cannot be reached: the
/// client is told so, and the connection ends in the ordinary way.
pub fn unreachable_action(next_state: ProtocolState) -> (action: ConnectionAction)
    ensures
        action@ == message_for(next_state, CONNECT_FAILED@),
{
    tell(next_state, CONNECT_FAILED.to_owned())
}

/// What an error means for the connection it happened on.
///
/// A connection without a route falls under the fallback policy, and a
/// connection whose upstream server cannot be reached is told so. Every other
/// error ends the connection without a word: nothing of what went wrong inside
/// is put on the wire.
pub open spec fn action_for_error(
    fallback: FallbackView,
    next_state: ProtocolState,
    error: Error,
) -> ActionView {
    match error {
        Error::Routing(_) => fallback_for(fallback, next_state),
        Error::Upstream(_) => message_for(next_state, CONNECT_FAILED@),
        _ => ActionView::Drop,
    }
}

/// What to do with a connection on which `error` has happened. `next_state` is
/// the state that the client's handshake asked for.
pub fn error_action(fallback: &FallbackMethod, next_state: ProtocolState, error: Error) -> (action:
    ConnectionAction)
    ensures
        action@ == action_for_error(fallback@, next_state, error),
{
    match error {
        Error::Routing(_) => fallback_action(fallback, next_state),
        Error::Upstream(_) => unreachable_action(next_state),
        _ => ConnectionAction::Drop,
    }
}

/// A packet to send, and whether the connection closes behind it.
#[derive(Debug, PartialEq, Eq)]
pub struct Reply {
    pub packet: UncompressedPacket,
    pub close: bool,
}

/// The answer to a packet of the status exchange.
///
/// A status request (id 0) is answered with the status document, a ping (id 1)
/// with its own eight bytes, after which the connection closes.
pub open spec fn status_reply(
    state: ProtocolState,
    packet: UncompressedPacketView,
    status: Seq<char>,
) -> Result<(UncompressedPacketView, bool), Error> {
    if state != ProtocolState::Status {
        Err(Error::Protocol(ProtocolError::InvalidPacketId(packet.id)))
    } else if packet.id == 0 {
        if encode_utf8(status).len() > i32::MAX {
            Err(Error::Framing(FramingError::LengthTooLarge))
        } else {
            Ok((UncompressedPacketView { id: 0, data: encode_string(status) }, false))
        }
    } else if packet.id == 1 {
        match parse_fixed(packet.data, 8) {
            Ok(_) => Ok((UncompressedPacketView { id: 1, data: packet.data.take(8) }, true)),
            Err(e) => Err(Error::Framing(e)),
        }
    } else {
        Err(Error::Protocol(ProtocolError::InvalidPacketId(packet.id)))
    }
}

/// The packet that refuses a login: id 0 and the reason as a string.
pub fn disconnect_packet(reason: String) -> (r: Result<UncompressedPacket, FramingError>)
    ensures
        encode_utf8(reason@).len() <= i32::MAX ==> (r matches Ok(packet) && packet@ == (
        UncompressedPacketView { id: 0, data: encode_string(reason@) })),
        encode_utf8(reason@).len() > i32::MAX ==> r == Err::<UncompressedPacket, FramingError>(
            FramingError::LengthTooLarge,
        ),
{
    let mut data: Vec<u8> = Vec::new();
    match data.write_string(reason) {
        Ok(()) => Ok(UncompressedPacket { id: 0x00, data }),
        Err(e) => Err(e),
    }
}

/// The proxy's side of the connection to a client.
#[derive(Debug)]
pub struct BridgeServer {
    /// The protocol state of the connection.
    pub state: ProtocolState,
    /// The cipher state of the connection.
    pub cryptor: Cryptor,
}

impl BridgeServer {
    /// A connection that has just been accepted.
    pub fn new() -> (server: Self)
        ensures
            server.state == ProtocolState::Handshaking,
            server.cryptor@ == CryptorView::Uninitialized,
    {
        Self { state: ProtocolState::Handshaking, cryptor: Cryptor::Uninitialized }
    }

    /// Accept a handshake packet and transition into the next state.
    ///
    /// Only a connection that is still handshaking takes a handshake. The state
    /// moves to what the handshake asks for, status or login; on an error it
    /// stays.
    pub fn handshake(&mut self, packet: &UncompressedPacket) -> (r: Result<
        HandshakeResult,
        ProtocolError,
    >)
        ensures
            final(self).cryptor == old(self).cryptor,
            old(self).state != ProtocolState::Handshaking ==> r == Err::<
                HandshakeResult,
                ProtocolError,
            >(ProtocolError::InvalidPacketId(packet.id)) && final(self).state == old(self).state,
            old(self).state == ProtocolState::Handshaking ==> match parse_handshake(packet@) {
                Ok(handshake) => r matches Ok(h) && h@ == handshake && final(self).state
                    == handshake.next_state,
                Err(e) => r == Err::<HandshakeResult, ProtocolError>(e) && final(self).state
                    == old(self).state,
            },
    {
        if self.state != ProtocolState::Handshaking {
            return Err(ProtocolError::InvalidPacketId(packet.id));
        }
        match HandshakeResult::parse(packet) {
            Ok(handshake) => {
                self.state = handshake.next_state;
                Ok(handshake)
            },
            Err(e) => Err(e),
        }
    }

    /// Answer a packet of the status exchange. `status` is the status document
    /// to send, as text. The state does not change.
    pub fn status(&self, packet: &UncompressedPacket, status: String) -> (r: Result<Reply, Error>)
        ensures
            match status_reply(self.state, packet@, status@) {
                Ok((reply, close)) => r matches Ok(x) && x.packet@ == reply && x.close == close,
                Err(e) => r == Err::<Reply, Error>(e),
            },
    {
        if self.state != ProtocolState::Status {
            return Err(Error::Protocol(ProtocolError::InvalidPacketId(packet.id)));
        }
        match packet.id {
            0x00 => {
                let mut buf: Vec<u8> = Vec::new();
                match buf.write_string(status) {
                    Ok(()) => Ok(
                        Reply { packet: UncompressedPacket { id: 0x00, data: buf }, close: false },
                    ),
                    Err(e) => Err(Error::Framing(e)),
                }
            },
            0x01 => {
                // read incoming packet data
                let mut data = packet.as_cursor();
                let payload = match data.read_u64() {
                    Ok(v) => v,
                    Err(e) => {
                        return Err(Error::Framing(e));
                    },
                };
                // write outgoing packet data
                let mut buf: Vec<u8> = Vec::new();
                buf.write_u64(payload);
                proof {
                    let nonce = packet.data@.take(8);
                    lemma_be_bytes_of_value(nonce);
                    lemma_be_value_bound(nonce);
                    assert(pow256(8) == 0x1_0000_0000_0000_0000) by {
                        reveal_with_fuel(pow256, 9);
                    }
                }
                Ok(Reply { packet: UncompressedPacket { id: 0x01, data: buf }, close: true })
            },
            _ => Err(Error::Protocol(ProtocolError::InvalidPacketId(packet.id))),
        }
    }

    /// The packet that refuses the client's login with `reason`.
    pub fn login_disconnect(&self, reason: String) -> (r: Result<UncompressedPacket, FramingError>)
        ensures
            encode_utf8(reason@).len() <= i32::MAX ==> (r matches Ok(packet) && packet@ == (
            UncompressedPacketView { id: 0, data: encode_string(reason@) })),
            encode_utf8(reason@).len() > i32::MAX ==> r == Err::<
                UncompressedPacket,
                FramingError,
            >(FramingError::LengthTooLarge),
    {
        disconnect_packet(reason)
    }
}

/// The proxy's side of the connection to an upstream server.
#[derive(Debug)]
pub struct BridgeClient {
    /// The address of the upstream server.
    pub remote_addr: SocketAddress,
    /// The cipher state of the connection.
    pub cryptor: Cryptor,
}

impl BridgeClient {
    /// The proxy's end of a connection to `remote_addr`.
    pub fn new(remote_addr: SocketAddress) -> (client: Self)
        ensures
            client.remote_addr == remote_addr,
            client.cryptor@ == CryptorView::Uninitialized,
    {
        Self { remote_addr, cryptor: Cryptor::Uninitialized }
    }

    /// The handshake packet that opens a login at the upstream server: the
    /// proxy's protocol version, and the server's own address and port.
    pub fn handshake(&self) -> (r: Result<UncompressedPacket, FramingError>)
        ensures
            encode_utf8(self.remote_addr.host@).len() <= i32::MAX ==> (r matches Ok(packet)
                && packet@ == (UncompressedPacketView {
                id: 0,
                data: encode_handshake(
                    HandshakeView {
                        next_state: ProtocolState::Login,
                        server_address: self.remote_addr.host@,
                        server_port: self.remote_addr.port,
                        protocol_version: DEFAULT_PROTOCOL_VERSION as u16,
                    },
                ),
            })),
            encode_utf8(self.remote_addr.host@).len() > i32::MAX ==> r == Err::<
                UncompressedPacket,
                FramingError,
            >(FramingError::LengthTooLarge),
    {
        let handshake = HandshakeResult {
            next_state: ProtocolState::Login,
            server_address: self.remote_addr.host.clone(),
            server_port: self.remote_addr.port,
            protocol_version: DEFAULT_PROTOCOL_VERSION as u16,
        };
        handshake.to_packet()
    }
}

/// A bridge between a client and a server.
#[derive(Debug)]
pub struct Bridge {
    /// The address of the client.
    pub client: SocketAddress,
    /// The server handling the client's packets.
    pub proxy_server: BridgeServer,
    /// The address of the upstream server.
    pub server: SocketAddress,
    /// The client handling the server's packets.
    pub proxy_client: BridgeClient,
}

impl Bridge {
    /// What to do with a connection once its handshake is read.
    ///
    /// Where the table has a route for the host that the client asked for, the
    /// route's selector picks the upstream server to connect to. Where it has
    /// none, the listener's fallback policy decides, and no selector moves.
    pub fn on_handshake(table: &mut RouteTable, handshake: &HandshakeResult) -> (action:
        ConnectionAction)
        requires
            old(table).wf(),
        ensures
            final(table).wf(),
            final(table).proxy() == old(table).proxy(),
            final(table).positions().len() == old(table).positions().len(),
            first_match(old(table).proxy().routes, handshake.server_address@) is None ==> action@
                == fallback_for(old(table).proxy().fallback_method, handshake.next_state),
            first_match(old(table).proxy().routes, handshake.server_address@) is Some
                ==> action is Connect,
            selection(
                old(table).proxy(),
                old(table).positions(),
                final(table).positions(),
                handshake.server_address@,
                match action {
                    ConnectionAction::Connect(target) => Ok(target@),
                    _ => Err(RoutingError::NoMatchingRoute),
                },
            ),
    {
        match table.select(&handshake.server_address) {
            Ok(target) => ConnectionAction::Connect(target),
            Err(_) => fallback_action(&table.config().fallback_method, handshake.next_state),
        }
    }

    /// What to do with a connection whose upstream server could not be reached.
    pub fn on_connect_failed(handshake: &HandshakeResult) -> (action: ConnectionAction)
        ensures
            action@ == message_for(handshake.next_state, CONNECT_FAILED@),
    {
        unreachable_action(handshake.next_state)
    }

    /// The bridge of a connection whose upstream server was reached.
    pub fn connected(client: SocketAddress, proxy_server: BridgeServer, server: SocketAddress) -> (bridge:
        Self)
        ensures
            bridge.client == client,
            bridge.proxy_server == proxy_server,
            bridge.server@ == server@,
            bridge.proxy_client.remote_addr@ == server@,
            bridge.proxy_client.cryptor@ == CryptorView::Uninitialized,
    {
        let proxy_client = BridgeClient::new(server.clone());
        Self { client, proxy_server, server, proxy_client }
    }
}

/// Stores the state of a client connection.
#[derive(Debug)]
pub struct ClientState {
    /// The protocol state.
    pub protocol_state: ProtocolState,
    /// Whether the connection is compressed.
    pub compressed: bool,
    /// The connection cryptor.
    pub cryptor: Cryptor,
}

/// Stores the state of a server connection.
#[derive(Clone, Copy, Debug, PartialEq, Eq, Structural)]
pub struct ServerState {
    /// The protocol state.
    pub protocol_state: ProtocolState,
    /// Whether the connection is compressed.
    pub compressed: bool,
}

/// Stores the state of a bridge, comprised of the protocol state of the client and server.
#[derive(Debug)]
pub struct BridgeState {
    /// The state of the client connection.
    pub client: ClientState,
    /// The state of the server connection.
    pub server: ServerState,
}

impl From<ProtocolState> for BridgeState {
    fn from(state: ProtocolState) -> (bridge: Self) {
        Self {
            client: ClientState {
                protocol_state: state,
                compressed: false,
                cryptor: Cryptor::Uninitialized,
            },
            server: ServerState { protocol_state: state, compressed: false },
        }
    }
}

impl vstd::std_specs::convert::FromSpecImpl<ProtocolState> for BridgeState {
    open spec fn obeys_from_spec() -> bool {
        true
    }

    open spec fn from_spec(state: ProtocolState) -> BridgeState {
        BridgeState {
            client: ClientState {
                protocol_state: state,
                compressed: false,
                cryptor: Cryptor::Uninitialized,
            },
            server: ServerState { protocol_state: state, compressed: false },
        }
    }
}

/// The id of the packet by which a server accepts a login.
pub const LOGIN_SUCCESS: i32 = 0x02;

/// The protocol state after a packet from the server has been passed on to the
/// client: the packet that accepts the login takes the connection from login
/// to play, and nothing else changes the state.
pub open spec fn state_after(state: ProtocolState, packet_id: i32) -> ProtocolState {
    if state == ProtocolState::Login && packet_id == LOGIN_SUCCESS {
        ProtocolState::Play
    } else {
        state
    }
}

/// The protocol state after a packet from the server has been passed on.
pub fn after_server_packet(state: ProtocolState, packet_id: i32) -> (next: ProtocolState)
    ensures
        next == state_after(state, packet_id),
{
    match state {
        ProtocolState::Login => if packet_id == LOGIN_SUCCESS {
            ProtocolState::Play
        } else {
            state
        },
        _ => state,
    }
}

impl BridgeState {
    /// Take note of a packet from the server that has been passed on to the
    /// client: both sides of the bridge move to the state that follows.
    pub fn on_server_packet(&mut self, packet_id: i32)
        ensures
            final(self).client.protocol_state == state_after(
                old(self).client.protocol_state,
                packet_id,
            ),
            final(self).server.protocol_state == state_after(
                old(self).server.protocol_state,
                packet_id,
            ),
            final(self).client.compressed == old(self).client.compressed,
            final(self).client.cryptor == old(self).client.cryptor,
            final(self).server.compressed == old(self).server.compressed,
    {
        self.client.protocol_state = after_server_packet(self.client.protocol_state, packet_id);
        self.server.protocol_state = after_server_packet(self.server.protocol_state, packet_id);
    }
}

/// How one direction of a bridge moves traffic.
#[derive(Clone, Copy, Debug, PartialEq, Eq, Structural)]
pub enum ForwardMode {
    /// Whole packets are read, looked at and written again.
    Packets { compressed: bool },
    /// Bytes are passed on as they come, through the cryptor where there is one.
    Raw { encrypted: bool },
}

/// How traffic is moved in a protocol state. Before the handshake is done
/// there is no bridge, and nothing to move.
pub open spec fn forward_mode_of(
    state: ProtocolState,
    compressed: bool,
    encrypted: bool,
) -> Option<ForwardMode> {
    match state {
        ProtocolState::Handshaking => None,
        ProtocolState::Status => Some(ForwardMode::Packets { compressed }),
        ProtocolState::Login => Some(ForwardMode::Packets { compressed }),
        ProtocolState::Play => Some(ForwardMode::Raw { encrypted }),
    }
}

impl ServerState {
    /// How packets from the server are moved to the client.
    pub fn forward_mode(&self) -> (mode: Option<ForwardMode>)
        ensures
            mode == forward_mode_of(self.protocol_state, self.compressed, false),
    {
        match self.protocol_state {
            ProtocolState::Handshaking => None,
            ProtocolState::Status => Some(ForwardMode::Packets { compressed: self.compressed }),
            ProtocolState::Login => Some(ForwardMode::Packets { compressed: self.compressed }),
            ProtocolState::Play => Some(ForwardMode::Raw { encrypted: false }),
        }
    }
}

impl ClientState {
    /// How packets from the client are moved to the server.
    pub fn forward_mode(&self) -> (mode: Option<ForwardMode>)
        ensures
            mode == forward_mode_of(
                self.protocol_state,
                self.compressed,
                self.cryptor@ is Initialized,
            ),
    {
        let encrypted = match &self.cryptor {
            Cryptor::Uninitialized => false,
            Cryptor::Initialized { .. } => true,
        };
        match self.protocol_state {
            ProtocolState::Handshaking => None,
            ProtocolState::Status => Some(ForwardMode::Packets { compressed: self.compressed }),
            ProtocolState::Login => Some(ForwardMode::Packets { compressed: self.compressed }),
            ProtocolState::Play => Some(ForwardMode::Raw { encrypted }),
        }
    }

    /// Handle bytes that came from the client in the play state.
    ///
    /// Without encryption the bytes are what goes on to the server. With it
    /// they are decrypted in place and gathered, and what goes on is the next
    /// whole packet, when there is one.
    pub fn play(&mut self, data: &mut [u8]) -> (r: Result<Option<Vec<u8>>, CryptoError>)
        ensures
            final(self).protocol_state == old(self).protocol_state,
            final(self).compressed == old(self).compressed,
            old(self).cryptor@ is Uninitialized ==> (r matches Ok(Some(bytes)) && bytes@ == old(data)@) && final(data)@ == old(data)@ && final(self).cryptor@ == old(self).cryptor@,
            old(self).cryptor@ is Initialized ==> {
                &&& final(self).cryptor@ == receive(old(self).cryptor@, old(data)@).0
                &&& final(data)@ == receive(old(self).cryptor@, old(data)@).1
                &&& match receive(old(self).cryptor@, old(data)@).2 {
                    Ok(Some(body)) => r matches Ok(Some(bytes)) && bytes@ == body,
                    Ok(None) => r == Ok::<Option<Vec<u8>>, CryptoError>(None),
                    Err(e) => r == Err::<Option<Vec<u8>>, CryptoError>(e),
                }
            },
    {
        match &self.cryptor {
            Cryptor::Uninitialized => Ok(Some(slice_to_vec(data))),
            Cryptor::Initialized { .. } => self.cryptor.next_packet(data),
        }
    }
}

/// The next packet at the head of what has come in so far, and the number of
/// bytes it takes; `None` while the bytes do not yet hold a whole packet.
pub open spec fn next_frame(input: Seq<u8>, compressed: bool) -> Result<
    Option<(FrameView, nat)>,
    FramingError,
> {
    if compressed {
        match parse_compressed(input, MAX_PACKET_LENGTH as nat) {
            Ok((packet, n)) => Ok(Some((FrameView::Compressed(packet), n))),
            Err(FramingError::UnexpectedEof) => Ok(None),
            Err(e) => Err(e),
        }
    } else {
        match parse_uncompressed(input, MAX_PACKET_LENGTH as nat) {
            Ok((packet, n)) => Ok(Some((FrameView::Uncompressed(packet), n))),
            Err(FramingError::UnexpectedEof) => Ok(None),
            Err(e) => Err(e),
        }
    }
}

/// A packet in either form as a mathematical value.
pub enum FrameView {
    Uncompressed(UncompressedPacketView),
    Compressed(CompressedPacketView),
}

/// The mathematical value of a packet in either form.
pub open spec fn frame_view(packet: Packet) -> FrameView {
    match packet {
        Packet::Uncompressed(p) => FrameView::Uncompressed(p@),
        Packet::Compressed(p) => FrameView::Compressed(p@),
    }
}

/// Takes the next packet off the head of `input`, the bytes that have come in
/// and are not yet dealt with. Gives the packet and the number of bytes to
/// drop, or `None` when more bytes must come first.
pub fn read_frame(input: &[u8], compressed: bool) -> (r: Result<
    Option<(Packet, usize)>,
    FramingError,
>)
    ensures
        match next_frame(input@, compressed) {
            Ok(Some((frame, n))) => r matches Ok(Some((packet, consumed))) && frame_view(packet)
                == frame && consumed == n && n <= input@.len(),
            Ok(None) => r == Ok::<Option<(Packet, usize)>, FramingError>(None),
            Err(e) => r == Err::<Option<(Packet, usize)>, FramingError>(e),
        },
{
    let mut cursor = ByteCursor::new(input);
    if compressed {
        match cursor.read_compressed_packet() {
            Ok(packet) => {
                let consumed = input.len() - cursor.remaining_len();
                Ok(Some((Packet::Compressed(packet), consumed)))
            },
            Err(FramingError::UnexpectedEof) => Ok(None),
            Err(e) => Err(e),
        }
    } else {
        match cursor.read_uncompressed_packet() {
            Ok(packet) => {
                let consumed = input.len() - cursor.remaining_len();
                Ok(Some((Packet::Uncompressed(packet), consumed)))
            },
            Err(FramingError::UnexpectedEof) => Ok(None),
            Err(e) => Err(e),
        }
    }
}

} // verus!
