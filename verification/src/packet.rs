//! Packets: an id and a payload, bare or inside a compression envelope.

use crate::error::FramingError;
use crate::io::{ByteCursor, ProtocolReadExt, ProtocolWriteExt};
use crate::trusted::{inflate_zlib, zlib_inflate};
use crate::wire::{encode_body, encode_compressed, parse_body};
use vstd::prelude::*;

verus! {

/// The largest frame the protocol allows: what three length bytes can declare.
pub const MAX_PACKET_LENGTH: usize = 2_097_151;

/// An uncompressed packet.
#[derive(Clone, Debug, PartialEq, Eq)]
pub struct UncompressedPacket {
    /// The packet id.
    pub id: i32,
    /// The packet data.
    pub data: Vec<u8>,
}

/// An uncompressed packet as a mathematical value.
pub struct UncompressedPacketView {
    pub id: i32,
    pub data: Seq<u8>,
}

impl View for UncompressedPacket {
    type V = UncompressedPacketView;

    open spec fn view(&self) -> UncompressedPacketView {
        UncompressedPacketView { id: self.id, data: self.data@ }
    }
}

/// A compression envelope, with its body as it came off the wire.
#[derive(Clone, Debug, PartialEq, Eq)]
pub struct CompressedPacket {
    /// The length of the packet.
    pub packet_length: i32,
    /// The number of body bytes that follow when the body is compressed, or
    /// zero when the body is not compressed and fills the rest of the packet.
    pub data_length: i32,
    /// The body: a zlib stream, or the packet verbatim when `data_length` is zero.
    pub compressed_data: Vec<u8>,
}

/// A compression envelope as a mathematical value.
pub struct CompressedPacketView {
    pub packet_length: i32,
    pub data_length: i32,
    pub compressed_data: Seq<u8>,
}

impl View for CompressedPacket {
    type V = CompressedPacketView;

    open spec fn view(&self) -> CompressedPacketView {
        CompressedPacketView {
            packet_length: self.packet_length,
            data_length: self.data_length,
            compressed_data: self.compressed_data@,
        }
    }
}

/// A packet, which may be compressed or uncompressed.
#[derive(Clone, Debug, PartialEq, Eq)]
pub enum Packet {
    /// An uncompressed packet.
    Uncompressed(UncompressedPacket),
    /// A compressed packet.
    Compressed(CompressedPacket),
}

/// The body that an envelope stands for, before it is split into id and payload.
///
/// With `data_length` zero the body is carried as it is. Otherwise it is a zlib
/// stream, which is inflated as long as what comes out stays within `limit`
/// bytes.
pub open spec fn decompressed_body(packet: CompressedPacketView, limit: nat) -> Result<
    Seq<u8>,
    FramingError,
> {
    if packet.data_length == 0 {
        Ok(packet.compressed_data)
    } else if packet.data_length < 0 {
        Err(FramingError::LengthTooLarge)
    } else {
        match zlib_inflate(packet.compressed_data, limit) {
            Some(body) => Ok(body),
            None => Err(FramingError::InflateFailed),
        }
    }
}

/// The packet that an envelope stands for when its body may inflate to `limit` bytes.
pub open spec fn decompressed_within(packet: CompressedPacketView, limit: nat) -> Result<
    UncompressedPacketView,
    FramingError,
> {
    match decompressed_body(packet, limit) {
        Ok(body) => parse_body(body),
        Err(e) => Err(e),
    }
}

/// The packet that an envelope stands for: its body may inflate to the
/// largest packet that the protocol allows.
pub open spec fn decompressed(packet: CompressedPacketView) -> Result<
    UncompressedPacketView,
    FramingError,
> {
    decompressed_within(packet, MAX_PACKET_LENGTH as nat)
}

impl UncompressedPacket {
    /// Returns a cursor over the packet data.
    pub fn as_cursor(&self) -> (cursor: ByteCursor<'_>)
        ensures
            cursor.remaining() == self.data@,
            cursor.limit() == MAX_PACKET_LENGTH,
    {
        ByteCursor::new(self.data.as_slice())
    }

    /// Splits a packet body into the id at its head and the payload behind it.
    pub fn from_body(body: Vec<u8>) -> (r: Result<UncompressedPacket, FramingError>)
        ensures
            match parse_body(body@) {
                Ok(packet) => r matches Ok(p) && p@ == packet,
                Err(e) => r == Err::<UncompressedPacket, FramingError>(e),
            },
    {
        let mut body = body;
        let ghost whole = body@;
        let mut cursor = ByteCursor::new(body.as_slice());
        let id = match cursor.read_var_int() {
            Ok(id) => id,
            Err(e) => {
                return Err(e);
            },
        };
        let id_length = body.len() - cursor.remaining_len();
        // remove packet id from data
        let data = body.split_off(id_length);
        assert(data@ =~= whole.skip(id_length as int));
        Ok(UncompressedPacket { id, data })
    }

    /// Consumes the packet and returns its raw bytes: the id, then the payload.
    pub fn into_raw(self) -> (raw: Vec<u8>)
        ensures
            raw@ == encode_body(self@),
    {
        let mut raw: Vec<u8> = Vec::new();
        raw.write_var_int(self.id);
        raw.write_all(self.data.as_slice());
        raw
    }

    /// An uncompressed packet is its own decompression.
    pub fn decompress(self) -> (r: Result<UncompressedPacket, FramingError>)
        ensures
            r == Ok::<UncompressedPacket, FramingError>(self),
    {
        Ok(self)
    }
}

impl CompressedPacket {
    /// Decompresses the packet.
    ///
    /// The body is inflated only when `data_length` says it is compressed, and
    /// never to more than [`MAX_PACKET_LENGTH`] bytes. The id is then read off
    /// the head of the body and what is left is the payload.
    pub fn decompress(self) -> (r: Result<UncompressedPacket, FramingError>)
        ensures
            match decompressed(self@) {
                Ok(packet) => r matches Ok(p) && p@ == packet,
                Err(e) => r == Err::<UncompressedPacket, FramingError>(e),
            },
            self.data_length != 0 ==> (r matches Ok(p) ==> p.data@.len() < MAX_PACKET_LENGTH),
    {
        self.decompress_within(MAX_PACKET_LENGTH)
    }

    /// Decompresses the packet, with `limit` as the most bytes that a
    /// compressed body may inflate to.
    pub fn decompress_within(self, limit: usize) -> (r: Result<UncompressedPacket, FramingError>)
        ensures
            match decompressed_within(self@, limit as nat) {
                Ok(packet) => r matches Ok(p) && p@ == packet,
                Err(e) => r == Err::<UncompressedPacket, FramingError>(e),
            },
            self.data_length != 0 ==> (r matches Ok(p) ==> p.data@.len() < limit),
    {
        // if packet does not meet the threshold, simply spit it back out
        if self.data_length == 0 {
            UncompressedPacket::from_body(self.compressed_data)
        } else if self.data_length < 0 {
            Err(FramingError::LengthTooLarge)
        } else {
            match inflate_zlib(self.compressed_data.as_slice(), limit) {
                Ok(body) => UncompressedPacket::from_body(body),
                Err(_) => Err(FramingError::InflateFailed),
            }
        }
    }

    /// Consumes the packet and returns its raw bytes: the two lengths, then the body.
    pub fn into_raw(self) -> (raw: Vec<u8>)
        ensures
            raw@ == encode_compressed(self@),
    {
        let mut raw: Vec<u8> = Vec::new();
        raw.write_compressed_packet(&self);
        raw
    }
}

impl Packet {
    /// Decompresses the packet if it is compressed.
    pub fn decompress(self) -> (r: Result<UncompressedPacket, FramingError>)
        ensures
            match self {
                Packet::Uncompressed(packet) => r == Ok::<UncompressedPacket, FramingError>(
                    packet,
                ),
                Packet::Compressed(packet) => match decompressed(packet@) {
                    Ok(body) => r matches Ok(p) && p@ == body,
                    Err(e) => r == Err::<UncompressedPacket, FramingError>(e),
                },
            },
    {
        match self {
            Packet::Uncompressed(packet) => Ok(packet),
            Packet::Compressed(packet) => packet.decompress(),
        }
    }

    /// Consumes the packet and returns its raw bytes.
    pub fn into_raw(self) -> (raw: Vec<u8>)
        ensures
            raw@ == match self {
                Packet::Uncompressed(packet) => encode_body(packet@),
                Packet::Compressed(packet) => encode_compressed(packet@),
            },
    {
        match self {
            Packet::Uncompressed(packet) => packet.into_raw(),
            Packet::Compressed(packet) => packet.into_raw(),
        }
    }
}

} // verus!
