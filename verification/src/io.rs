//! Reading and writing the protocol's primitives.
//!
//! A source is a cursor over bytes in memory; a sink is a byte vector. A read
//! either succeeds and consumes exactly the bytes of the value, or fails and
//! consumes nothing.

use crate::error::FramingError;
use crate::packet::{CompressedPacket, Packet, UncompressedPacket, MAX_PACKET_LENGTH};
use crate::trusted::string_from_utf8;
use crate::varint::{
    decode_var_int, decode_var_long, encode_var_int, encode_var_long, read_var, signed32,
    var_int_length, write_var,
};
use crate::wire::{
    be_bytes, be_value, encode_compressed, encode_prefixed, encode_string, encode_uncompressed,
    lemma_pow256_monotonic, parse_bytes, parse_compressed, parse_fixed, parse_prefixed,
    parse_string, parse_uncompressed, pow256,
};
use vstd::prelude::*;
use vstd::slice::slice_to_vec;
use vstd::utf8::encode_utf8;

verus! {

/// A read position in a byte slice, with the largest length that a prefix read
/// through it may declare.
pub struct ByteCursor<'a> {
    data: &'a [u8],
    pos: usize,
    limit: usize,
}

/// What a successful read of `n` bytes leaves unread.
pub open spec fn advanced(before: Seq<u8>, after: Seq<u8>, n: nat) -> bool {
    n <= before.len() && after == before.skip(n as int)
}

/// Reading the protocol's primitives from a source.
pub trait ProtocolReadExt {
    /// The bytes not yet read.
    spec fn remaining(&self) -> Seq<u8>;

    /// The largest length a prefix may declare.
    spec fn limit(&self) -> nat;

    /// Read a byte.
    fn read_u8(&mut self) -> (r: Result<u8, FramingError>)
        ensures
            final(self).limit() == old(self).limit(),
            match parse_fixed(old(self).remaining(), 1) {
                Ok((v, n)) => r == Ok::<u8, FramingError>(v as u8) && advanced(
                    old(self).remaining(),
                    final(self).remaining(),
                    n,
                ),
                Err(e) => r == Err::<u8, FramingError>(e) && final(self).remaining() == old(self).remaining(),
            },
    ;

    /// Read a big-endian 16-bit integer.
    fn read_u16(&mut self) -> (r: Result<u16, FramingError>)
        ensures
            final(self).limit() == old(self).limit(),
            match parse_fixed(old(self).remaining(), 2) {
                Ok((v, n)) => r == Ok::<u16, FramingError>(v as u16) && advanced(
                    old(self).remaining(),
                    final(self).remaining(),
                    n,
                ),
                Err(e) => r == Err::<u16, FramingError>(e) && final(self).remaining() == old(self).remaining(),
            },
    ;

    /// Read a big-endian 64-bit integer.
    fn read_u64(&mut self) -> (r: Result<u64, FramingError>)
        ensures
            final(self).limit() == old(self).limit(),
            match parse_fixed(old(self).remaining(), 8) {
                Ok((v, n)) => r == Ok::<u64, FramingError>(v as u64) && advanced(
                    old(self).remaining(),
                    final(self).remaining(),
                    n,
                ),
                Err(e) => r == Err::<u64, FramingError>(e) && final(self).remaining() == old(self).remaining(),
            },
    ;

    /// Read a big-endian 128-bit integer.
    fn read_u128(&mut self) -> (r: Result<u128, FramingError>)
        ensures
            final(self).limit() == old(self).limit(),
            match parse_fixed(old(self).remaining(), 16) {
                Ok((v, n)) => r == Ok::<u128, FramingError>(v as u128) && advanced(
                    old(self).remaining(),
                    final(self).remaining(),
                    n,
                ),
                Err(e) => r == Err::<u128, FramingError>(e) && final(self).remaining() == old(self).remaining(),
            },
    ;

    /// Read a UUID: sixteen bytes, most significant first.
    fn read_uuid(&mut self) -> (r: Result<u128, FramingError>)
        ensures
            final(self).limit() == old(self).limit(),
            match parse_fixed(old(self).remaining(), 16) {
                Ok((v, n)) => r == Ok::<u128, FramingError>(v as u128) && advanced(
                    old(self).remaining(),
                    final(self).remaining(),
                    n,
                ),
                Err(e) => r == Err::<u128, FramingError>(e) && final(self).remaining() == old(self).remaining(),
            },
    ;

    /// Read exactly `count` bytes.
    fn read_exact(&mut self, count: usize) -> (r: Result<Vec<u8>, FramingError>)
        ensures
            final(self).limit() == old(self).limit(),
            match parse_bytes(old(self).remaining(), count as nat) {
                Ok((v, n)) => r matches Ok(bytes) && bytes@ == v && advanced(
                    old(self).remaining(),
                    final(self).remaining(),
                    n,
                ),
                Err(e) => r == Err::<Vec<u8>, FramingError>(e) && final(self).remaining() == old(self).remaining(),
            },
    ;

    /// Read a var int.
    fn read_var_int(&mut self) -> (r: Result<i32, FramingError>)
        ensures
            final(self).limit() == old(self).limit(),
            match decode_var_int(old(self).remaining()) {
                Ok((v, n)) => r == Ok::<i32, FramingError>(v) && advanced(
                    old(self).remaining(),
                    final(self).remaining(),
                    n,
                ),
                Err(e) => r == Err::<i32, FramingError>(e) && final(self).remaining() == old(self).remaining(),
            },
    ;

    /// Read a var long.
    fn read_var_long(&mut self) -> (r: Result<u64, FramingError>)
        ensures
            final(self).limit() == old(self).limit(),
            match decode_var_long(old(self).remaining()) {
                Ok((v, n)) => r == Ok::<u64, FramingError>(v) && advanced(
                    old(self).remaining(),
                    final(self).remaining(),
                    n,
                ),
                Err(e) => r == Err::<u64, FramingError>(e) && final(self).remaining() == old(self).remaining(),
            },
    ;

    /// Read a run of bytes behind its length.
    fn read_prefixed(&mut self) -> (r: Result<Vec<u8>, FramingError>)
        ensures
            final(self).limit() == old(self).limit(),
            match parse_prefixed(old(self).remaining(), old(self).limit()) {
                Ok((v, n)) => r matches Ok(bytes) && bytes@ == v && advanced(
                    old(self).remaining(),
                    final(self).remaining(),
                    n,
                ),
                Err(e) => r == Err::<Vec<u8>, FramingError>(e) && final(self).remaining() == old(self).remaining(),
            },
    ;

    /// Read a string.
    fn read_string(&mut self) -> (r: Result<String, FramingError>)
        ensures
            final(self).limit() == old(self).limit(),
            match parse_string(old(self).remaining(), old(self).limit()) {
                Ok((v, n)) => r matches Ok(s) && s@ == v && advanced(
                    old(self).remaining(),
                    final(self).remaining(),
                    n,
                ),
                Err(e) => r == Err::<String, FramingError>(e) && final(self).remaining() == old(self).remaining(),
            },
    ;

    /// Read an [`UncompressedPacket`].
    fn read_uncompressed_packet(&mut self) -> (r: Result<UncompressedPacket, FramingError>)
        ensures
            final(self).limit() == old(self).limit(),
            match parse_uncompressed(old(self).remaining(), old(self).limit()) {
                Ok((v, n)) => r matches Ok(packet) && packet@ == v && advanced(
                    old(self).remaining(),
                    final(self).remaining(),
                    n,
                ),
                Err(e) => r == Err::<UncompressedPacket, FramingError>(e) && final(self).remaining() == old(self).remaining(),
            },
    ;

    /// Read a [`CompressedPacket`]. This does not decompress the packet.
    fn read_compressed_packet(&mut self) -> (r: Result<CompressedPacket, FramingError>)
        ensures
            final(self).limit() == old(self).limit(),
            match parse_compressed(old(self).remaining(), old(self).limit()) {
                Ok((v, n)) => r matches Ok(packet) && packet@ == v && advanced(
                    old(self).remaining(),
                    final(self).remaining(),
                    n,
                ),
                Err(e) => r == Err::<CompressedPacket, FramingError>(e) && final(self).remaining() == old(self).remaining(),
            },
    ;
}

/// Writing the protocol's primitives to a sink.
pub trait ProtocolWriteExt {
    /// The bytes written so far.
    spec fn written(&self) -> Seq<u8>;

    /// Write a byte.
    fn write_u8(&mut self, value: u8)
        ensures
            final(self).written() == old(self).written() + be_bytes(value as nat, 1),
    ;

    /// Write a 16-bit integer, most significant byte first.
    fn write_u16(&mut self, value: u16)
        ensures
            final(self).written() == old(self).written() + be_bytes(value as nat, 2),
    ;

    /// Write a 64-bit integer, most significant byte first.
    fn write_u64(&mut self, value: u64)
        ensures
            final(self).written() == old(self).written() + be_bytes(value as nat, 8),
    ;

    /// Write a 128-bit integer, most significant byte first.
    fn write_u128(&mut self, value: u128)
        ensures
            final(self).written() == old(self).written() + be_bytes(value as nat, 16),
    ;

    /// Write a UUID: sixteen bytes, most significant first.
    fn write_uuid(&mut self, value: u128)
        ensures
            final(self).written() == old(self).written() + be_bytes(value as nat, 16),
    ;

    /// Write raw bytes.
    fn write_all(&mut self, bytes: &[u8])
        ensures
            final(self).written() == old(self).written() + bytes@,
    ;

    /// Write a var int.
    fn write_var_int(&mut self, value: i32)
        ensures
            final(self).written() == old(self).written() + encode_var_int(value),
    ;

    /// Write a var long.
    fn write_var_long(&mut self, value: i64)
        ensures
            final(self).written() == old(self).written() + encode_var_long(value),
    ;

    /// Write a run of bytes behind its length. Nothing is written when the
    /// length does not fit a var int.
    fn write_prefixed(&mut self, bytes: &[u8]) -> (r: Result<(), FramingError>)
        ensures
            bytes@.len() <= i32::MAX ==> r is Ok && final(self).written() == old(self).written()
                + encode_prefixed(bytes@),
            bytes@.len() > i32::MAX ==> r == Err::<(), FramingError>(FramingError::LengthTooLarge)
                && final(self).written() == old(self).written(),
    ;

    /// Write a string. Nothing is written when its length does not fit a var int.
    fn write_string(&mut self, value: String) -> (r: Result<(), FramingError>)
        ensures
            encode_utf8(value@).len() <= i32::MAX ==> r is Ok && final(self).written() == old(self).written() + encode_string(value@),
            encode_utf8(value@).len() > i32::MAX ==> r == Err::<(), FramingError>(
                FramingError::LengthTooLarge,
            ) && final(self).written() == old(self).written(),
    ;

    /// Write an [`UncompressedPacket`]: its length, its id and its payload.
    /// Nothing is written when the length does not fit a var int.
    fn write_uncompressed_packet(&mut self, packet: &UncompressedPacket) -> (r: Result<
        (),
        FramingError,
    >)
        ensures
            encode_var_int(packet.id).len() + packet.data@.len() <= i32::MAX ==> r is Ok && final(self).written() == old(self).written() + encode_uncompressed(packet@),
            encode_var_int(packet.id).len() + packet.data@.len() > i32::MAX ==> r == Err::<
                (),
                FramingError,
            >(FramingError::LengthTooLarge) && final(self).written() == old(self).written(),
    ;

    /// Write a [`CompressedPacket`]: its two lengths as they stand, then its body.
    fn write_compressed_packet(&mut self, packet: &CompressedPacket)
        ensures
            final(self).written() == old(self).written() + encode_compressed(packet@),
    ;

    /// Write a [`Packet`] in the form it has.
    fn write_packet(&mut self, packet: &Packet) -> (r: Result<(), FramingError>)
        ensures
            match packet {
                Packet::Uncompressed(p) => {
                    &&& encode_var_int(p.id).len() + p.data@.len() <= i32::MAX ==> r is Ok
                        && final(self).written() == old(self).written() + encode_uncompressed(
                        p@,
                    )
                    &&& encode_var_int(p.id).len() + p.data@.len() > i32::MAX ==> r == Err::<
                        (),
                        FramingError,
                    >(FramingError::LengthTooLarge) && final(self).written() == old(self).written()
                },
                Packet::Compressed(p) => r is Ok && final(self).written() == old(self).written()
                    + encode_compressed(p@),
            },
    ;
}

/// The signed value whose bit pattern is the low 32 bits of `raw`.
fn low_32_signed(raw: u128) -> (v: i32)
    ensures
        v == signed32(raw as nat),
{
    let low: u128 = raw % 0x1_0000_0000;
    if low < 0x8000_0000 {
        low as i32
    } else {
        (low as i64 - 0x1_0000_0000) as i32
    }
}

/// The number that `width` bytes of `bytes` from `start` on spell, big-endian.
fn read_be(bytes: &[u8], start: usize, width: usize) -> (v: u128)
    requires
        start + width <= bytes@.len(),
        width <= 16,
    ensures
        v == be_value(bytes@.subrange(start as int, start + width)),
        v < pow256(width as nat),
{
    let total: usize = bytes.len();
    let mut value: u128 = 0;
    let mut i: usize = 0;
    while i < width
        invariant
            i <= width <= 16,
            start + width <= bytes@.len(),
            total == bytes@.len(),
            value == be_value(bytes@.subrange(start as int, start + i)),
            value < pow256(i as nat),
        decreases width - i,
    {
        let byte = bytes[start + i];
        proof {
            let done = bytes@.subrange(start as int, start + i);
            let next = bytes@.subrange(start as int, start + i + 1);
            assert(next.drop_last() =~= done);
            assert(next.last() == byte);
            assert(pow256(i as nat) <= pow256(15)) by {
                lemma_pow256_monotonic(i as nat, 15);
            }
            assert(pow256(15) == 0x1_0000_0000_0000_0000_0000_0000_0000_00) by {
                reveal_with_fuel(pow256, 16);
            }
        }
        value = value * 256 + byte as u128;
        i = i + 1;
    }
    value
}

/// Appends the low `width` bytes of `value`, most significant first.
fn write_be(sink: &mut Vec<u8>, value: u128, width: usize)
    ensures
        final(sink)@ == old(sink)@ + be_bytes(value as nat, width as nat),
    decreases width,
{
    if width > 0 {
        write_be(sink, value / 256, width - 1);
        sink.push((value % 256) as u8);
        assert(sink@ =~= old(sink)@ + be_bytes(value as nat, width as nat));
    } else {
        assert(sink@ =~= old(sink)@ + be_bytes(value as nat, width as nat));
    }
}

impl<'a> ByteCursor<'a> {
    #[verifier::type_invariant]
    spec fn well_formed(self) -> bool {
        self.pos <= self.data@.len()
    }

    /// A cursor at the start of `data` that accepts declared lengths up to
    /// [`MAX_PACKET_LENGTH`].
    pub fn new(data: &'a [u8]) -> (cursor: Self)
        ensures
            cursor.remaining() == data@,
            cursor.limit() == MAX_PACKET_LENGTH,
    {
        ByteCursor { data, pos: 0, limit: MAX_PACKET_LENGTH }
    }

    /// A cursor at the start of `data` that accepts declared lengths up to `limit`.
    pub fn with_limit(data: &'a [u8], limit: usize) -> (cursor: Self)
        ensures
            cursor.remaining() == data@,
            cursor.limit() == limit,
    {
        ByteCursor { data, pos: 0, limit }
    }

    /// The number of bytes not yet read.
    pub fn remaining_len(&self) -> (n: usize)
        ensures
            n == self.remaining().len(),
    {
        proof {
            use_type_invariant(self);
        }
        self.data.len() - self.pos
    }

    /// Reads a fixed-width big-endian integer of `width` bytes.
    fn read_fixed(&mut self, width: usize) -> (r: Result<u128, FramingError>)
        requires
            width <= 16,
        ensures
            final(self).limit() == old(self).limit(),
            match parse_fixed(old(self).remaining(), width as nat) {
                Ok((v, n)) => r == Ok::<u128, FramingError>(v as u128) && v < pow256(
                    width as nat,
                ) && advanced(old(self).remaining(), final(self).remaining(), n),
                Err(e) => r == Err::<u128, FramingError>(e) && final(self).remaining() == old(self).remaining(),
            },
    {
        proof {
            use_type_invariant(&*self);
        }
        if self.data.len() - self.pos < width {
            return Err(FramingError::UnexpectedEof);
        }
        let value = read_be(self.data, self.pos, width);
        proof {
            assert(old(self).remaining().take(width as int) =~= self.data@.subrange(
                self.pos as int,
                self.pos + width,
            ));
            assert(self.data@.skip(self.pos + width) =~= old(self).remaining().skip(width as int));
        }
        self.pos = self.pos + width;
        Ok(value)
    }

    /// Reads a length prefix and the bytes behind it without moving the cursor.
    /// Gives the bytes and the position just past them.
    fn peek_prefixed(&self) -> (r: Result<(Vec<u8>, usize), FramingError>)
        ensures
            match parse_prefixed(self.remaining(), self.limit()) {
                Ok((v, n)) => r matches Ok((bytes, next)) && bytes@ == v && next == self.pos + n
                    && next <= self.data@.len(),
                Err(e) => r == Err::<(Vec<u8>, usize), FramingError>(e),
            },
    {
        proof {
            use_type_invariant(self);
        }
        match read_var(self.data, self.pos, 5, 6) {
            Err(e) => Err(e),
            Ok((raw, start)) => {
                let declared = low_32_signed(raw);
                if declared < 0 || declared as usize > self.limit {
                    return Err(FramingError::LengthTooLarge);
                }
                let len = declared as usize;
                if self.data.len() - start < len {
                    return Err(FramingError::UnexpectedEof);
                }
                let bytes = slice_to_vec(&self.data[start..start + len]);
                proof {
                    let n = start - self.pos;
                    assert(self.data@.skip(start as int) =~= self.remaining().skip(n));
                    assert(self.remaining().skip(n).take(len as int) =~= bytes@);
                }
                Ok((bytes, start + len))
            },
        }
    }
}

impl<'a> ProtocolReadExt for ByteCursor<'a> {
    closed spec fn remaining(&self) -> Seq<u8> {
        self.data@.skip(self.pos as int)
    }

    closed spec fn limit(&self) -> nat {
        self.limit as nat
    }

    fn read_u8(&mut self) -> (r: Result<u8, FramingError>) {
        match self.read_fixed(1) {
            Ok(v) => {
                assert(pow256(1) == 256) by {
                    reveal_with_fuel(pow256, 2);
                }
                Ok(v as u8)
            },
            Err(e) => Err(e),
        }
    }

    fn read_u16(&mut self) -> (r: Result<u16, FramingError>) {
        match self.read_fixed(2) {
            Ok(v) => {
                assert(pow256(2) == 0x1_0000) by {
                    reveal_with_fuel(pow256, 3);
                }
                Ok(v as u16)
            },
            Err(e) => Err(e),
        }
    }

    fn read_u64(&mut self) -> (r: Result<u64, FramingError>) {
        match self.read_fixed(8) {
            Ok(v) => {
                assert(pow256(8) == 0x1_0000_0000_0000_0000) by {
                    reveal_with_fuel(pow256, 9);
                }
                Ok(v as u64)
            },
            Err(e) => Err(e),
        }
    }

    fn read_u128(&mut self) -> (r: Result<u128, FramingError>) {
        self.read_fixed(16)
    }

    fn read_uuid(&mut self) -> (r: Result<u128, FramingError>) {
        self.read_fixed(16)
    }

    fn read_exact(&mut self, count: usize) -> (r: Result<Vec<u8>, FramingError>) {
        proof {
            use_type_invariant(&*self);
        }
        if self.data.len() - self.pos < count {
            return Err(FramingError::UnexpectedEof);
        }
        let bytes = slice_to_vec(&self.data[self.pos..self.pos + count]);
        proof {
            assert(old(self).remaining().take(count as int) =~= bytes@);
            assert(self.data@.skip(self.pos + count) =~= old(self).remaining().skip(count as int));
        }
        self.pos = self.pos + count;
        Ok(bytes)
    }

    fn read_var_int(&mut self) -> (r: Result<i32, FramingError>) {
        proof {
            use_type_invariant(&*self);
        }
        match read_var(self.data, self.pos, 5, 6) {
            Err(e) => Err(e),
            Ok((raw, next)) => {
                proof {
                    let n = next - self.pos;
                    assert(self.data@.skip(next as int) =~= old(self).remaining().skip(n));
                }
                self.pos = next;
                Ok(low_32_signed(raw))
            },
        }
    }

    fn read_var_long(&mut self) -> (r: Result<u64, FramingError>) {
        proof {
            use_type_invariant(&*self);
        }
        match read_var(self.data, self.pos, 10, 10) {
            Err(e) => Err(e),
            Ok((raw, next)) => {
                proof {
                    let n = next - self.pos;
                    assert(self.data@.skip(next as int) =~= old(self).remaining().skip(n));
                }
                self.pos = next;
                Ok((raw % 0x1_0000_0000_0000_0000) as u64)
            },
        }
    }

    fn read_prefixed(&mut self) -> (r: Result<Vec<u8>, FramingError>) {
        proof {
            use_type_invariant(&*self);
        }
        match self.peek_prefixed() {
            Err(e) => Err(e),
            Ok((bytes, next)) => {
                proof {
                    let n = next - self.pos;
                    assert(self.data@.skip(next as int) =~= old(self).remaining().skip(n));
                }
                self.pos = next;
                Ok(bytes)
            },
        }
    }

    fn read_string(&mut self) -> (r: Result<String, FramingError>) {
        proof {
            use_type_invariant(&*self);
        }
        match self.peek_prefixed() {
            Err(e) => Err(e),
            Ok((bytes, next)) => match string_from_utf8(bytes) {
                Ok(s) => {
                    proof {
                        let n = next - self.pos;
                        assert(self.data@.skip(next as int) =~= old(self).remaining().skip(n));
                    }
                    self.pos = next;
                    Ok(s)
                },
                Err(_) => Err(FramingError::InvalidUtf8),
            },
        }
    }

    fn read_uncompressed_packet(&mut self) -> (r: Result<UncompressedPacket, FramingError>) {
        proof {
            use_type_invariant(&*self);
        }
        let ghost input = self.remaining();
        let (length, after_length) = match read_var(self.data, self.pos, 5, 6) {
            Err(e) => {
                return Err(e);
            },
            Ok((raw, next)) => (low_32_signed(raw), next),
        };
        if length == 0 {
            return Err(FramingError::EmptyPacket);
        }
        if length < 0 || length as usize > self.limit {
            return Err(FramingError::LengthTooLarge);
        }
        let length = length as usize;
        let ghost n1 = after_length - self.pos;
        assert(self.data@.skip(after_length as int) =~= input.skip(n1));
        // read packet id and compute data length
        let (id, after_id) = match read_var(self.data, after_length, 5, 6) {
            Err(e) => {
                return Err(e);
            },
            Ok((raw, next)) => (low_32_signed(raw), next),
        };
        let id_length = var_int_length(id);
        if id_length > length {
            return Err(FramingError::UnexpectedEof);
        }
        let data_length = length - id_length;
        // read data
        if self.data.len() - after_id < data_length {
            return Err(FramingError::UnexpectedEof);
        }
        let data = slice_to_vec(&self.data[after_id..after_id + data_length]);
        proof {
            let n2 = after_id - after_length;
            assert(input.skip(n1 + n2).take(data_length as int) =~= data@);
            assert(self.data@.skip(after_id + data_length) =~= input.skip(
                n1 + n2 + data_length,
            ));
        }
        self.pos = after_id + data_length;
        Ok(UncompressedPacket { id, data })
    }

    fn read_compressed_packet(&mut self) -> (r: Result<CompressedPacket, FramingError>) {
        proof {
            use_type_invariant(&*self);
        }
        let ghost input = self.remaining();
        let (packet_length, after_length) = match read_var(self.data, self.pos, 5, 6) {
            Err(e) => {
                return Err(e);
            },
            Ok((raw, next)) => (low_32_signed(raw), next),
        };
        if packet_length == 0 {
            return Err(FramingError::EmptyPacket);
        }
        if packet_length < 0 || packet_length as usize > self.limit {
            return Err(FramingError::LengthTooLarge);
        }
        let ghost n1 = after_length - self.pos;
        assert(self.data@.skip(after_length as int) =~= input.skip(n1));
        let (data_length, after_data_length) = match read_var(self.data, after_length, 5, 6) {
            Err(e) => {
                return Err(e);
            },
            Ok((raw, next)) => (low_32_signed(raw), next),
        };
        if data_length < 0 || data_length as usize > self.limit {
            return Err(FramingError::LengthTooLarge);
        }
        // read compressed data
        let body_length = if data_length == 0 {
            packet_length as usize - 1
        } else {
            data_length as usize
        };
        if self.data.len() - after_data_length < body_length {
            return Err(FramingError::UnexpectedEof);
        }
        let compressed_data = slice_to_vec(
            &self.data[after_data_length..after_data_length + body_length],
        );
        proof {
            let n2 = after_data_length - after_length;
            assert(input.skip(n1 + n2).take(body_length as int) =~= compressed_data@);
            assert(self.data@.skip(after_data_length + body_length) =~= input.skip(
                n1 + n2 + body_length,
            ));
        }
        self.pos = after_data_length + body_length;
        Ok(CompressedPacket { packet_length, data_length, compressed_data })
    }
}

impl ProtocolWriteExt for Vec<u8> {
    open spec fn written(&self) -> Seq<u8> {
        self@
    }

    fn write_u8(&mut self, value: u8) {
        write_be(self, value as u128, 1);
    }

    fn write_u16(&mut self, value: u16) {
        write_be(self, value as u128, 2);
    }

    fn write_u64(&mut self, value: u64) {
        write_be(self, value as u128, 8);
    }

    fn write_u128(&mut self, value: u128) {
        write_be(self, value, 16);
    }

    fn write_uuid(&mut self, value: u128) {
        write_be(self, value, 16);
    }

    fn write_all(&mut self, bytes: &[u8]) {
        self.extend_from_slice(bytes);
        assert(self@ =~= old(self)@ + bytes@);
    }

    fn write_var_int(&mut self, value: i32) {
        let pattern: u32 = value as u32;
        assert((value >= 0 ==> pattern as int == value as int) && (value < 0 ==> pattern as int
            == value as int + 0x1_0000_0000)) by (bit_vector)
            requires
                pattern == value as u32,
        ;
        write_var(self, pattern as u64);
    }

    fn write_var_long(&mut self, value: i64) {
        let pattern: u64 = value as u64;
        assert((value >= 0 ==> pattern as int == value as int) && (value < 0 ==> pattern as int
            == value as int + 0x1_0000_0000_0000_0000)) by (bit_vector)
            requires
                pattern == value as u64,
        ;
        write_var(self, pattern);
    }

    fn write_prefixed(&mut self, bytes: &[u8]) -> (r: Result<(), FramingError>) {
        if bytes.len() > i32::MAX as usize {
            return Err(FramingError::LengthTooLarge);
        }
        write_var(self, bytes.len() as u64);
        self.write_all(bytes);
        assert(self@ =~= old(self)@ + encode_prefixed(bytes@));
        Ok(())
    }

    fn write_string(&mut self, value: String) -> (r: Result<(), FramingError>) {
        let bytes = value.as_str().as_bytes();
        self.write_prefixed(bytes)
    }

    fn write_uncompressed_packet(&mut self, packet: &UncompressedPacket) -> (r: Result<
        (),
        FramingError,
    >) {
        let id_length = var_int_length(packet.id);
        if packet.data.len() > i32::MAX as usize - id_length {
            return Err(FramingError::LengthTooLarge);
        }
        write_var(self, (packet.data.len() + id_length) as u64);
        self.write_var_int(packet.id);
        self.write_all(packet.data.as_slice());
        assert(self@ =~= old(self)@ + encode_uncompressed(packet@));
        Ok(())
    }

    fn write_compressed_packet(&mut self, packet: &CompressedPacket) {
        self.write_var_int(packet.packet_length);
        self.write_var_int(packet.data_length);
        self.write_all(packet.compressed_data.as_slice());
        assert(self@ =~= old(self)@ + encode_compressed(packet@));
    }

    fn write_packet(&mut self, packet: &Packet) -> (r: Result<(), FramingError>) {
        match packet {
            Packet::Uncompressed(packet) => self.write_uncompressed_packet(packet),
            Packet::Compressed(packet) => {
                self.write_compressed_packet(packet);
                Ok(())
            },
        }
    }
}

} // verus!
