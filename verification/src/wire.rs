//! The wire format as mathematics: what each primitive looks like as bytes, and
//! what a reader makes of the bytes in front of it.
//!
//! A `parse_*` function takes the unread input and gives either the value at its
//! head together with the number of bytes that value takes, or the error that
//! reading it raises.

use crate::error::FramingError;
use crate::packet::{CompressedPacketView, UncompressedPacketView};
use crate::varint::{decode_var_int, encode_var, encode_var_int, lemma_var_int_round_trip};
use vstd::prelude::*;
use vstd::utf8::*;

verus! {

/// 256 to the power `k`.
pub open spec fn pow256(k: nat) -> nat
    decreases k,
{
    if k == 0 {
        1
    } else {
        256 * pow256((k - 1) as nat)
    }
}

/// The number that `bytes` spell in big-endian order.
pub open spec fn be_value(bytes: Seq<u8>) -> nat
    decreases bytes.len(),
{
    if bytes.len() == 0 {
        0
    } else {
        256 * be_value(bytes.drop_last()) + bytes.last() as nat
    }
}

/// The low `width` bytes of `v` in big-endian order.
pub open spec fn be_bytes(v: nat, width: nat) -> Seq<u8>
    decreases width,
{
    if width == 0 {
        Seq::empty()
    } else {
        be_bytes(v / 256, (width - 1) as nat).push((v % 256) as u8)
    }
}

/// A fixed-width big-endian integer of `width` bytes.
pub open spec fn parse_fixed(input: Seq<u8>, width: nat) -> Result<(nat, nat), FramingError> {
    if input.len() >= width {
        Ok((be_value(input.take(width as int)), width))
    } else {
        Err(FramingError::UnexpectedEof)
    }
}

/// A length prefix as a reader with the given limit takes it: `None` when it is
/// negative or above the limit.
pub open spec fn accepted_length(declared: i32, limit: nat) -> Option<nat> {
    if 0 <= declared <= limit {
        Some(declared as nat)
    } else {
        None
    }
}

/// Exactly `count` raw bytes.
pub open spec fn parse_bytes(input: Seq<u8>, count: nat) -> Result<(Seq<u8>, nat), FramingError> {
    if input.len() >= count {
        Ok((input.take(count as int), count))
    } else {
        Err(FramingError::UnexpectedEof)
    }
}

/// A byte run behind a variable-length prefix that gives its length.
pub open spec fn parse_prefixed(input: Seq<u8>, limit: nat) -> Result<
    (Seq<u8>, nat),
    FramingError,
> {
    match decode_var_int(input) {
        Err(e) => Err(e),
        Ok((declared, n)) => match accepted_length(declared, limit) {
            None => Err(FramingError::LengthTooLarge),
            Some(len) => match parse_bytes(input.skip(n as int), len) {
                Err(e) => Err(e),
                Ok((body, _)) => Ok((body, n + len)),
            },
        },
    }
}

/// A string: a length-prefixed run of bytes that must be valid UTF-8.
pub open spec fn parse_string(input: Seq<u8>, limit: nat) -> Result<
    (Seq<char>, nat),
    FramingError,
> {
    match parse_prefixed(input, limit) {
        Err(e) => Err(e),
        Ok((body, n)) => if valid_utf8(body) {
            Ok((decode_utf8(body), n))
        } else {
            Err(FramingError::InvalidUtf8)
        },
    }
}

/// A string on the wire: the byte length of its UTF-8 form, then that form.
pub open spec fn encode_string(value: Seq<char>) -> Seq<u8> {
    encode_var(encode_utf8(value).len()) + encode_utf8(value)
}

/// A byte run on the wire: its length, then the bytes.
pub open spec fn encode_prefixed(body: Seq<u8>) -> Seq<u8> {
    encode_var(body.len()) + body
}

/// A packet body: the packet id as a variable-length integer, then the payload.
pub open spec fn parse_body(body: Seq<u8>) -> Result<UncompressedPacketView, FramingError> {
    match decode_var_int(body) {
        Err(e) => Err(e),
        Ok((id, n)) => Ok(UncompressedPacketView { id, data: body.skip(n as int) }),
    }
}

/// A packet body on the wire: the id, then the payload.
pub open spec fn encode_body(packet: UncompressedPacketView) -> Seq<u8> {
    encode_var_int(packet.id) + packet.data
}

/// An uncompressed frame: the length `L` of what follows, the packet id, and
/// `L` less the id's canonical length bytes of payload.
///
/// `L` must be positive and within the limit, and must leave room for the id.
pub open spec fn parse_uncompressed(input: Seq<u8>, limit: nat) -> Result<
    (UncompressedPacketView, nat),
    FramingError,
> {
    match decode_var_int(input) {
        Err(e) => Err(e),
        Ok((length, n1)) => if length == 0 {
            Err(FramingError::EmptyPacket)
        } else {
            match accepted_length(length, limit) {
                None => Err(FramingError::LengthTooLarge),
                Some(length) => match decode_var_int(input.skip(n1 as int)) {
                    Err(e) => Err(e),
                    Ok((id, n2)) => {
                        let id_len = encode_var_int(id).len();
                        if id_len > length {
                            Err(FramingError::UnexpectedEof)
                        } else {
                            match parse_bytes(
                                input.skip((n1 + n2) as int),
                                (length - id_len) as nat,
                            ) {
                                Err(e) => Err(e),
                                Ok((data, n3)) => Ok(
                                    (UncompressedPacketView { id, data }, n1 + n2 + n3),
                                ),
                            }
                        }
                    },
                },
            }
        },
    }
}

/// An uncompressed frame on the wire.
pub open spec fn encode_uncompressed(packet: UncompressedPacketView) -> Seq<u8> {
    encode_var(encode_var_int(packet.id).len() + packet.data.len()) + encode_body(packet)
}

/// How many body bytes a compressed frame carries: when `data_length` is zero
/// the rest of the frame, which is `packet_length` less the one byte of
/// `data_length` itself; otherwise `data_length` bytes.
pub open spec fn compressed_body_len(packet_length: nat, data_length: nat) -> nat {
    if data_length == 0 {
        (packet_length - 1) as nat
    } else {
        data_length
    }
}

/// A compressed frame: `packet_length`, `data_length`, and the body, which is
/// taken as it stands and not inflated.
///
/// Both lengths must be within the limit, and `packet_length` positive.
pub open spec fn parse_compressed(input: Seq<u8>, limit: nat) -> Result<
    (CompressedPacketView, nat),
    FramingError,
> {
    match decode_var_int(input) {
        Err(e) => Err(e),
        Ok((packet_length, n1)) => if packet_length == 0 {
            Err(FramingError::EmptyPacket)
        } else {
            match accepted_length(packet_length, limit) {
                None => Err(FramingError::LengthTooLarge),
                Some(p_len) => match decode_var_int(input.skip(n1 as int)) {
                    Err(e) => Err(e),
                    Ok((data_length, n2)) => match accepted_length(data_length, limit) {
                        None => Err(FramingError::LengthTooLarge),
                        Some(d_len) => match parse_bytes(
                            input.skip((n1 + n2) as int),
                            compressed_body_len(p_len, d_len),
                        ) {
                            Err(e) => Err(e),
                            Ok((compressed_data, n3)) => Ok(
                                (
                                    CompressedPacketView {
                                        packet_length,
                                        data_length,
                                        compressed_data,
                                    },
                                    n1 + n2 + n3,
                                ),
                            ),
                        },
                    },
                },
            }
        },
    }
}

/// A compressed frame on the wire: the two lengths as they stand, then the body.
pub open spec fn encode_compressed(packet: CompressedPacketView) -> Seq<u8> {
    encode_var_int(packet.packet_length) + encode_var_int(packet.data_length)
        + packet.compressed_data
}

/// Powers of 256 grow with the exponent.
pub proof fn lemma_pow256_monotonic(a: nat, b: nat)
    requires
        a <= b,
    ensures
        pow256(a) <= pow256(b),
        pow256(a) >= 1,
    decreases b,
{
    if a < b {
        lemma_pow256_monotonic(a, (b - 1) as nat);
    } else if a > 0 {
        lemma_pow256_monotonic((a - 1) as nat, (a - 1) as nat);
    }
}

/// Big-endian bytes spell a number below `256^len`.
pub proof fn lemma_be_value_bound(bytes: Seq<u8>)
    ensures
        be_value(bytes) < pow256(bytes.len()),
    decreases bytes.len(),
{
    if bytes.len() > 0 {
        lemma_be_value_bound(bytes.drop_last());
    }
}

/// Writing a number in `width` bytes and reading it back gives the number,
/// provided it fits.
pub proof fn lemma_be_value_of_bytes(v: nat, width: nat)
    requires
        v < pow256(width),
    ensures
        be_value(be_bytes(v, width)) == v,
    decreases width,
{
    if width > 0 {
        lemma_be_value_of_bytes(v / 256, (width - 1) as nat);
        assert(be_bytes(v, width).drop_last() =~= be_bytes(v / 256, (width - 1) as nat));
    }
}

/// Reading big-endian bytes and writing the number back in as many bytes gives
/// the same bytes: an echoed value goes out as it came in.
pub proof fn lemma_be_bytes_of_value(bytes: Seq<u8>)
    ensures
        be_bytes(be_value(bytes), bytes.len()) == bytes,
    decreases bytes.len(),
{
    if bytes.len() > 0 {
        lemma_be_bytes_of_value(bytes.drop_last());
        assert(be_bytes(be_value(bytes), bytes.len()) =~= bytes);
    }
}

/// A prefixed byte run that fits the limit reads back as itself, whatever follows.
pub proof fn lemma_prefixed_round_trip(body: Seq<u8>, rest: Seq<u8>, limit: nat)
    requires
        body.len() <= limit,
        body.len() <= i32::MAX,
    ensures
        parse_prefixed(encode_prefixed(body) + rest, limit) == Ok::<
            (Seq<u8>, nat),
            FramingError,
        >((body, encode_prefixed(body).len())),
{
    let len = body.len() as i32;
    let prefix = encode_var_int(len);
    let all = encode_prefixed(body) + rest;
    assert(all =~= prefix + (body + rest));
    lemma_var_int_round_trip(len, body + rest);
    assert(all.skip(prefix.len() as int) =~= body + rest);
    assert((body + rest).take(body.len() as int) =~= body);
}

/// A string whose UTF-8 form fits the limit reads back as itself, whatever follows.
pub proof fn lemma_string_round_trip(value: Seq<char>, rest: Seq<u8>, limit: nat)
    requires
        encode_utf8(value).len() <= limit,
        encode_utf8(value).len() <= i32::MAX,
    ensures
        parse_string(encode_string(value) + rest, limit) == Ok::<(Seq<char>, nat), FramingError>(
            (value, encode_string(value).len()),
        ),
{
    broadcast use {encode_utf8_valid_utf8, encode_utf8_decode_utf8};

    lemma_prefixed_round_trip(encode_utf8(value), rest, limit);
}

/// A body reads back as the packet it was made from.
pub proof fn lemma_body_round_trip(packet: UncompressedPacketView)
    ensures
        parse_body(encode_body(packet)) == Ok::<UncompressedPacketView, FramingError>(packet),
{
    lemma_var_int_round_trip(packet.id, packet.data);
    let prefix = encode_var_int(packet.id);
    assert((prefix + packet.data).skip(prefix.len() as int) =~= packet.data);
}

/// Parsing a serialised packet gives the packet back and takes exactly its
/// bytes: for every id and every payload that fits the limit, whatever follows
/// the frame.
pub proof fn lemma_uncompressed_round_trip(
    packet: UncompressedPacketView,
    rest: Seq<u8>,
    limit: nat,
)
    requires
        encode_var_int(packet.id).len() + packet.data.len() <= limit,
        encode_var_int(packet.id).len() + packet.data.len() <= i32::MAX,
    ensures
        parse_uncompressed(encode_uncompressed(packet) + rest, limit) == Ok::<
            (UncompressedPacketView, nat),
            FramingError,
        >((packet, encode_uncompressed(packet).len())),
{
    let id_bytes = encode_var_int(packet.id);
    let length = (id_bytes.len() + packet.data.len()) as i32;
    let prefix = encode_var_int(length);
    let all = encode_uncompressed(packet) + rest;
    lemma_var_int_round_trip(packet.id, packet.data + rest);
    lemma_var_int_round_trip(length, id_bytes + (packet.data + rest));
    assert(all =~= prefix + (id_bytes + (packet.data + rest)));
    let after_len = all.skip(prefix.len() as int);
    assert(after_len =~= id_bytes + (packet.data + rest));
    let after_id = all.skip((prefix.len() + id_bytes.len()) as int);
    assert(after_id =~= packet.data + rest);
    assert(after_id.take(packet.data.len() as int) =~= packet.data);
}

/// Parsing a serialised envelope gives the envelope back and takes exactly its
/// bytes: for every envelope whose lengths are within the limit and whose body
/// is as long as its lengths say, whatever follows the frame.
pub proof fn lemma_compressed_round_trip(packet: CompressedPacketView, rest: Seq<u8>, limit: nat)
    requires
        0 < packet.packet_length <= limit,
        0 <= packet.data_length <= limit,
        packet.compressed_data.len() == compressed_body_len(
            packet.packet_length as nat,
            packet.data_length as nat,
        ),
    ensures
        parse_compressed(encode_compressed(packet) + rest, limit) == Ok::<
            (CompressedPacketView, nat),
            FramingError,
        >((packet, encode_compressed(packet).len())),
{
    let first = encode_var_int(packet.packet_length);
    let second = encode_var_int(packet.data_length);
    let body = packet.compressed_data;
    let all = encode_compressed(packet) + rest;
    lemma_var_int_round_trip(packet.packet_length, second + (body + rest));
    lemma_var_int_round_trip(packet.data_length, body + rest);
    assert(all =~= first + (second + (body + rest)));
    assert(all.skip(first.len() as int) =~= second + (body + rest));
    let after = all.skip((first.len() + second.len()) as int);
    assert(after =~= body + rest);
    assert(after.take(body.len() as int) =~= body);
}

} // verus!
