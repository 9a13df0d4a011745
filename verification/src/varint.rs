//! Variable-length integers: seven bits per byte, least significant group first,
//! bit 7 of every byte but the last set as a continuation flag.
//!
//! The encoding is agnostic to sign: a signed value is written by its unsigned bit
//! pattern, and decoding reproduces that pattern exactly.

use crate::error::FramingError;
use vstd::prelude::*;

verus! {

/// The most bytes a 32-bit value can need.
pub const VAR_INT_MAX_BYTES: usize = 5;

/// The most bytes a 64-bit value can need.
pub const VAR_LONG_MAX_BYTES: usize = 10;

/// 128 to the power `k`.
pub open spec fn pow128(k: nat) -> nat
    decreases k,
{
    if k == 0 {
        1
    } else {
        128 * pow128((k - 1) as nat)
    }
}

/// The canonical (shortest) encoding of `n`.
pub open spec fn encode_var(n: nat) -> Seq<u8>
    decreases n,
{
    if n < 128 {
        seq![n as u8]
    } else {
        seq![(n % 128 + 128) as u8] + encode_var(n / 128)
    }
}

/// The number of leading bytes of `bytes` that carry the continuation flag.
pub open spec fn continuation_run(bytes: Seq<u8>) -> nat
    decreases bytes.len(),
{
    if bytes.len() > 0 && bytes[0] >= 128 {
        1 + continuation_run(bytes.skip(1))
    } else {
        0
    }
}

/// The number that the first `count` bytes of `bytes` spell, seven bits each,
/// least significant group first.
pub open spec fn groups_value(bytes: Seq<u8>, count: nat) -> nat
    decreases count,
{
    if count == 0 {
        0
    } else {
        (bytes[0] % 128) as nat + 128 * groups_value(bytes.skip(1), (count - 1) as nat)
    }
}

/// What a reader makes of `bytes` when a value may take at most `max` bytes.
///
/// The value ends at the first byte without the continuation flag. When the first
/// `max` bytes all carry the flag, the reader gives up as soon as `overrun` bytes
/// are there to be seen; with fewer, the input is merely incomplete.
pub open spec fn decode_var(bytes: Seq<u8>, max: nat, overrun: nat) -> Result<
    (nat, nat),
    FramingError,
> {
    let run = continuation_run(bytes);
    if run < max && run < bytes.len() {
        Ok((groups_value(bytes, run + 1), run + 1))
    } else if run >= max && bytes.len() >= overrun {
        Err(FramingError::VarIntTooLong)
    } else {
        Err(FramingError::UnexpectedEof)
    }
}

/// The unsigned bit pattern of a 32-bit value.
pub open spec fn unsigned32(v: i32) -> nat {
    if v >= 0 {
        v as nat
    } else {
        (v + 0x1_0000_0000) as nat
    }
}

/// The unsigned bit pattern of a 64-bit value.
pub open spec fn unsigned64(v: i64) -> nat {
    if v >= 0 {
        v as nat
    } else {
        (v + 0x1_0000_0000_0000_0000) as nat
    }
}

/// The signed 32-bit value whose bit pattern is the low 32 bits of `n`.
pub open spec fn signed32(n: nat) -> i32 {
    let m = n % 0x1_0000_0000;
    if m < 0x8000_0000 {
        m as i32
    } else {
        (m - 0x1_0000_0000) as i32
    }
}

/// The bytes of `v` on the wire.
pub open spec fn encode_var_int(v: i32) -> Seq<u8> {
    encode_var(unsigned32(v))
}

/// The bytes of `v` on the wire.
pub open spec fn encode_var_long(v: i64) -> Seq<u8> {
    encode_var(unsigned64(v))
}

/// The 32-bit value at the head of `bytes` and the number of bytes it takes.
///
/// A fifth byte may hold bits beyond the thirty-second: they are dropped.
pub open spec fn decode_var_int(bytes: Seq<u8>) -> Result<(i32, nat), FramingError> {
    match decode_var(bytes, 5, 6) {
        Ok((n, len)) => Ok((signed32(n), len)),
        Err(e) => Err(e),
    }
}

/// The 64-bit value at the head of `bytes` and the number of bytes it takes.
///
/// A tenth byte may hold bits beyond the sixty-fourth: they are dropped.
pub open spec fn decode_var_long(bytes: Seq<u8>) -> Result<(u64, nat), FramingError> {
    match decode_var(bytes, 10, 10) {
        Ok((n, len)) => Ok(((n % 0x1_0000_0000_0000_0000) as u64, len)),
        Err(e) => Err(e),
    }
}

/// An encoding is at least one byte long, and a number below `128^k` fits `k` bytes.
pub proof fn lemma_encode_var_len(n: nat, k: nat)
    requires
        k >= 1,
        n < pow128(k),
    ensures
        1 <= encode_var(n).len() <= k,
    decreases n,
{
    if n >= 128 {
        assert(k >= 2) by {
            reveal_with_fuel(pow128, 2);
        }
        lemma_encode_var_len(n / 128, (k - 1) as nat);
    }
}

/// Every byte of an encoding but the last carries the continuation flag.
pub proof fn lemma_encode_var_flags(n: nat)
    ensures
        encode_var(n).len() >= 1,
        forall|i: int| 0 <= i < encode_var(n).len() - 1 ==> #[trigger] encode_var(n)[i] >= 128,
        encode_var(n).last() < 128,
    decreases n,
{
    if n >= 128 {
        lemma_encode_var_flags(n / 128);
        let rest = encode_var(n / 128);
        let all = encode_var(n);
        assert forall|i: int| 0 <= i < all.len() - 1 implies #[trigger] all[i] >= 128 by {
            if i > 0 {
                assert(all[i] == rest[i - 1]);
            }
        }
        assert(all.last() == rest.last());
    }
}

/// The continuation run of a sequence whose first `r` bytes carry the flag and
/// whose next byte, if any, does not.
pub proof fn lemma_continuation_run(bytes: Seq<u8>, r: nat)
    requires
        r <= bytes.len(),
        forall|i: int| 0 <= i < r ==> #[trigger] bytes[i] >= 128,
        r == bytes.len() || bytes[r as int] < 128,
    ensures
        continuation_run(bytes) == r,
    decreases r,
{
    if r > 0 {
        let tail = bytes.skip(1);
        assert forall|i: int| 0 <= i < r - 1 implies #[trigger] tail[i] >= 128 by {
            assert(tail[i] == bytes[i + 1]);
        }
        lemma_continuation_run(tail, (r - 1) as nat);
    }
}

/// Only the first `count` bytes matter to `groups_value`.
pub proof fn lemma_groups_value_prefix(a: Seq<u8>, b: Seq<u8>, count: nat)
    requires
        count <= a.len(),
        count <= b.len(),
        forall|i: int| 0 <= i < count ==> a[i] == b[i],
    ensures
        groups_value(a, count) == groups_value(b, count),
    decreases count,
{
    if count > 0 {
        let ta = a.skip(1);
        let tb = b.skip(1);
        assert forall|i: int| 0 <= i < count - 1 implies ta[i] == tb[i] by {
            assert(ta[i] == a[i + 1]);
            assert(tb[i] == b[i + 1]);
        }
        lemma_groups_value_prefix(ta, tb, (count - 1) as nat);
    }
}

/// One more group adds its seven bits above those already read.
pub proof fn lemma_groups_value_extend(bytes: Seq<u8>, count: nat)
    requires
        count < bytes.len(),
    ensures
        groups_value(bytes, count + 1) == groups_value(bytes, count) + (bytes[count as int] % 128)
            * pow128(count),
    decreases count,
{
    if count == 0 {
        assert(groups_value(bytes.skip(1), 0) == 0);
        let g = (bytes[0] % 128) as int;
        let one = pow128(0) as int;
        assert(g * one == g) by (nonlinear_arith)
            requires
                one == 1,
        ;
    } else {
        let tail = bytes.skip(1);
        lemma_groups_value_extend(tail, (count - 1) as nat);
        assert(tail[count - 1] == bytes[count as int]);
        let g = (bytes[count as int] % 128) as int;
        let p = pow128((count - 1) as nat) as int;
        assert(128 * (g * p) == g * (128 * p)) by (nonlinear_arith);
    }
}

/// The groups of a canonical encoding spell the number that was encoded.
pub proof fn lemma_groups_value_encode(n: nat)
    ensures
        groups_value(encode_var(n), encode_var(n).len()) == n,
    decreases n,
{
    let all = encode_var(n);
    if n < 128 {
        assert(groups_value(all.skip(1), 0) == 0);
    } else {
        let rest = encode_var(n / 128);
        lemma_groups_value_encode(n / 128);
        assert(all.skip(1) =~= rest);
        assert(all[0] % 128 == n % 128);
    }
}

/// Decoding the canonical encoding of `n`, whatever follows it, gives `n` back
/// and takes exactly the bytes of the encoding.
pub proof fn lemma_decode_encode_var(n: nat, rest: Seq<u8>, max: nat, overrun: nat)
    requires
        encode_var(n).len() <= max,
    ensures
        decode_var(encode_var(n) + rest, max, overrun) == Ok::<(nat, nat), FramingError>(
            (n, encode_var(n).len()),
        ),
{
    let enc = encode_var(n);
    let all = enc + rest;
    let last = (enc.len() - 1) as nat;
    lemma_encode_var_flags(n);
    assert forall|i: int| 0 <= i < last implies #[trigger] all[i] >= 128 by {
        assert(all[i] == enc[i]);
    }
    assert(all[last as int] == enc.last());
    lemma_continuation_run(all, last);
    lemma_groups_value_encode(n);
    lemma_groups_value_prefix(all, enc, enc.len());
}

/// A 32-bit pattern needs at most five bytes, a 64-bit pattern at most ten.
pub proof fn lemma_encode_var_bounds(n: nat)
    ensures
        n < 0x1_0000_0000 ==> 1 <= encode_var(n).len() <= 5,
        n < 0x1_0000_0000_0000_0000 ==> 1 <= encode_var(n).len() <= 10,
{
    reveal_with_fuel(pow128, 11);
    if n < 0x1_0000_0000 {
        lemma_encode_var_len(n, 5);
    }
    if n < 0x1_0000_0000_0000_0000 {
        lemma_encode_var_len(n, 10);
    }
}

/// Reading back what was written gives the value that was written: for every
/// 32-bit `v`, and whatever bytes follow its encoding.
pub proof fn lemma_var_int_round_trip(v: i32, rest: Seq<u8>)
    ensures
        decode_var_int(encode_var_int(v) + rest) == Ok::<(i32, nat), FramingError>(
            (v, encode_var_int(v).len()),
        ),
        1 <= encode_var_int(v).len() <= 5,
{
    lemma_encode_var_bounds(unsigned32(v));
    lemma_decode_encode_var(unsigned32(v), rest, 5, 6);
}

/// Reading back what was written gives the bit pattern that was written: for
/// every 64-bit `v`, and whatever bytes follow its encoding.
pub proof fn lemma_var_long_round_trip(v: i64, rest: Seq<u8>)
    ensures
        decode_var_long(encode_var_long(v) + rest) == Ok::<(u64, nat), FramingError>(
            (unsigned64(v) as u64, encode_var_long(v).len()),
        ),
        1 <= encode_var_long(v).len() <= 10,
{
    lemma_encode_var_bounds(unsigned64(v));
    lemma_decode_encode_var(unsigned64(v), rest, 10, 10);
}

/// A run of `max` continuation bytes is rejected once `overrun` bytes are in hand.
pub proof fn lemma_decode_var_overlong(bytes: Seq<u8>, max: nat, overrun: nat)
    requires
        max <= overrun <= bytes.len(),
        forall|i: int| 0 <= i < max ==> #[trigger] bytes[i] >= 128,
    ensures
        decode_var(bytes, max, overrun) == Err::<(nat, nat), FramingError>(
            FramingError::VarIntTooLong,
        ),
{
    lemma_continuation_run_at_least(bytes, max);
}

/// Six bytes that all carry the continuation flag do not read as a 32-bit
/// value, and ten do not read as a 64-bit value, whatever follows them.
pub proof fn lemma_overlong_rejected(bytes: Seq<u8>)
    ensures
        bytes.len() >= 6 && (forall|i: int| 0 <= i < 5 ==> #[trigger] bytes[i] >= 128)
            ==> decode_var_int(bytes) == Err::<(i32, nat), FramingError>(
            FramingError::VarIntTooLong,
        ),
        bytes.len() >= 10 && (forall|i: int| 0 <= i < 10 ==> #[trigger] bytes[i] >= 128)
            ==> decode_var_long(bytes) == Err::<(u64, nat), FramingError>(
            FramingError::VarIntTooLong,
        ),
{
    if bytes.len() >= 6 && (forall|i: int| 0 <= i < 5 ==> #[trigger] bytes[i] >= 128) {
        lemma_decode_var_overlong(bytes, 5, 6);
    }
    if bytes.len() >= 10 && (forall|i: int| 0 <= i < 10 ==> #[trigger] bytes[i] >= 128) {
        lemma_decode_var_overlong(bytes, 10, 10);
    }
}

/// The continuation run is at least `r` when the first `r` bytes carry the flag.
pub proof fn lemma_continuation_run_at_least(bytes: Seq<u8>, r: nat)
    requires
        r <= bytes.len(),
        forall|i: int| 0 <= i < r ==> #[trigger] bytes[i] >= 128,
    ensures
        continuation_run(bytes) >= r,
    decreases r,
{
    if r > 0 {
        let tail = bytes.skip(1);
        assert forall|i: int| 0 <= i < r - 1 implies #[trigger] tail[i] >= 128 by {
            assert(tail[i] == bytes[i + 1]);
        }
        lemma_continuation_run_at_least(tail, (r - 1) as nat);
    }
}

/// The number of bytes that `x` takes on the wire.
pub fn var_int_length(x: i32) -> (size: usize)
    ensures
        size == encode_var_int(x).len(),
        1 <= size <= 5,
{
    let mut rest: u32 = x as u32;
    assert((x >= 0 ==> rest as int == x as int) && (x < 0 ==> rest as int == x as int
        + 0x1_0000_0000)) by (bit_vector)
        requires
            rest == x as u32,
    ;
    let mut size: usize = 1;
    proof {
        lemma_encode_var_bounds(unsigned32(x));
    }
    while rest >= 128
        invariant
            1 <= size,
            size - 1 + encode_var(rest as nat).len() == encode_var_int(x).len(),
            encode_var_int(x).len() <= 5,
        decreases rest,
    {
        proof {
            lemma_encode_var_flags((rest / 128) as nat);
        }
        rest = rest / 128;
        size = size + 1;
    }
    size
}

/// Appends the canonical encoding of `x` to `sink`.
pub(crate) fn write_var(sink: &mut Vec<u8>, x: u64)
    ensures
        final(sink)@ == old(sink)@ + encode_var(x as nat),
{
    let mut rest: u64 = x;
    loop
        invariant_except_break
            sink@ + encode_var(rest as nat) == old(sink)@ + encode_var(x as nat),
        ensures
            sink@ == old(sink)@ + encode_var(x as nat),
        decreases rest,
    {
        let ghost before = sink@;
        let ghost prev = rest;
        assert(rest & 0x7f == rest % 128) by (bit_vector);
        let mut group: u8 = (rest & 0x7f) as u8;
        rest = rest >> 7;
        assert(prev >> 7 == prev / 128) by (bit_vector);
        if rest != 0 {
            assert(group | 0x80 == group + 128) by (bit_vector)
                requires
                    group < 128,
            ;
            group = group | 0x80;
        }
        sink.push(group);
        if rest == 0 {
            assert(before.push(group) =~= before + encode_var(prev as nat));
            break ;
        }
        assert(before.push(group) + encode_var(rest as nat) =~= before + encode_var(prev as nat));
    }
}

/// Reads one value of at most `max` bytes from `bytes`, starting at `start`.
///
/// Returns the number that the groups spell, not yet cut to a width, and the
/// index just past its last byte.
pub(crate) fn read_var(bytes: &[u8], start: usize, max: usize, overrun: usize) -> (r: Result<
    (u128, usize),
    FramingError,
>)
    requires
        start <= bytes@.len(),
        1 <= max <= 10,
        max <= overrun,
    ensures
        match decode_var(bytes@.skip(start as int), max as nat, overrun as nat) {
            Ok((n, len)) => r matches Ok((raw, next)) && raw == n && next == start + len && 1
                <= len <= max && next <= bytes@.len(),
            Err(e) => r == Err::<(u128, usize), FramingError>(e),
        },
{
    let ghost input = bytes@.skip(start as int);
    let avail: usize = bytes.len() - start;
    let mut value: u128 = 0;
    let mut scale: u128 = 1;
    let mut count: usize = 0;
    proof {
        reveal_with_fuel(pow128, 11);
    }
    while count < max && count < avail
        invariant
            input == bytes@.skip(start as int),
            avail == input.len(),
            start + avail == bytes@.len(),
            bytes@.len() <= usize::MAX,
            count <= max <= 10,
            count <= avail,
            max <= overrun,
            forall|i: int| 0 <= i < count ==> #[trigger] input[i] >= 128,
            value == groups_value(input, count as nat),
            scale == pow128(count as nat),
            value < scale,
        decreases max - count,
    {
        let byte: u8 = bytes[start + count];
        assert(byte == input[count as int]);
        let group: u8 = byte & 0x7f;
        assert(byte & 0x7f == byte % 128) by (bit_vector);
        assert((byte & 0x80 == 0) == (byte < 128)) by (bit_vector);
        proof {
            lemma_groups_value_extend(input, count as nat);
            assert(scale <= 0x8000_0000_0000_0000) by {
                reveal_with_fuel(pow128, 10);
                lemma_pow128_monotonic(count as nat, 9);
            }
            assert(group * scale <= 127 * scale) by (nonlinear_arith)
                requires
                    group <= 127,
                    scale >= 0,
            ;
        }
        value = value + (group as u128) * scale;
        if byte & 0x80 == 0 {
            proof {
                lemma_continuation_run(input, count as nat);
            }
            return Ok((value, start + count + 1));
        }
        scale = scale * 128;
        count = count + 1;
    }
    proof {
        if count == max {
            lemma_continuation_run_at_least(input, count as nat);
        } else {
            lemma_continuation_run(input, count as nat);
        }
    }
    if count >= max && avail >= overrun {
        Err(FramingError::VarIntTooLong)
    } else {
        Err(FramingError::UnexpectedEof)
    }
}

/// Powers of 128 grow with the exponent.
pub proof fn lemma_pow128_monotonic(a: nat, b: nat)
    requires
        a <= b,
    ensures
        pow128(a) <= pow128(b),
        pow128(a) >= 1,
    decreases b,
{
    if a < b {
        lemma_pow128_monotonic(a, (b - 1) as nat);
    } else if a > 0 {
        lemma_pow128_monotonic((a - 1) as nat, (a - 1) as nat);
    }
}

} // verus!
