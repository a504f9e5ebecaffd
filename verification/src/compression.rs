//! The CRILAYLA decompressor: a bit stream read backward from the end of
//! the input, decoded into bytes that are written backward from the end of
//! the output.
use crate::bits::{
    bits_available, BitState, lemma_append_bits, lemma_next_bits_consumes,
    lemma_next_bits_failure_stays, lemma_pool_bits_bound, lemma_read_fresh, lemma_read_from_pool,
    lemma_shift_is_pow2, next_bits,
};
use crate::byte_order::{as_signed, le_value};
use crate::endian::EndianReader;
use crate::error::{CpkError, ErrorKind, Result};
use crate::text::{decimal_digits, decimal_string, signed_decimal_digits, signed_decimal_string};
use vstd::arithmetic::power2::{lemma2_to64, pow2};
use vstd::prelude::*;
use vstd::string::*;

verus! {

/// The state of a bit reader that holds these three values.
pub open spec fn bit_state(offset: i64, pool: u8, bits_left: i32) -> BitState {
    BitState { offset: offset as int, pool, bits_left: bits_left as int }
}

/// The text of the error for a byte index outside the input.
fn out_of_bounds_message(offset: i64, len: usize) -> (text: String)
    ensures
        text@ == out_of_bounds_text(offset as int, len as nat),
{
    let mut text = String::from_str("Input offset ");
    text.append(signed_decimal_string(offset).as_str());
    text.append(" out of bounds during bit reading (length: ");
    text.append(decimal_string(len as u64).as_str());
    text.append(")");
    text
}

/// What is said of a byte index outside an input of `len` bytes: the index
/// and the length, both in decimal.
pub open spec fn out_of_bounds_text(offset: int, len: nat) -> Seq<char> {
    "Input offset "@ + signed_decimal_digits(offset)
        + " out of bounds during bit reading (length: "@ + decimal_digits(len) + ")"@
}

/// Reads the next `bit_count` bits of the stream as a number, first bit
/// highest. `offset_p` is the index of the next byte to load, `bit_pool_p`
/// the byte loaded last and `bits_left_p` the number of its low bits that
/// are still unread. Where the stream ends first, the bits that were left
/// are used up and the read fails.
pub fn get_next_bits(
    input: &[u8],
    offset_p: &mut i64,
    bit_pool_p: &mut u8,
    bits_left_p: &mut i32,
    bit_count: usize,
) -> (r: Result<u16>)
    requires
        0 <= *old(bits_left_p) <= 8,
        bit_count <= 16,
    ensures
        ({
            let before = bit_state(*old(offset_p), *old(bit_pool_p), *old(bits_left_p));
            let after = bit_state(*final(offset_p), *final(bit_pool_p), *final(bits_left_p));
            let (value, state) = next_bits(input@, before, bit_count as nat);
            &&& after == state
            &&& match r {
                Ok(bits) => value == Some(bits as nat),
                Err(e) => value is None && e.kind() == ErrorKind::Compression,
            }
        }),
{
    let ghost start = bit_state(*offset_p, *bit_pool_p, *bits_left_p);
    let mut out_bits: u16 = 0;
    let mut num_bits_produced: usize = 0;
    proof {
        lemma2_to64();
    }
    while num_bits_produced < bit_count
        invariant
            num_bits_produced <= bit_count <= 16,
            0 <= *bits_left_p <= 8,
            start == bit_state(*old(offset_p), *old(bit_pool_p), *old(bits_left_p)),
            next_bits(input@, start, num_bits_produced as nat) == (
                Some(out_bits as nat),
                bit_state(*offset_p, *bit_pool_p, *bits_left_p),
            ),
            out_bits < pow2(num_bits_produced as nat),
        decreases bit_count - num_bits_produced,
    {
        let ghost done = num_bits_produced as nat;
        let ghost loaded = *bits_left_p == 0;
        if *bits_left_p == 0 {
            if *offset_p < 0 || *offset_p as u64 >= input.len() as u64 {
                proof {
                    lemma_next_bits_failure_stays(input@, start, done + 1, bit_count as nat);
                }
                return Err(CpkError::Compression(out_of_bounds_message(*offset_p, input.len())));
            }
            *bit_pool_p = input[*offset_p as usize];
            *bits_left_p = 8;
            *offset_p = *offset_p - 1;
        }
        let remaining: usize = bit_count - num_bits_produced;
        let bits_this_round: usize = if *bits_left_p as usize > remaining {
            remaining
        } else {
            *bits_left_p as usize
        };
        let count: u32 = bits_this_round as u32;
        let shift: u32 = *bits_left_p as u32 - count;
        proof {
            lemma_pool_bits_bound(*bit_pool_p as u32, shift, count);
            lemma_shift_is_pow2(count);
            lemma_shift_is_pow2(num_bits_produced as u32);
            lemma_shift_is_pow2((num_bits_produced + bits_this_round) as u32);
            if loaded {
                lemma_read_fresh(input@, start, done, bits_this_round as nat);
            } else {
                lemma_read_from_pool(input@, start, done, bits_this_round as nat);
            }
        }
        let mask: u32 = (1u32 << count) - 1;
        let extracted: u32 = ((*bit_pool_p as u32) >> shift) & mask;
        proof {
            lemma_append_bits(out_bits as u32, extracted, count, num_bits_produced as u32);
        }
        out_bits = (((out_bits as u32) << count) | extracted) as u16;
        *bits_left_p = *bits_left_p - bits_this_round as i32;
        num_bits_produced = num_bits_produced + bits_this_round;
    }
    Ok(out_bits)
}

/// The largest size that a blob may declare for its decompressed data.
pub open spec fn max_uncompressed_size() -> int {
    100_000_000
}

/// The number of bytes of the header that a blob keeps uncompressed.
pub open spec fn plain_header_len() -> int {
    0x100
}

/// The size of the decompressed data that the blob declares, without the
/// plain header: a signed little-endian number at byte 8.
pub open spec fn declared_size(input: Seq<u8>) -> int {
    as_signed(le_value(input.subrange(8, 12)), 4)
}

/// Where the plain header starts behind the 16 bytes of the blob's own
/// header: a signed little-endian number at byte 12.
pub open spec fn declared_header_offset(input: Seq<u8>) -> int {
    as_signed(le_value(input.subrange(12, 16)), 4)
}

/// Whether the header of the blob can be used: the blob holds its 16
/// bytes, both numbers are not negative, the size is within the cap, and
/// the plain header lies inside the blob. A blob that no signed index of
/// 64 bits can address is refused too.
pub open spec fn header_valid(input: Seq<u8>) -> bool {
    &&& 16 <= input.len() <= i64::MAX
    &&& 0 <= declared_size(input) <= max_uncompressed_size()
    &&& 0 <= declared_header_offset(input)
    &&& declared_header_offset(input) + 0x10 + plain_header_len() <= input.len()
}

/// The plain header of the blob, which starts the decompressed data.
pub open spec fn plain_header(input: Seq<u8>) -> Seq<u8> {
    input.subrange(
        declared_header_offset(input) + 0x10,
        declared_header_offset(input) + 0x10 + plain_header_len(),
    )
}

/// Where the bit stream starts: at the byte before the last 256 bytes of
/// the blob, with nothing loaded.
pub open spec fn stream_start(input: Seq<u8>) -> BitState {
    BitState { offset: input.len() - plain_header_len() - 1, pool: 0, bits_left: 0 }
}

/// The number of bits of the length field at `level`: 2, 3, 5, and 8 from
/// then on.
pub open spec fn level_bits(level: nat) -> nat {
    if level == 0 {
        2
    } else if level == 1 {
        3
    } else if level == 2 {
        5
    } else {
        8
    }
}

/// The value of a length field at `level` that says that another field
/// follows: all its bits set.
pub open spec fn level_max(level: nat) -> nat {
    if level == 0 {
        3
    } else if level == 1 {
        7
    } else if level == 2 {
        31
    } else {
        255
    }
}

/// The length of a match whose fields from `level` on are read at `bits`,
/// added to `length`, and the state behind the last field. Each field is
/// added; a field with all bits set is followed by another.
pub open spec fn match_length(input: Seq<u8>, bits: BitState, length: nat, level: nat) -> Option<
    (nat, BitState),
>
    decreases bits_available(input, bits),
{
    match next_bits(input, bits, level_bits(level)) {
        (None, _) => None,
        (Some(field), next) => if field != level_max(level) {
            Some((length + field, next))
        } else {
            proof {
                lemma_next_bits_consumes(input, bits, level_bits(level));
            }
            match_length(input, next, length + field, level + 1)
        },
    }
}

/// The bytes emitted so far, followed by `count` bytes of which each
/// repeats the byte emitted `distance` bytes before it.
pub open spec fn copy_back(emitted: Seq<u8>, distance: nat, count: nat) -> Seq<u8>
    decreases count,
{
    if count == 0 {
        emitted
    } else {
        let before = copy_back(emitted, distance, (count - 1) as nat);
        before.push(before[before.len() - distance])
    }
}

/// Where a decoder stands: the state of its bit reader and the bytes it
/// has emitted, in the order in which it emitted them.
pub struct Decoding {
    pub bits: BitState,
    pub emitted: Seq<u8>,
}

/// The smaller of two numbers.
pub open spec fn smaller(a: int, b: int) -> int {
    if a < b {
        a
    } else {
        b
    }
}

/// The decoder after the next token of a stream that is to give `size`
/// bytes: a literal byte, or a match that repeats bytes emitted before.
/// A match starts `offset + 3` bytes back, with `offset` a field of 13
/// bits, and stops where `size` bytes are emitted. The stream may end
/// in no token, and a match may not start before the first emitted byte.
pub open spec fn decode_token(input: Seq<u8>, size: nat, at: Decoding) -> Option<Decoding> {
    match next_bits(input, at.bits, 1) {
        (None, _) => None,
        (Some(control), behind_control) => if control == 0 {
            match next_bits(input, behind_control, 8) {
                (None, _) => None,
                (Some(literal), behind) => Some(
                    Decoding { bits: behind, emitted: at.emitted.push(literal as u8) },
                ),
            }
        } else {
            match next_bits(input, behind_control, 13) {
                (None, _) => None,
                (Some(offset), behind_offset) => match match_length(input, behind_offset, 3, 0) {
                    None => None,
                    Some((length, behind)) => if offset + 3 > at.emitted.len() {
                        None
                    } else {
                        Some(
                            Decoding {
                                bits: behind,
                                emitted: copy_back(
                                    at.emitted,
                                    offset + 3,
                                    smaller(length as int, size - at.emitted.len()) as nat,
                                ),
                            },
                        )
                    },
                },
            }
        }
    }
}

/// A match is at least as long as the length it started with.
pub proof fn lemma_match_length_grows(input: Seq<u8>, bits: BitState, length: nat, level: nat)
    ensures
        match_length(input, bits, length, level) matches Some((total, _)) ==> total >= length,
    decreases bits_available(input, bits),
{
    match next_bits(input, bits, level_bits(level)) {
        (None, _) => {},
        (Some(field), next) => {
            if field == level_max(level) {
                lemma_next_bits_consumes(input, bits, level_bits(level));
                lemma_match_length_grows(input, next, length + field, level + 1);
            }
        },
    }
}

/// A match of `count` bytes adds `count` bytes and keeps what was emitted.
pub proof fn lemma_copy_back_len(emitted: Seq<u8>, distance: nat, count: nat)
    ensures
        copy_back(emitted, distance, count).len() == emitted.len() + count,
        forall|i: int|
            0 <= i < emitted.len() ==> copy_back(emitted, distance, count)[i] == emitted[i],
    decreases count,
{
    if count > 0 {
        lemma_copy_back_len(emitted, distance, (count - 1) as nat);
    }
}

/// Every token emits at least one byte and never more than are asked for.
pub proof fn lemma_token_emits(input: Seq<u8>, size: nat, at: Decoding)
    requires
        at.emitted.len() < size,
    ensures
        decode_token(input, size, at) matches Some(next) ==> at.emitted.len()
            < next.emitted.len() <= size,
{
    match decode_token(input, size, at) {
        None => {},
        Some(next) => {
            let (control, behind_control) = next_bits(input, at.bits, 1);
            if control->Some_0 != 0 {
                let (offset, behind_offset) = next_bits(input, behind_control, 13);
                lemma_match_length_grows(input, behind_offset, 3, 0);
                let length = match_length(input, behind_offset, 3, 0)->Some_0.0;
                lemma_copy_back_len(
                    at.emitted,
                    offset->Some_0 + 3,
                    smaller(length as int, size - at.emitted.len()) as nat,
                );
            }
        },
    }
}

/// The `size` bytes that the stream gives when it is decoded from `at` on,
/// in the order in which they are emitted; or nothing where a token
/// cannot be decoded.
pub open spec fn decode_from(input: Seq<u8>, size: nat, at: Decoding) -> Option<Seq<u8>>
    decreases size - at.emitted.len(),
{
    if at.emitted.len() >= size {
        Some(at.emitted)
    } else {
        match decode_token(input, size, at) {
            None => None,
            Some(next) => {
                proof {
                    lemma_token_emits(input, size, at);
                }
                decode_from(input, size, next)
            },
        }
    }
}

/// The bytes that the stream of the blob gives, in the order in which they
/// are emitted: the last byte of the decompressed data first.
pub open spec fn decoded_stream(input: Seq<u8>) -> Option<Seq<u8>> {
    decode_from(
        input,
        declared_size(input) as nat,
        Decoding { bits: stream_start(input), emitted: Seq::empty() },
    )
}

/// The decompressed data of the blob: its plain header, followed by the
/// bytes of its stream, last emitted first. There is none where the header
/// is not valid or the stream cannot be decoded.
pub open spec fn decompressed(input: Seq<u8>) -> Option<Seq<u8>> {
    if !header_valid(input) {
        None
    } else {
        match decoded_stream(input) {
            None => None,
            Some(emitted) => Some(plain_header(input) + emitted.reverse()),
        }
    }
}

/// Decoding gives exactly as many bytes as were asked for, where not more
/// are emitted already.
pub proof fn lemma_decode_len(input: Seq<u8>, size: nat, at: Decoding)
    requires
        at.emitted.len() <= size,
    ensures
        decode_from(input, size, at) matches Some(emitted) ==> emitted.len() == size,
    decreases size - at.emitted.len(),
{
    if at.emitted.len() < size {
        lemma_token_emits(input, size, at);
        match decode_token(input, size, at) {
            None => {},
            Some(next) => {
                lemma_decode_len(input, size, next);
            },
        }
    }
}

/// The decompressed data of a blob is as long as the plain header and the
/// declared size together; it starts with the plain header of the blob;
/// and every byte behind that header was emitted by the stream, the byte
/// at the end first, so that none is left as the buffer was filled.
pub proof fn lemma_decompressed_shape(input: Seq<u8>)
    requires
        decompressed(input) is Some,
    ensures
        ({
            let output = decompressed(input)->Some_0;
            let emitted = decoded_stream(input)->Some_0;
            let size = declared_size(input);
            &&& output.len() == plain_header_len() + size
            &&& output.subrange(0, plain_header_len()) == plain_header(input)
            &&& emitted.len() == size
            &&& forall|i: int|
                plain_header_len() <= i < output.len() ==> #[trigger] output[i]
                    == emitted[output.len() - 1 - i]
        }),
{
    let size = declared_size(input) as nat;
    lemma_decode_len(input, size, Decoding { bits: stream_start(input), emitted: Seq::empty() });
    let output = decompressed(input)->Some_0;
}

/// The last `count` bytes of the output buffer, last byte first: the
/// bytes that a decoder has emitted when it has filled that much.
pub open spec fn buffer_tail(buffer: Seq<u8>, count: nat) -> Seq<u8> {
    Seq::new(count, |i: int| buffer[buffer.len() - 1 - i])
}

/// Reads the length of a match at the reader, capped at `limit`.
fn read_match_length(
    input: &[u8],
    offset_p: &mut i64,
    bit_pool_p: &mut u8,
    bits_left_p: &mut i32,
    limit: usize,
) -> (r: Result<usize>)
    requires
        0 <= *old(bits_left_p) <= 8,
        limit <= max_uncompressed_size(),
    ensures
        ({
            let before = bit_state(*old(offset_p), *old(bit_pool_p), *old(bits_left_p));
            let after = bit_state(*final(offset_p), *final(bit_pool_p), *final(bits_left_p));
            match r {
                Ok(length) => {
                    &&& match_length(input@, before, 3, 0) matches Some((total, state))
                    &&& length == smaller(total as int, limit as int)
                    &&& after == state
                    &&& 0 <= after.bits_left <= 8
                },
                Err(e) => {
                    &&& match_length(input@, before, 3, 0) is None
                    &&& e.kind() == ErrorKind::Compression
                },
            }
        }),
{
    let ghost start = bit_state(*offset_p, *bit_pool_p, *bits_left_p);
    let ghost mut total: nat = 3;
    let ghost mut depth: nat = 0;
    let mut length: usize = if limit < 3 {
        limit
    } else {
        3
    };
    let mut level: usize = 0;
    let mut done = false;
    while !done
        invariant
            0 <= *bits_left_p <= 8,
            limit <= max_uncompressed_size(),
            start == bit_state(*old(offset_p), *old(bit_pool_p), *old(bits_left_p)),
            length == smaller(total as int, limit as int),
            level == smaller(depth as int, 3),
            !done ==> match_length(input@, start, 3, 0) == match_length(
                input@,
                bit_state(*offset_p, *bit_pool_p, *bits_left_p),
                total,
                depth,
            ),
            done ==> match_length(input@, start, 3, 0) == Some(
                (total, bit_state(*offset_p, *bit_pool_p, *bits_left_p)),
            ),
        decreases
                bits_available(input@, bit_state(*offset_p, *bit_pool_p, *bits_left_p)),
                if done { 0int } else { 1int },
    {
        let ghost current = bit_state(*offset_p, *bit_pool_p, *bits_left_p);
        let (width, full): (usize, usize) = if level == 0 {
            (2, 3)
        } else if level == 1 {
            (3, 7)
        } else if level == 2 {
            (5, 31)
        } else {
            (8, 255)
        };
        let field = get_next_bits(input, offset_p, bit_pool_p, bits_left_p, width)? as usize;
        proof {
            lemma_next_bits_consumes(input@, current, width as nat);
            total = total + field as nat;
        }
        length = if field > limit - length {
            limit
        } else {
            length + field
        };
        if field != full {
            done = true;
        } else {
            proof {
                depth = depth + 1;
            }
            if level < 3 {
                level = level + 1;
            }
        }
    }
    Ok(length)
}

/// Appends a match of `count` bytes: below the `emitted` bytes at the end
/// of the buffer, each new byte repeats the byte `distance` places above it.
fn copy_match(result: &mut Vec<u8>, emitted: usize, distance: usize, count: usize)
    requires
        emitted + count <= old(result)@.len(),
        1 <= distance <= emitted,
    ensures
        final(result)@.len() == old(result)@.len(),
        buffer_tail(final(result)@, (emitted + count) as nat) == copy_back(
            buffer_tail(old(result)@, emitted as nat),
            distance as nat,
            count as nat,
        ),
        forall|i: int|
            0 <= i < old(result)@.len() - emitted - count ==> final(result)@[i] == old(result)@[i],
{
    let len = result.len();
    let ghost before = buffer_tail(result@, emitted as nat);
    let mut copied: usize = 0;
    while copied < count
        invariant
            copied <= count,
            emitted + count <= len,
            1 <= distance <= emitted,
            result@.len() == len,
            len == old(result)@.len(),
            before == buffer_tail(old(result)@, emitted as nat),
            buffer_tail(result@, (emitted + copied) as nat) == copy_back(
                before,
                distance as nat,
                copied as nat,
            ),
            forall|i: int| 0 <= i < len - emitted - copied ==> result@[i] == old(result)@[i],
        decreases count - copied,
    {
        let target = len - 1 - (emitted + copied);
        let source = target + distance;
        let byte = result[source];
        result[target] = byte;
        copied = copied + 1;
    }
}

/// Decompresses a CRILAYLA blob. The blob declares the size of its data
/// and where its plain header of 256 bytes lies; the data is that header
/// followed by the bytes of the bit stream, which is read backward and
/// fills the output backward. Fails where the header is not valid, the
/// stream ends early, or a match points behind the end of the output.
pub fn decompress_crilayla(input: &[u8]) -> (r: Result<Vec<u8>>)
    ensures
        match r {
            Ok(output) => {
                &&& decompressed(input@) == Some(output@)
                &&& output@.len() == plain_header_len() + declared_size(input@)
                &&& output@.subrange(0, plain_header_len()) == plain_header(input@)
            },
            Err(e) => {
                &&& decompressed(input@) is None
                &&& e.kind() == ErrorKind::Compression
            },
        },
{
    if input.len() < 16 {
        return Err(CpkError::Compression(String::from_str("Input too short for CRILAYLA")));
    }
    let mut reader = EndianReader::new(input, true);
    reader.read_bytes(8)?;
    let uncompressed_size = reader.read_i32()?;
    let uncompressed_header_offset = reader.read_i32()?;
    if uncompressed_header_offset < 0 || uncompressed_size < 0 {
        return Err(CpkError::Compression(String::from_str("Invalid CRILAYLA header values")));
    }
    let size: usize = uncompressed_size as usize;
    let header_offset: usize = uncompressed_header_offset as usize;
    if size > 100_000_000 {
        let mut text = String::from_str("Uncompressed size ");
        text.append(decimal_string(size as u64).as_str());
        text.append(" seems unreasonably large");
        return Err(CpkError::Compression(text));
    }
    if input.len() < 0x110 || header_offset > input.len() - 0x110 {
        let mut text = String::from_str("Invalid header offset: ");
        text.append(decimal_string(header_offset as u64).as_str());
        text.append(" + 0x110 > ");
        text.append(decimal_string(input.len() as u64).as_str());
        return Err(CpkError::Compression(text));
    }
    if input.len() as u64 > 0x7FFF_FFFF_FFFF_FFFF {
        return Err(CpkError::Compression(String::from_str("Input too long for CRILAYLA")));
    }

    let mut result: Vec<u8> = vec![0u8; size + 0x100];
    let mut i: usize = 0;
    while i < 0x100
        invariant
            i <= 0x100,
            header_offset + 0x110 <= input@.len() <= usize::MAX,
            header_offset == declared_header_offset(input@),
            result@.len() == size + 0x100,
            forall|k: int| 0 <= k < i ==> result@[k] == plain_header(input@)[k],
        decreases 0x100 - i,
    {
        result[i] = input[header_offset + 0x10 + i];
        i = i + 1;
    }

    let mut input_offset: i64 = (input.len() - 0x100 - 1) as i64;
    let mut bit_pool: u8 = 0;
    let mut bits_left: i32 = 0;
    let mut bytes_output: usize = 0;
    assert(buffer_tail(result@, 0) =~= Seq::<u8>::empty());

    while bytes_output < size
        invariant
            header_valid(input@),
            size == declared_size(input@),
            result@.len() == size + 0x100,
            forall|k: int| 0 <= k < 0x100 ==> result@[k] == plain_header(input@)[k],
            bytes_output <= size,
            0 <= bits_left <= 8,
            decoded_stream(input@) == decode_from(
                input@,
                size as nat,
                Decoding {
                    bits: bit_state(input_offset, bit_pool, bits_left),
                    emitted: buffer_tail(result@, bytes_output as nat),
                },
            ),
        decreases size - bytes_output,
    {
        let ghost at = Decoding {
            bits: bit_state(input_offset, bit_pool, bits_left),
            emitted: buffer_tail(result@, bytes_output as nat),
        };
        proof {
            lemma_token_emits(input@, size as nat, at);
        }
        let control_bit = get_next_bits(
            input,
            &mut input_offset,
            &mut bit_pool,
            &mut bits_left,
            1,
        )?;
        let ghost behind_control = bit_state(input_offset, bit_pool, bits_left);
        proof {
            lemma_next_bits_consumes(input@, at.bits, 1);
        }
        if control_bit > 0 {
            let offset_bits = get_next_bits(
                input,
                &mut input_offset,
                &mut bit_pool,
                &mut bits_left,
                13,
            )? as usize;
            proof {
                lemma_next_bits_consumes(input@, behind_control, 13);
            }
            let length = read_match_length(
                input,
                &mut input_offset,
                &mut bit_pool,
                &mut bits_left,
                size - bytes_output,
            )?;
            let distance = offset_bits + 3;
            if distance > bytes_output {
                let mut text = String::from_str("Backreference offset ");
                text.append(decimal_string(distance as u64).as_str());
                text.append(" out of bounds (bytes written: ");
                text.append(decimal_string(bytes_output as u64).as_str());
                text.append(")");
                return Err(CpkError::Compression(text));
            }
            copy_match(&mut result, bytes_output, distance, length);
            bytes_output = bytes_output + length;
        } else {
            let literal = get_next_bits(
                input,
                &mut input_offset,
                &mut bit_pool,
                &mut bits_left,
                8,
            )?;
            proof {
                lemma_next_bits_consumes(input@, behind_control, 8);
            }
            let byte = literal as u8;
            let output_pos = size + 0x100 - 1 - bytes_output;
            let ghost before = result@;
            result[output_pos] = byte;
            assert(buffer_tail(result@, (bytes_output + 1) as nat) =~= buffer_tail(
                before,
                bytes_output as nat,
            ).push(byte));
            bytes_output = bytes_output + 1;
        }
    }
    Ok(result)
}

} // verus!
