//! Big- and little-endian numbers as sequences of bytes, and the
//! conversions between the two that `byteorder` performs.
use byteorder::{BigEndian, ByteOrder, LittleEndian};
use vstd::prelude::*;

verus! {

/// The number whose big-endian representation is `s`.
pub open spec fn be_value(s: Seq<u8>) -> nat
    decreases s.len(),
{
    if s.len() == 0 {
        0
    } else {
        be_value(s.drop_last()) * 256 + s.last() as nat
    }
}

/// The number whose little-endian representation is `s`.
pub open spec fn le_value(s: Seq<u8>) -> nat
    decreases s.len(),
{
    if s.len() == 0 {
        0
    } else {
        s.first() as nat + 256 * le_value(s.drop_first())
    }
}

/// The number that `s` represents in the given byte order.
pub open spec fn uint_value(s: Seq<u8>, little_endian: bool) -> nat {
    if little_endian {
        le_value(s)
    } else {
        be_value(s)
    }
}

/// The `count` bytes of `data` that start at `at`.
pub open spec fn bytes_at(data: Seq<u8>, at: int, count: nat) -> Seq<u8> {
    Seq::new(count, |i: int| data[at + i])
}

/// The number stored in the `width` bytes of `data` that start at `at`.
pub open spec fn uint_at(data: Seq<u8>, at: int, width: int, little_endian: bool) -> nat {
    uint_value(data.subrange(at, at + width), little_endian)
}

/// 256 to the power `n`.
pub open spec fn pow256(n: nat) -> nat
    decreases n,
{
    if n == 0 {
        1
    } else {
        256 * pow256((n - 1) as nat)
    }
}

/// The two's-complement reading of `v` as a signed number of `bytes` bytes.
pub open spec fn as_signed(v: nat, bytes: nat) -> int {
    if 2 * v >= pow256(bytes) {
        v - pow256(bytes)
    } else {
        v as int
    }
}

/// The values of `pow256` at the widths of the machine integers.
pub proof fn lemma_pow256_values()
    ensures
        pow256(0) == 1,
        pow256(1) == 0x100,
        pow256(2) == 0x1_0000,
        pow256(4) == 0x1_0000_0000,
        pow256(8) == 0x1_0000_0000_0000_0000,
{
    reveal_with_fuel(pow256, 9);
}

/// The big-endian representation of `value` in `width` bytes.
pub open spec fn be_bytes(value: nat, width: nat) -> Seq<u8>
    decreases width,
{
    if width == 0 {
        Seq::empty()
    } else {
        be_bytes(value / 256, (width - 1) as nat).push((value % 256) as u8)
    }
}

/// The little-endian representation of `value` in `width` bytes.
pub open spec fn le_bytes(value: nat, width: nat) -> Seq<u8>
    decreases width,
{
    if width == 0 {
        Seq::empty()
    } else {
        seq![(value % 256) as u8] + le_bytes(value / 256, (width - 1) as nat)
    }
}

/// The representation of `value` in `width` bytes in the given byte order.
pub open spec fn uint_bytes(value: nat, width: nat, little_endian: bool) -> Seq<u8> {
    if little_endian {
        le_bytes(value, width)
    } else {
        be_bytes(value, width)
    }
}

/// The representation of a number in `width` bytes has `width` bytes, and
/// stands for the number where the number fits in them.
pub proof fn lemma_uint_round_trip(value: nat, width: nat, little_endian: bool)
    ensures
        uint_bytes(value, width, little_endian).len() == width,
        value < pow256(width) ==> uint_value(uint_bytes(value, width, little_endian), little_endian)
            == value,
    decreases width,
{
    if width > 0 {
        lemma_uint_round_trip(value / 256, (width - 1) as nat, little_endian);
        if little_endian {
            let rest = le_bytes(value / 256, (width - 1) as nat);
            let all = le_bytes(value, width);
            assert(all.drop_first() =~= rest);
        } else {
            let rest = be_bytes(value / 256, (width - 1) as nat);
            let all = be_bytes(value, width);
            assert(all.drop_last() =~= rest);
        }
    }
}

/// `byteorder::BigEndian::read_u16`: the first two bytes of `buf`, read as a
/// big-endian number. The outside function panics on a shorter buffer.
#[verifier::external_body]
pub(crate) fn be_read_u16(buf: &[u8]) -> (v: u16)
    requires
        buf@.len() >= 2,
    ensures
        v as nat == be_value(buf@.subrange(0, 2)),
{
    BigEndian::read_u16(buf)
}

/// `byteorder::BigEndian::read_u32`: the first four bytes of `buf`, read as a
/// big-endian number. The outside function panics on a shorter buffer.
#[verifier::external_body]
pub(crate) fn be_read_u32(buf: &[u8]) -> (v: u32)
    requires
        buf@.len() >= 4,
    ensures
        v as nat == be_value(buf@.subrange(0, 4)),
{
    BigEndian::read_u32(buf)
}

/// `byteorder::BigEndian::read_u64`: the first eight bytes of `buf`, read as
/// a big-endian number. The outside function panics on a shorter buffer.
#[verifier::external_body]
pub(crate) fn be_read_u64(buf: &[u8]) -> (v: u64)
    requires
        buf@.len() >= 8,
    ensures
        v as nat == be_value(buf@.subrange(0, 8)),
{
    BigEndian::read_u64(buf)
}

/// `byteorder::LittleEndian::read_u16`: the first two bytes of `buf`, read as
/// a little-endian number. The outside function panics on a shorter buffer.
#[verifier::external_body]
pub(crate) fn le_read_u16(buf: &[u8]) -> (v: u16)
    requires
        buf@.len() >= 2,
    ensures
        v as nat == le_value(buf@.subrange(0, 2)),
{
    LittleEndian::read_u16(buf)
}

/// `byteorder::LittleEndian::read_u32`: the first four bytes of `buf`, read
/// as a little-endian number. The outside function panics on a shorter buffer.
#[verifier::external_body]
pub(crate) fn le_read_u32(buf: &[u8]) -> (v: u32)
    requires
        buf@.len() >= 4,
    ensures
        v as nat == le_value(buf@.subrange(0, 4)),
{
    LittleEndian::read_u32(buf)
}

/// `byteorder::LittleEndian::read_u64`: the first eight bytes of `buf`, read
/// as a little-endian number. The outside function panics on a shorter buffer.
#[verifier::external_body]
pub(crate) fn le_read_u64(buf: &[u8]) -> (v: u64)
    requires
        buf@.len() >= 8,
    ensures
        v as nat == le_value(buf@.subrange(0, 8)),
{
    LittleEndian::read_u64(buf)
}

/// `byteorder::BigEndian::write_u16`, on a fresh buffer of two bytes: the
/// big-endian representation of `n`.
#[verifier::external_body]
pub(crate) fn be_bytes_u16(n: u16) -> (b: Vec<u8>)
    ensures
        b@ == be_bytes(n as nat, 2),
{
    let mut b = vec![0u8; 2];
    BigEndian::write_u16(&mut b, n);
    b
}

/// `byteorder::BigEndian::write_u32`, on a fresh buffer of four bytes: the
/// big-endian representation of `n`.
#[verifier::external_body]
pub(crate) fn be_bytes_u32(n: u32) -> (b: Vec<u8>)
    ensures
        b@ == be_bytes(n as nat, 4),
{
    let mut b = vec![0u8; 4];
    BigEndian::write_u32(&mut b, n);
    b
}

/// `byteorder::BigEndian::write_u64`, on a fresh buffer of eight bytes: the
/// big-endian representation of `n`.
#[verifier::external_body]
pub(crate) fn be_bytes_u64(n: u64) -> (b: Vec<u8>)
    ensures
        b@ == be_bytes(n as nat, 8),
{
    let mut b = vec![0u8; 8];
    BigEndian::write_u64(&mut b, n);
    b
}

/// `byteorder::LittleEndian::write_u16`, on a fresh buffer of two bytes: the
/// little-endian representation of `n`.
#[verifier::external_body]
pub(crate) fn le_bytes_u16(n: u16) -> (b: Vec<u8>)
    ensures
        b@ == le_bytes(n as nat, 2),
{
    let mut b = vec![0u8; 2];
    LittleEndian::write_u16(&mut b, n);
    b
}

/// `byteorder::LittleEndian::write_u32`, on a fresh buffer of four bytes: the
/// little-endian representation of `n`.
#[verifier::external_body]
pub(crate) fn le_bytes_u32(n: u32) -> (b: Vec<u8>)
    ensures
        b@ == le_bytes(n as nat, 4),
{
    let mut b = vec![0u8; 4];
    LittleEndian::write_u32(&mut b, n);
    b
}

/// `byteorder::LittleEndian::write_u64`, on a fresh buffer of eight bytes:
/// the little-endian representation of `n`.
#[verifier::external_body]
pub(crate) fn le_bytes_u64(n: u64) -> (b: Vec<u8>)
    ensures
        b@ == le_bytes(n as nat, 8),
{
    let mut b = vec![0u8; 8];
    LittleEndian::write_u64(&mut b, n);
    b
}

} // verus!
