//! The bit stream of a CRILAYLA blob: bytes taken from the end of the
//! input towards its start, the bits of each byte from the highest down.
use vstd::arithmetic::power2::{lemma2_to64, lemma_pow2_strictly_increases, lemma_pow2_unfold, pow2};
use vstd::bits::lemma_u32_shl_is_mul;
use vstd::prelude::*;

verus! {

/// Where a bit reader stands: the index of the next byte to load, the
/// byte loaded last, and how many of its low bits are still unread.
pub struct BitState {
    pub offset: int,
    pub pool: u8,
    pub bits_left: int,
}

/// The bit `index` of `pool`, counted from the lowest.
pub open spec fn pool_bit(pool: u8, index: int) -> nat {
    (((pool as u32) >> (index as u32)) & 1) as nat
}

/// The `count` bits of `pool` below its bit `from`, as a number.
pub open spec fn pool_bits(pool: u8, from: int, count: int) -> nat {
    (((pool as u32) >> ((from - count) as u32)) & (((1u32 << (count as u32)) - 1) as u32)) as nat
}

/// The next bit of the stream and the state behind it, or nothing where
/// the pool is empty and no byte is left to load.
pub open spec fn next_bit(input: Seq<u8>, state: BitState) -> Option<(nat, BitState)> {
    if state.bits_left > 0 {
        Some(
            (
                pool_bit(state.pool, state.bits_left - 1),
                BitState { bits_left: state.bits_left - 1, ..state },
            ),
        )
    } else if 0 <= state.offset < input.len() {
        let byte = input[state.offset];
        Some((pool_bit(byte, 7), BitState { offset: state.offset - 1, pool: byte, bits_left: 7 }))
    } else {
        None
    }
}

/// The next `count` bits of the stream as a number, first bit highest, and
/// the state behind them. Where the stream ends first there is no number,
/// and the state is the one in which the missing bit was asked for.
pub open spec fn next_bits(input: Seq<u8>, state: BitState, count: nat) -> (Option<nat>, BitState)
    decreases count,
{
    if count == 0 {
        (Some(0), state)
    } else {
        match next_bits(input, state, (count - 1) as nat) {
            (None, stuck) => (None, stuck),
            (Some(value), before) => match next_bit(input, before) {
                None => (None, before),
                Some((bit, after)) => (Some(2 * value + bit), after),
            },
        }
    }
}

/// The number of bits that can still be read in `state`.
pub open spec fn bits_available(input: Seq<u8>, state: BitState) -> nat {
    let pooled = if state.bits_left > 0 {
        state.bits_left as nat
    } else {
        0
    };
    if 0 <= state.offset < input.len() {
        pooled + 8 * (state.offset + 1) as nat
    } else {
        pooled
    }
}

/// Reading bits uses up as many of the available bits, and leaves at most
/// seven bits in the pool unless none was read.
pub proof fn lemma_next_bits_consumes(input: Seq<u8>, state: BitState, count: nat)
    requires
        next_bits(input, state, count).0 is Some,
    ensures
        bits_available(input, next_bits(input, state, count).1) + count == bits_available(
            input,
            state,
        ),
        state.bits_left <= 8 && count > 0 ==> next_bits(input, state, count).1.bits_left <= 7,
        state.bits_left <= 8 ==> next_bits(input, state, count).1.bits_left <= 8,
        state.bits_left >= 0 ==> next_bits(input, state, count).1.bits_left >= 0,
        next_bits(input, state, count).1.offset <= state.offset,
    decreases count,
{
    if count > 0 {
        lemma_next_bits_consumes(input, state, (count - 1) as nat);
    }
}

/// Once the stream has ended, asking for more bits changes nothing.
pub proof fn lemma_next_bits_failure_stays(
    input: Seq<u8>,
    state: BitState,
    count: nat,
    more: nat,
)
    requires
        count <= more,
        next_bits(input, state, count).0 is None,
    ensures
        next_bits(input, state, more) == next_bits(input, state, count),
    decreases more,
{
    if count < more {
        lemma_next_bits_failure_stays(input, state, count, (more - 1) as nat);
    }
}

/// Adding one more bit below `count - 1` bits of a pool gives its `count`
/// bits.
proof fn lemma_pool_step(p: u32, s: u32, k: u32)
    by (bit_vector)
    requires
        p < 256,
        1 <= k,
        s + k <= 8,
    ensures
        2 * ((p >> ((s + 1) as u32)) & (((1u32 << ((k - 1) as u32)) - 1) as u32)) + ((p >> s) & 1)
            == (p >> s) & (((1u32 << k) - 1) as u32),
        (p >> s) & (((1u32 << k) - 1) as u32) < (1u32 << k),
{
}

/// After `done` bits were read, the next `count` bits come from the pool
/// where it holds that many.
pub proof fn lemma_read_from_pool(
    input: Seq<u8>,
    start: BitState,
    done: nat,
    count: nat,
)
    requires
        next_bits(input, start, done).0 is Some,
        count <= next_bits(input, start, done).1.bits_left <= 8,
    ensures
        ({
            let (value, state) = next_bits(input, start, done);
            next_bits(input, start, done + count) == (
                Some(value->Some_0 * pow2(count) + pool_bits(
                    state.pool,
                    state.bits_left,
                    count as int,
                )),
                BitState { bits_left: state.bits_left - count, ..state },
            )
        }),
    decreases count,
{
    let (value, state) = next_bits(input, start, done);
    let p = state.pool as u32;
    if count == 0 {
        lemma2_to64();
        let s = state.bits_left as u32;
        assert((p >> s) & (((1u32 << 0u32) - 1) as u32) == 0) by (bit_vector);
        assert(pool_bits(state.pool, state.bits_left, 0) == 0);
        assert(next_bits(input, start, done + 0) == (value, state));
    } else {
        lemma_read_from_pool(input, start, done, (count - 1) as nat);
        lemma_pow2_unfold(count);
        let s = (state.bits_left - count) as u32;
        lemma_pool_step(p, s, count as u32);
        let high = value->Some_0 * pow2((count - 1) as nat);
        assert(2 * high == value->Some_0 * pow2(count)) by (nonlinear_arith)
            requires
                high == value->Some_0 * pow2((count - 1) as nat),
                pow2(count) == 2 * pow2((count - 1) as nat),
        ;
        let low = pool_bits(state.pool, state.bits_left, count - 1);
        let before = BitState { bits_left: state.bits_left - count + 1, ..state };
        assert(next_bits(input, start, (done + count - 1) as nat) == (Some(high + low), before));
        assert(next_bit(input, before) == Some(
            (
                pool_bit(state.pool, state.bits_left - count),
                BitState { bits_left: before.bits_left - 1, ..before },
            ),
        ));
        assert(2 * (high + low) + pool_bit(state.pool, state.bits_left - count) == value->Some_0
            * pow2(count) + pool_bits(state.pool, state.bits_left, count as int));
        assert(next_bits(input, start, done + count) == (
            Some(2 * (high + low) + pool_bit(state.pool, state.bits_left - count)),
            BitState { bits_left: before.bits_left - 1, ..before },
        ));
    }
}

/// The highest bit of a byte above its next `count - 1` bits gives its
/// highest `count` bits.
proof fn lemma_fresh_step(p: u32, k: u32)
    by (bit_vector)
    requires
        p < 256,
        1 <= k <= 8,
    ensures
        ((p >> 7u32) & 1) * (1u32 << ((k - 1) as u32)) + ((p >> ((8 - k) as u32)) & (((1u32 << ((k
            - 1) as u32)) - 1) as u32)) == (p >> ((8 - k) as u32)) & (((1u32 << k) - 1) as u32),
{
}

/// `1 << k` is `2^k`.
pub proof fn lemma_shift_is_pow2(k: u32)
    requires
        k <= 16,
    ensures
        (1u32 << k) == pow2(k as nat),
{
    lemma2_to64();
    if k < 16 {
        lemma_pow2_strictly_increases(k as nat, 16);
    }
    lemma_u32_shl_is_mul(1, k);
}

/// After `done` bits were read and the pool is empty, the next `count`
/// bits are the highest bits of the byte that is loaded next.
pub proof fn lemma_read_fresh(input: Seq<u8>, start: BitState, done: nat, count: nat)
    requires
        next_bits(input, start, done).0 is Some,
        next_bits(input, start, done).1.bits_left == 0,
        0 <= next_bits(input, start, done).1.offset < input.len(),
        1 <= count <= 8,
    ensures
        ({
            let (value, state) = next_bits(input, start, done);
            let byte = input[state.offset];
            next_bits(input, start, done + count) == (
                Some(value->Some_0 * pow2(count) + pool_bits(byte, 8, count as int)),
                BitState { offset: state.offset - 1, pool: byte, bits_left: 8 - count },
            )
        }),
{
    let (value, state) = next_bits(input, start, done);
    let byte = input[state.offset];
    assert(next_bits(input, start, done + 1) == (
        Some(2 * value->Some_0 + pool_bit(byte, 7)),
        BitState { offset: state.offset - 1, pool: byte, bits_left: 7 },
    ));
    lemma_read_from_pool(input, start, done + 1, (count - 1) as nat);
    lemma_fresh_step(byte as u32, count as u32);
    lemma_shift_is_pow2((count - 1) as u32);
    lemma_pow2_unfold(count);
    let v = value->Some_0;
    let bit = pool_bit(byte, 7);
    let half = pow2((count - 1) as nat);
    assert((2 * v + bit) * half == v * pow2(count) + bit * half) by (nonlinear_arith)
        requires
            pow2(count) == 2 * half,
    ;
}

/// Shifting a number of `n` bits up by `k` and filling the gap with a
/// number of `k` bits appends the bits.
pub proof fn lemma_append_bits(out: u32, e: u32, k: u32, n: u32)
    by (bit_vector)
    requires
        k <= 8,
        n + k <= 16,
        out < (1u32 << n),
        e < (1u32 << k),
    ensures
        (out << k) | e == out * (1u32 << k) + e,
        (out << k) | e < (1u32 << ((n + k) as u32)),
        (out << k) | e < 0x1_0000,
{
}

/// The low `k` bits of a byte shifted down are a number of `k` bits.
pub proof fn lemma_pool_bits_bound(p: u32, s: u32, k: u32)
    by (bit_vector)
    requires
        k <= 8,
    ensures
        (p >> s) & (((1u32 << k) - 1) as u32) < (1u32 << k),
        (1u32 << k) >= 1,
{
}

} // verus!
