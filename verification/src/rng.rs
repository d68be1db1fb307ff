//! The pseudo random numbers that drive the circle search.

use vstd::prelude::*;

verus! {

/// A xorshift generator; the field is its whole state.
pub struct Rng(pub u64);

/// The state that follows `state`.
pub open spec fn scramble(state: u64) -> u64 {
    let a = state ^ (state << 13);
    let b = a ^ (a >> 7);
    b ^ (b << 17)
}

/// The number drawn from `state`: bits 16 to 47 of the state that follows it.
pub open spec fn drawn(state: u64) -> u32 {
    (scramble(state) >> 16) as u32
}

/// A draw scaled down to the half open range from `start` to `end`.
pub open spec fn scaled(draw: u32, start: int, end: int) -> int {
    start + draw * (end - start) / 0x1_0000_0000
}

/// A draw scaled to a range that is not empty lies in that range, and one scaled to an
/// empty range is its start.
pub proof fn scaled_in_range(draw: u32, start: int, end: int)
    requires
        start <= end,
    ensures
        start <= scaled(draw, start, end),
        start < end ==> scaled(draw, start, end) < end,
        start == end ==> scaled(draw, start, end) == start,
{
    let width: int = end - start;
    assert(0 <= draw * width) by (nonlinear_arith)
        requires
            0 <= draw,
            0 <= width,
    ;
    assert(draw * width <= 0xffff_ffff * width) by (nonlinear_arith)
        requires
            draw <= 0xffff_ffff,
            0 <= width,
    ;
}

/// Different states are followed by different states: the generator loses nothing.
pub proof fn scramble_injective(a: u64, b: u64)
    requires
        scramble(a) == scramble(b),
    ensures
        a == b,
{
    let a1 = a ^ (a << 13);
    let a2 = a1 ^ (a1 >> 7);
    let a3 = a2 ^ (a2 << 17);
    let b1 = b ^ (b << 13);
    let b2 = b1 ^ (b1 >> 7);
    let b3 = b2 ^ (b2 << 17);
    assert(a2 == a3 ^ (a3 << 17) ^ (a3 << 34) ^ (a3 << 51)) by (bit_vector)
        requires
            a3 == a2 ^ (a2 << 17),
    ;
    assert(b2 == b3 ^ (b3 << 17) ^ (b3 << 34) ^ (b3 << 51)) by (bit_vector)
        requires
            b3 == b2 ^ (b2 << 17),
    ;
    assert((a1 ^ b1) ^ ((a1 ^ b1) >> 7) == 0) by (bit_vector)
        requires
            a1 ^ (a1 >> 7) == b1 ^ (b1 >> 7),
    ;
    let d = a1 ^ b1;
    assert(d == 0) by (bit_vector)
        requires
            d ^ (d >> 7) == 0,
    ;
    assert(a1 == b1) by (bit_vector)
        requires
            a1 ^ b1 == 0,
    ;
    assert(a == a1 ^ (a1 << 13) ^ (a1 << 26) ^ (a1 << 39) ^ (a1 << 52)) by (bit_vector)
        requires
            a1 == a ^ (a << 13),
    ;
    assert(b == b1 ^ (b1 << 13) ^ (b1 << 26) ^ (b1 << 39) ^ (b1 << 52)) by (bit_vector)
        requires
            b1 == b ^ (b << 13),
    ;
}

/// Only the zero state is followed by the zero state, so a stream that starts elsewhere
/// never dries up.
pub proof fn scramble_nonzero(state: u64)
    ensures
        scramble(state) == 0 <==> state == 0,
{
    assert(scramble(state) == 0 <==> state == 0) by (bit_vector);
}

/// The three shifts, written out: 13 bits up, 7 bits down and 17 bits up, each mixed in by
/// an exclusive or.
pub proof fn scramble_shifts(state: u64, a: u64, b: u64)
    requires
        a == state ^ (state << 13),
        b == a ^ (a >> 7),
    ensures
        scramble(state) == b ^ (b << 17),
{
}

/// The generator treats every bit of its state on its own: what follows a mix of two states
/// is the mix of what follows each.
pub proof fn scramble_mixes(a: u64, b: u64)
    ensures
        scramble(a ^ b) == scramble(a) ^ scramble(b),
{
    assert(scramble(a ^ b) == scramble(a) ^ scramble(b)) by (bit_vector);
}

/// A draw is the state that follows without its lowest 16 bits, taken modulo 2^32.
pub proof fn drawn_bits(state: u64)
    ensures
        drawn(state) == (scramble(state) / 0x1_0000) % 0x1_0000_0000,
{
    let next = scramble(state);
    assert((next >> 16) as u32 == (next / 0x1_0000) % 0x1_0000_0000) by (bit_vector);
}

/// A draw splits a range as evenly as whole numbers allow: the value is the start and the
/// draw's share of the width, rounded down.
pub proof fn scaled_share(draw: u32, start: int, end: int)
    ensures
        0 <= draw * (end - start) - (scaled(draw, start, end) - start) * 0x1_0000_0000
            < 0x1_0000_0000,
{
}

/// The state after that many draws from a generator that starts in state `seed`.
pub open spec fn stream(seed: u64, draws: int) -> u64
    decreases draws,
{
    if draws <= 0 {
        seed
    } else {
        scramble(stream(seed, draws - 1))
    }
}

/// A generator that does not start at zero never comes to zero.
pub proof fn stream_nonzero(seed: u64, draws: int)
    ensures
        seed != 0 ==> stream(seed, draws) != 0,
    decreases draws,
{
    if draws > 0 {
        stream_nonzero(seed, draws - 1);
        scramble_nonzero(stream(seed, draws - 1));
    }
}

/// Generators that start in different states never come to the same state after equally
/// many draws.
pub proof fn stream_injective(a: u64, b: u64, draws: int)
    ensures
        a != b ==> stream(a, draws) != stream(b, draws),
    decreases draws,
{
    if draws > 0 {
        stream_injective(a, b, draws - 1);
        if stream(a, draws) == stream(b, draws) {
            scramble_injective(stream(a, draws - 1), stream(b, draws - 1));
        }
    }
}

impl Rng {
    /// Steps the generator and returns the number that it drew.
    pub fn next(&mut self) -> (draw: u32)
        ensures
            final(self).0 == scramble(old(self).0),
            draw == drawn(old(self).0),
            draw == (final(self).0 / 0x1_0000) % 0x1_0000_0000,
    {
        proof {
            drawn_bits(self.0);
        }
        self.0 ^= self.0 << 13;
        self.0 ^= self.0 >> 7;
        self.0 ^= self.0 << 17;
        (self.0 >> 16) as u32
    }

    /// Draws a number from `start` up to, but not including, `end`.
    pub fn range(&mut self, start: i32, end: i32) -> (value: i32)
        requires
            start <= end,
            end - start <= i32::MAX,
        ensures
            final(self).0 == scramble(old(self).0),
            value == scaled(drawn(old(self).0), start as int, end as int),
            start <= value,
            start < end ==> value < end,
            0 <= ((final(self).0 / 0x1_0000) % 0x1_0000_0000) * (end - start) - (value - start)
                * 0x1_0000_0000 < 0x1_0000_0000,
    {
        let draw: u32 = self.next();
        let width: u64 = (end - start) as u64;
        proof {
            scaled_in_range(draw, start as int, end as int);
            scaled_share(draw, start as int, end as int);
            assert(draw * width <= 0xffff_ffff * 0x7fff_ffff) by (nonlinear_arith)
                requires
                    0 <= draw <= 0xffff_ffff,
                    0 <= width <= 0x7fff_ffff,
            ;
        }
        let product: u64 = draw as u64 * width;
        assert(product >> 32 == product / 0x1_0000_0000) by (bit_vector);
        start + (product >> 32) as i32
    }
}

} // verus!
