//! Reproducible random indices.

use vstd::prelude::*;

use crate::voxel::VoxelKey;

verus! {

/// What a seed of zero, from which the generator would not move, is replaced with.
pub const SEED_FOR_ZERO: u64 = 0x9e37_79b9_7f4a_7c15;

/// A xorshift generator of 64 bits.
#[derive(Clone, Copy, Debug, PartialEq, Eq, Structural)]
pub struct XorShift64 {
    pub state: u64,
}

pub open spec fn first_state(seed: u64) -> u64 {
    if seed == 0 {
        SEED_FOR_ZERO
    } else {
        seed
    }
}

/// The state after `x`, which is also the number that is drawn.
pub open spec fn shifted(x: u64) -> u64 {
    let a = x ^ (x << 13);
    let b = a ^ (a >> 7);
    b ^ (b << 17)
}

/// A generator that does not stand at zero never comes to zero.
pub proof fn generator_never_stops(x: u64)
    requires
        x != 0,
    ensures
        shifted(x) != 0,
{
    let a = x ^ (x << 13);
    let b = a ^ (a >> 7);
    assert(a != 0) by (bit_vector)
        requires
            x != 0,
            a == x ^ (x << 13),
    ;
    assert(b != 0) by (bit_vector)
        requires
            a != 0,
            b == a ^ (a >> 7),
    ;
    assert(b ^ (b << 17) != 0) by (bit_vector)
        requires
            b != 0,
    ;
}

/// Draws from `state` on until an index below `len` is neither `first` nor `second`, and
/// at most `draws` times: the index, and the state after the last draw.
pub open spec fn other_index(
    state: u64,
    len: int,
    first: int,
    second: int,
    draws: nat,
) -> (Option<int>, u64)
    decreases draws,
{
    if draws == 0 {
        (None, state)
    } else {
        let next = shifted(state);
        let index = next as int % len;
        if index != first && index != second {
            (Some(index), next)
        } else {
            other_index(next, len, first, second, (draws - 1) as nat)
        }
    }
}

/// How often an index is drawn again at most: as often as there are states to move to.
pub const MAX_DRAWS: u64 = 0xffff_ffff_ffff_ffff;

/// Three different indices below `len`, drawn from `state` on, and the state afterwards.
pub open spec fn three_unique(state: u64, len: int) -> (Option<(int, int, int)>, u64) {
    let after_first = shifted(state);
    let first = after_first as int % len;
    let (drawn_second, after_second) = other_index(
        after_first,
        len,
        first,
        first,
        MAX_DRAWS as nat,
    );
    match drawn_second {
        None => (None, after_second),
        Some(second) => {
            let (drawn_third, after_third) = other_index(
                after_second,
                len,
                first,
                second,
                MAX_DRAWS as nat,
            );
            match drawn_third {
                None => (None, after_third),
                Some(third) => (Some((first, second, third)), after_third),
            }
        },
    }
}

impl XorShift64 {
    pub fn new(seed: u64) -> (r: XorShift64)
        ensures
            r.state == first_state(seed),
            r.state != 0,
    {
        let state: u64 = if seed == 0 { SEED_FOR_ZERO } else { seed };
        XorShift64 { state }
    }

    pub fn next_u64(&mut self) -> (r: u64)
        ensures
            r == shifted(old(self).state),
            final(self).state == r,
            old(self).state != 0 ==> r != 0,
    {
        proof {
            if self.state != 0 {
                generator_never_stops(self.state);
            }
        }
        let x: u64 = self.state;
        let a: u64 = x ^ (x << 13);
        let b: u64 = a ^ (a >> 7);
        let c: u64 = b ^ (b << 17);
        self.state = c;
        c
    }

    /// An index below `upper`.
    pub fn index(&mut self, upper: usize) -> (r: usize)
        requires
            upper > 0,
        ensures
            final(self).state == shifted(old(self).state),
            r == final(self).state as int % upper as int,
            r < upper,
    {
        let drawn: u64 = self.next_u64();
        (drawn % (upper as u64)) as usize
    }

    fn index_other_than(&mut self, upper: usize, first: usize, second: usize) -> (r: Option<usize>)
        requires
            upper > 0,
        ensures
            (
                match r {
                    Some(index) => Some(index as int),
                    None => None,
                },
                final(self).state,
            ) == other_index(
                old(self).state,
                upper as int,
                first as int,
                second as int,
                MAX_DRAWS as nat,
            ),
            r matches Some(index) ==> index < upper && index != first && index != second,
    {
        let ghost start = self.state;
        let mut draws: u64 = MAX_DRAWS;
        while draws > 0
            invariant
                upper > 0,
                other_index(
                    start,
                    upper as int,
                    first as int,
                    second as int,
                    MAX_DRAWS as nat,
                ) == other_index(
                    self.state,
                    upper as int,
                    first as int,
                    second as int,
                    draws as nat,
                ),
                start == old(self).state,
            decreases draws,
        {
            let index: usize = self.index(upper);
            if index != first && index != second {
                return Some(index);
            }
            draws -= 1;
        }
        None
    }
}

/// Draws three different indices below `length`.
pub fn sample_three_unique(rng: &mut XorShift64, length: usize) -> (r: Option<
    (usize, usize, usize),
>)
    requires
        length >= 3,
    ensures
        (
            match r {
                Some((a, b, c)) => Some((a as int, b as int, c as int)),
                None => None,
            },
            final(rng).state,
        ) == three_unique(old(rng).state, length as int),
        r matches Some((a, b, c)) ==> a < length && b < length && c < length && a != b && a != c
            && b != c,
{
    let first: usize = rng.index(length);
    match rng.index_other_than(length, first, first) {
        None => None,
        Some(second) => match rng.index_other_than(length, first, second) {
            None => None,
            Some(third) => Some((first, second, third)),
        },
    }
}

/// One more value, mixed into a hash.
pub open spec fn hashed(hash: u64, value: u64) -> u64 {
    (hash ^ value).wrapping_mul(0x0000_0100_0000_01b3)
}

/// The seed of the search for plane `plane_index` at `key`.
pub open spec fn seed_spec(key: VoxelKey, plane_index: u64) -> u64 {
    hashed(
        hashed(
            hashed(
                hashed(0xcbf2_9ce4_8422_2325, key.ix as i64 as u64),
                key.iy as i64 as u64,
            ),
            key.iz as i64 as u64,
        ),
        plane_index,
    )
}

pub fn seed_from_key(key: VoxelKey, plane_index: u64) -> (r: u64)
    ensures
        r == seed_spec(key, plane_index),
{
    let mut hash: u64 = 0xcbf2_9ce4_8422_2325;
    hash = (hash ^ (key.ix as i64 as u64)).wrapping_mul(0x0000_0100_0000_01b3);
    hash = (hash ^ (key.iy as i64 as u64)).wrapping_mul(0x0000_0100_0000_01b3);
    hash = (hash ^ (key.iz as i64 as u64)).wrapping_mul(0x0000_0100_0000_01b3);
    (hash ^ plane_index).wrapping_mul(0x0000_0100_0000_01b3)
}

/// The number before a drawn one can be had back from it, so no two states lead to the
/// same one.
pub proof fn draws_can_be_undone(x: u64)
    ensures
        ({
            let c = shifted(x);
            let b = c ^ (c << 17) ^ (c << 34) ^ (c << 51);
            let a = b ^ (b >> 7) ^ (b >> 14) ^ (b >> 21) ^ (b >> 28) ^ (b >> 35) ^ (b >> 42) ^ (b
                >> 49) ^ (b >> 56) ^ (b >> 63);
            (a ^ (a << 13) ^ (a << 26) ^ (a << 39) ^ (a << 52)) == x
        }),
{
    let first = x ^ (x << 13);
    let second = first ^ (first >> 7);
    let c = second ^ (second << 17);
    let b = c ^ (c << 17) ^ (c << 34) ^ (c << 51);
    let a = b ^ (b >> 7) ^ (b >> 14) ^ (b >> 21) ^ (b >> 28) ^ (b >> 35) ^ (b >> 42) ^ (b >> 49)
        ^ (b >> 56) ^ (b >> 63);
    assert(b == second) by (bit_vector)
        requires
            c == second ^ (second << 17),
            b == c ^ (c << 17) ^ (c << 34) ^ (c << 51),
    ;
    assert(a == first) by (bit_vector)
        requires
            b == first ^ (first >> 7),
            a == b ^ (b >> 7) ^ (b >> 14) ^ (b >> 21) ^ (b >> 28) ^ (b >> 35) ^ (b >> 42) ^ (b
                >> 49) ^ (b >> 56) ^ (b >> 63),
    ;
    assert((a ^ (a << 13) ^ (a << 26) ^ (a << 39) ^ (a << 52)) == x) by (bit_vector)
        requires
            a == x ^ (x << 13),
    ;
}

proof fn lemma_other_index(state: u64, len: int, first: int, second: int, draws: nat)
    requires
        len > 0,
    ensures
        other_index(state, len, first, second, draws).0 matches Some(index) ==> 0 <= index < len
            && index != first && index != second,
    decreases draws,
{
    if draws > 0 {
        lemma_other_index(shifted(state), len, first, second, (draws - 1) as nat);
    }
}

/// Three indices that are drawn are three different ones below the length, and the first
/// is the rest of the first number drawn.
pub proof fn three_different_indices_are_drawn(state: u64, len: int)
    requires
        len > 0,
    ensures
        three_unique(state, len).0 matches Some((a, b, c)) ==> {
            &&& 0 <= a < len && 0 <= b < len && 0 <= c < len
            &&& a != b && b != c && a != c
            &&& a == shifted(state) as int % len
        },
{
    let after_first = shifted(state);
    let first = after_first as int % len;
    lemma_other_index(after_first, len, first, first, MAX_DRAWS as nat);
    let (drawn, after_second) = other_index(after_first, len, first, first, MAX_DRAWS as nat);
    if let Some(second) = drawn {
        lemma_other_index(after_second, len, first, second, MAX_DRAWS as nat);
    }
}

proof fn lemma_multiplied_back(x: u64)
    ensures
        x.wrapping_mul(0x0000_0100_0000_01b3).wrapping_mul(0xce96_5057_aff6_957b) == x,
{
    let p: int = 0x0000_0100_0000_01b3;
    let q: int = 0xce96_5057_aff6_957b;
    let m: int = 0x1_0000_0000_0000_0000;
    let xi = x as int;
    vstd::arithmetic::div_mod::lemma_mul_mod_noop_left(xi * p, q, m);
    assert((xi * p) * q == xi * (p * q)) by (nonlinear_arith);
    let turns: int = p * q / m;
    assert(p * q == turns * m + 1) by (nonlinear_arith)
        requires
            p == 0x0000_0100_0000_01b3,
            q == 0xce96_5057_aff6_957b,
            m == 0x1_0000_0000_0000_0000,
            turns == p * q / m,
    ;
    assert(xi * (turns * m + 1) == m * (xi * turns) + xi) by (nonlinear_arith);
    vstd::arithmetic::div_mod::lemma_mod_multiples_vanish(xi * turns, xi, m);
    vstd::arithmetic::div_mod::lemma_small_mod(x as nat, m as nat);
}

/// A value that is mixed into a hash tells it from that of any other value, and the hash
/// before tells it from that of any other hash.
pub proof fn hashes_tell_values_apart(hash: u64, other: u64, a: u64, b: u64)
    ensures
        hashed(hash, a) == hashed(hash, b) ==> a == b,
        hashed(hash, a) == hashed(other, a) ==> hash == other,
{
    lemma_multiplied_back(hash ^ a);
    lemma_multiplied_back(hash ^ b);
    lemma_multiplied_back(other ^ a);
    assert(hash ^ a == hash ^ b ==> a == b) by (bit_vector);
    assert(hash ^ a == other ^ a ==> hash == other) by (bit_vector);
}

/// Planes of one cell are searched for with different seeds, and so are those of cells
/// that differ along one axis.
pub proof fn seeds_tell_planes_apart(key: VoxelKey, other: VoxelKey, a: u64, b: u64)
    ensures
        a != b ==> seed_spec(key, a) != seed_spec(key, b),
        key.ix != other.ix && key.iy == other.iy && key.iz == other.iz ==> seed_spec(key, a)
            != seed_spec(other, a),
        key.ix == other.ix && key.iy != other.iy && key.iz == other.iz ==> seed_spec(key, a)
            != seed_spec(other, a),
        key.ix == other.ix && key.iy == other.iy && key.iz != other.iz ==> seed_spec(key, a)
            != seed_spec(other, a),
{
    let start: u64 = 0xcbf2_9ce4_8422_2325;
    let (kx, ky, kz) = (key.ix as i64 as u64, key.iy as i64 as u64, key.iz as i64 as u64);
    let (ox, oy, oz) = (other.ix as i64 as u64, other.iy as i64 as u64, other.iz as i64 as u64);
    let (x, y, z) = (key.ix, key.iy, key.iz);
    let (u, v, w) = (other.ix, other.iy, other.iz);
    assert(x as i64 as u64 == u as i64 as u64 ==> x == u) by (bit_vector);
    assert(y as i64 as u64 == v as i64 as u64 ==> y == v) by (bit_vector);
    assert(z as i64 as u64 == w as i64 as u64 ==> z == w) by (bit_vector);
    let (k1, o1) = (hashed(start, kx), hashed(start, ox));
    let (k2, o2) = (hashed(k1, ky), hashed(o1, oy));
    let (k3, o3) = (hashed(k2, kz), hashed(o2, oz));
    hashes_tell_values_apart(start, start, kx, ox);
    hashes_tell_values_apart(k1, o1, ky, oy);
    hashes_tell_values_apart(k2, o2, kz, oz);
    hashes_tell_values_apart(k3, o3, a, b);
    hashes_tell_values_apart(k3, o3, a, a);
}

} // verus!
