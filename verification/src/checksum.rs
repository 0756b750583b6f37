//! The weak checksum of a page table entry.
//!
//! It is the 32-bit MurmurHash3 of three little-endian words, seeded by the
//! caller. It is a fast pre-filter and not a security boundary: two entries
//! may share a checksum, and whoever relies on it must authenticate the page
//! behind the entry before drawing a conclusion.

use vstd::prelude::*;

verus! {

pub const MURMUR_C1: u32 = 0xcc9e_2d51;

pub const MURMUR_C2: u32 = 0x1b87_3593;

pub const MURMUR_N: u32 = 0xe654_6b64;

pub const MURMUR_F1: u32 = 0x85eb_ca6b;

pub const MURMUR_F2: u32 = 0xc2b2_ae35;

/// `x` rotated left by `r` bits, for `0 < r < 32`.
pub open spec fn rotl(x: u32, r: u32) -> u32 {
    (x << r) | (x >> ((32 - r) as u32))
}

/// The scrambled form of one input word.
pub open spec fn mix_word(k: u32) -> u32 {
    rotl(k.wrapping_mul(MURMUR_C1), 15).wrapping_mul(MURMUR_C2)
}

/// The hash state after taking in one more word.
pub open spec fn mix_state(h: u32, k: u32) -> u32 {
    rotl(h ^ mix_word(k), 13).wrapping_mul(5).wrapping_add(MURMUR_N)
}

/// The final avalanche of the hash state.
pub open spec fn avalanche(h: u32) -> u32 {
    let h1 = (h ^ (h >> 16)).wrapping_mul(MURMUR_F1);
    let h2 = (h1 ^ (h1 >> 13)).wrapping_mul(MURMUR_F2);
    h2 ^ (h2 >> 16)
}

/// The checksum of the words `w0`, `w1`, `w2` under `seed`.
pub open spec fn spec_weak_checksum(w0: u32, w1: u32, w2: u32, seed: u32) -> u32 {
    avalanche(mix_state(mix_state(mix_state(seed, w0), w1), w2) ^ 12u32)
}

fn rotate(x: u32, r: u32) -> (out: u32)
    requires
        0 < r < 32,
    ensures
        out == rotl(x, r),
{
    (x << r) | (x >> (32 - r))
}

fn scramble(h: u32, k: u32) -> (out: u32)
    ensures
        out == mix_state(h, k),
{
    let k1: u32 = rotate(k.wrapping_mul(MURMUR_C1), 15).wrapping_mul(MURMUR_C2);
    rotate(h ^ k1, 13).wrapping_mul(5).wrapping_add(MURMUR_N)
}

/// Computes the checksum of three words under `seed`.
pub fn weak_checksum(w0: u32, w1: u32, w2: u32, seed: u32) -> (sum: u32)
    ensures
        sum == spec_weak_checksum(w0, w1, w2, seed),
{
    let h: u32 = scramble(scramble(scramble(seed, w0), w1), w2) ^ 12u32;
    let h1: u32 = (h ^ (h >> 16)).wrapping_mul(MURMUR_F1);
    let h2: u32 = (h1 ^ (h1 >> 13)).wrapping_mul(MURMUR_F2);
    h2 ^ (h2 >> 16)
}

proof fn lemma_times_c1(a: u32, b: u32)
    by (bit_vector)
    requires
        a.wrapping_mul(0xcc9e_2d51u32) == b.wrapping_mul(0xcc9e_2d51u32),
    ensures
        a == b,
{
}

proof fn lemma_times_c2(a: u32, b: u32)
    by (bit_vector)
    requires
        a.wrapping_mul(0x1b87_3593u32) == b.wrapping_mul(0x1b87_3593u32),
    ensures
        a == b,
{
}

proof fn lemma_times_five(a: u32, b: u32)
    by (bit_vector)
    requires
        a.wrapping_mul(5u32) == b.wrapping_mul(5u32),
    ensures
        a == b,
{
}

proof fn lemma_times_f1(a: u32, b: u32)
    by (bit_vector)
    requires
        a.wrapping_mul(0x85eb_ca6bu32) == b.wrapping_mul(0x85eb_ca6bu32),
    ensures
        a == b,
{
}

proof fn lemma_times_f2(a: u32, b: u32)
    by (bit_vector)
    requires
        a.wrapping_mul(0xc2b2_ae35u32) == b.wrapping_mul(0xc2b2_ae35u32),
    ensures
        a == b,
{
}

proof fn lemma_plus_n(a: u32, b: u32)
    by (bit_vector)
    requires
        a.wrapping_add(0xe654_6b64u32) == b.wrapping_add(0xe654_6b64u32),
    ensures
        a == b,
{
}

proof fn lemma_rotl_15(a: u32, b: u32)
    by (bit_vector)
    requires
        (a << 15u32) | (a >> 17u32) == (b << 15u32) | (b >> 17u32),
    ensures
        a == b,
{
}

proof fn lemma_rotl_13(a: u32, b: u32)
    by (bit_vector)
    requires
        (a << 13u32) | (a >> 19u32) == (b << 13u32) | (b >> 19u32),
    ensures
        a == b,
{
}

proof fn lemma_shift_16(a: u32, b: u32)
    by (bit_vector)
    requires
        a ^ (a >> 16u32) == b ^ (b >> 16u32),
    ensures
        a == b,
{
}

proof fn lemma_shift_13(a: u32, b: u32)
    by (bit_vector)
    requires
        a ^ (a >> 13u32) == b ^ (b >> 13u32),
    ensures
        a == b,
{
}

/// Xor with the same value on the left cancels.
proof fn lemma_xor_cancels(h: u32, a: u32, b: u32)
    by (bit_vector)
    requires
        h ^ a == h ^ b,
    ensures
        a == b,
{
}

/// Scrambling a word loses nothing: two words that scramble alike are the
/// same word.
pub proof fn lemma_mix_word_injective(a: u32, b: u32)
    requires
        mix_word(a) == mix_word(b),
    ensures
        a == b,
{
    let ma = a.wrapping_mul(MURMUR_C1);
    let mb = b.wrapping_mul(MURMUR_C1);
    lemma_times_c2(rotl(ma, 15), rotl(mb, 15));
    lemma_rotl_15(ma, mb);
    lemma_times_c1(a, b);
}

/// Taking in a word loses nothing of the state before.
pub proof fn lemma_mix_state_injective_in_state(g: u32, h: u32, j: u32, k: u32)
    requires
        mix_state(g, j) == mix_state(h, k),
    ensures
        g ^ mix_word(j) == h ^ mix_word(k),
{
    let x = g ^ mix_word(j);
    let y = h ^ mix_word(k);
    lemma_plus_n(rotl(x, 13).wrapping_mul(5), rotl(y, 13).wrapping_mul(5));
    lemma_times_five(rotl(x, 13), rotl(y, 13));
    lemma_rotl_13(x, y);
}

/// Taking in a word loses nothing of the word.
pub proof fn lemma_mix_state_injective_in_word(h: u32, a: u32, b: u32)
    requires
        mix_state(h, a) == mix_state(h, b),
    ensures
        a == b,
{
    lemma_mix_state_injective_in_state(h, h, a, b);
    lemma_xor_cancels(h, mix_word(a), mix_word(b));
    lemma_mix_word_injective(a, b);
}

/// The final avalanche loses nothing.
pub proof fn lemma_avalanche_injective(a: u32, b: u32)
    requires
        avalanche(a) == avalanche(b),
    ensures
        a == b,
{
    let a1 = (a ^ (a >> 16)).wrapping_mul(MURMUR_F1);
    let b1 = (b ^ (b >> 16)).wrapping_mul(MURMUR_F1);
    let a2 = (a1 ^ (a1 >> 13)).wrapping_mul(MURMUR_F2);
    let b2 = (b1 ^ (b1 >> 13)).wrapping_mul(MURMUR_F2);
    lemma_shift_16(a2, b2);
    lemma_times_f2(a1 ^ (a1 >> 13), b1 ^ (b1 >> 13));
    lemma_shift_13(a1, b1);
    lemma_times_f1(a ^ (a >> 16), b ^ (b >> 16));
    lemma_shift_16(a, b);
}

/// The checksum tells any two inputs apart that differ in one place only.
///
/// Two inputs that differ in exactly one of the three words, or in the seed
/// alone, have different checksums. In particular, flipping any one bit of
/// the twelve bytes that the checksum covers changes it, and so does moving
/// the bytes to a slot with another index.
pub proof fn lemma_checksum_detects_single_change(
    w0: u32,
    w1: u32,
    w2: u32,
    seed: u32,
    x0: u32,
    x1: u32,
    x2: u32,
    other_seed: u32,
)
    requires
        (w0, w1, w2, seed) != (x0, x1, x2, other_seed),
        (if w0 != x0 {
            1int
        } else {
            0int
        }) + (if w1 != x1 {
            1int
        } else {
            0int
        }) + (if w2 != x2 {
            1int
        } else {
            0int
        }) + (if seed != other_seed {
            1int
        } else {
            0int
        }) == 1,
    ensures
        spec_weak_checksum(w0, w1, w2, seed) != spec_weak_checksum(x0, x1, x2, other_seed),
{
    let a1 = mix_state(seed, w0);
    let b1 = mix_state(other_seed, x0);
    let a2 = mix_state(a1, w1);
    let b2 = mix_state(b1, x1);
    let a3 = mix_state(a2, w2);
    let b3 = mix_state(b2, x2);
    if spec_weak_checksum(w0, w1, w2, seed) == spec_weak_checksum(x0, x1, x2, other_seed) {
        lemma_avalanche_injective(a3 ^ 12u32, b3 ^ 12u32);
        lemma_xor_right_cancels(a3, b3, 12u32);
        assert(a3 == b3);
        lemma_mix_state_injective_in_state(a2, b2, w2, x2);
        if w2 != x2 {
            assert(a2 == b2);
            lemma_mix_state_injective_in_word(a2, w2, x2);
        } else {
            lemma_xor_right_cancels(a2, b2, mix_word(w2));
            assert(a2 == b2);
            lemma_mix_state_injective_in_state(a1, b1, w1, x1);
            if w1 != x1 {
                assert(a1 == b1);
                lemma_mix_state_injective_in_word(a1, w1, x1);
            } else {
                lemma_xor_right_cancels(a1, b1, mix_word(w1));
                assert(a1 == b1);
                lemma_mix_state_injective_in_state(seed, other_seed, w0, x0);
                if w0 != x0 {
                    assert(seed == other_seed);
                    lemma_mix_state_injective_in_word(seed, w0, x0);
                } else {
                    lemma_xor_right_cancels(seed, other_seed, mix_word(w0));
                }
            }
        }
    }
}

/// Xor with the same value on the right cancels.
proof fn lemma_xor_right_cancels(a: u32, b: u32, c: u32)
    by (bit_vector)
    requires
        a ^ c == b ^ c,
    ensures
        a == b,
{
}

} // verus!
