//! Fixed-width little-endian fields and copies between byte buffers.

use vstd::prelude::*;

verus! {

/// The four bytes of `x`, least significant first.
pub open spec fn u32_le(x: u32) -> Seq<u8> {
    seq![
        (x % 0x100) as u8,
        (x / 0x100 % 0x100) as u8,
        (x / 0x100 / 0x100 % 0x100) as u8,
        (x / 0x100 / 0x100 / 0x100 % 0x100) as u8,
    ]
}

/// The number that four bytes spell, least significant first.
pub open spec fn le_u32(b0: u8, b1: u8, b2: u8, b3: u8) -> u32 {
    (b0 as int + 0x100 * (b1 as int + 0x100 * (b2 as int + 0x100 * (b3 as int)))) as u32
}

/// The two bytes of `x`, least significant first.
pub open spec fn u16_le(x: u16) -> Seq<u8> {
    seq![(x % 0x100) as u8, (x / 0x100) as u8]
}

/// The number that two bytes spell, least significant first.
pub open spec fn le_u16(b0: u8, b1: u8) -> u16 {
    (b0 as int + b1 as int * 0x100) as u16
}

/// The low 32 bits of a 48-bit number.
pub open spec fn u48_low(x: u64) -> u32 {
    (x % 0x1_0000_0000) as u32
}

/// Bits 32 to 47 of a 48-bit number.
pub open spec fn u48_high(x: u64) -> u16 {
    ((x / 0x1_0000_0000) % 0x1_0000) as u16
}

/// The six low bytes of `x`, least significant first.
pub open spec fn u48_le(x: u64) -> Seq<u8> {
    u32_le(u48_low(x)) + u16_le(u48_high(x))
}

/// The number that six bytes spell, least significant first.
pub open spec fn le_u48(b0: u8, b1: u8, b2: u8, b3: u8, b4: u8, b5: u8) -> u64 {
    (le_u32(b0, b1, b2, b3) as int + le_u16(b4, b5) as int * 0x1_0000_0000) as u64
}

/// Reading four bytes back gives the number that was written.
pub proof fn lemma_u32_le_round_trip(x: u32)
    ensures
        u32_le(x).len() == 4,
        le_u32(u32_le(x)[0], u32_le(x)[1], u32_le(x)[2], u32_le(x)[3]) == x,
{
    let x0: int = x as int;
    let x1: int = x0 / 0x100;
    let x2: int = x1 / 0x100;
    let x3: int = x2 / 0x100;
    assert(x0 == x0 % 0x100 + 0x100 * x1);
    assert(x1 == x1 % 0x100 + 0x100 * x2);
    assert(x2 == x2 % 0x100 + 0x100 * x3);
    assert(x3 < 0x100);
    assert(x3 % 0x100 == x3);
}

/// Writing out what four bytes spell gives the same four bytes.
pub proof fn lemma_le_u32_round_trip(b0: u8, b1: u8, b2: u8, b3: u8)
    ensures
        u32_le(le_u32(b0, b1, b2, b3)) == seq![b0, b1, b2, b3],
{
    let x3: int = b3 as int;
    let x2: int = b2 as int + 0x100 * x3;
    let x1: int = b1 as int + 0x100 * x2;
    let x0: int = b0 as int + 0x100 * x1;
    assert(x0 <= u32::MAX);
    assert(x0 % 0x100 == b0 as int && x0 / 0x100 == x1);
    assert(x1 % 0x100 == b1 as int && x1 / 0x100 == x2);
    assert(x2 % 0x100 == b2 as int && x2 / 0x100 == x3);
    assert(x3 % 0x100 == b3 as int);
    assert(u32_le(le_u32(b0, b1, b2, b3)) =~= seq![b0, b1, b2, b3]);
}

/// Reading two bytes back gives the number that was written.
pub proof fn lemma_u16_le_round_trip(x: u16)
    ensures
        u16_le(x).len() == 2,
        le_u16(u16_le(x)[0], u16_le(x)[1]) == x,
{
}

/// Writing out what two bytes spell gives the same two bytes.
pub proof fn lemma_le_u16_round_trip(b0: u8, b1: u8)
    ensures
        u16_le(le_u16(b0, b1)) == seq![b0, b1],
{
    assert(u16_le(le_u16(b0, b1)) =~= seq![b0, b1]);
}

/// Reading six bytes back gives the number that was written, if it fits.
pub proof fn lemma_u48_le_round_trip(x: u64)
    requires
        x < 0x1_0000_0000_0000,
    ensures
        u48_le(x).len() == 6,
        le_u48(u48_le(x)[0], u48_le(x)[1], u48_le(x)[2], u48_le(x)[3], u48_le(x)[4], u48_le(x)[5])
            == x,
{
    let lo = u48_low(x);
    let hi = u48_high(x);
    lemma_u32_le_round_trip(lo);
    lemma_u16_le_round_trip(hi);
    let s = u48_le(x);
    assert(s[0] == u32_le(lo)[0] && s[1] == u32_le(lo)[1] && s[2] == u32_le(lo)[2] && s[3]
        == u32_le(lo)[3]);
    assert(s[4] == u16_le(hi)[0] && s[5] == u16_le(hi)[1]);
    assert(le_u32(s[0], s[1], s[2], s[3]) == lo);
    assert(le_u16(s[4], s[5]) == hi);
    assert(lo as int + hi as int * 0x1_0000_0000 == x as int);
}

/// A 48-bit number falls apart into its low 32 and its high 16 bits.
pub proof fn lemma_u48_split(lo: u32, hi: u16)
    ensures
        lo as int + hi as int * 0x1_0000_0000 < 0x1_0000_0000_0000,
        u48_low((lo as int + hi as int * 0x1_0000_0000) as u64) == lo,
        u48_high((lo as int + hi as int * 0x1_0000_0000) as u64) == hi,
{
}

/// Writing out what six bytes spell gives the same six bytes.
pub proof fn lemma_le_u48_round_trip(b0: u8, b1: u8, b2: u8, b3: u8, b4: u8, b5: u8)
    ensures
        le_u48(b0, b1, b2, b3, b4, b5) < 0x1_0000_0000_0000,
        u48_le(le_u48(b0, b1, b2, b3, b4, b5)) == seq![b0, b1, b2, b3, b4, b5],
{
    let lo = le_u32(b0, b1, b2, b3);
    let hi = le_u16(b4, b5);
    lemma_u48_split(lo, hi);
    lemma_le_u32_round_trip(b0, b1, b2, b3);
    lemma_le_u16_round_trip(b4, b5);
    assert(seq![b0, b1, b2, b3] + seq![b4, b5] =~= seq![b0, b1, b2, b3, b4, b5]);
}

/// The four bytes of `x`, least significant first.
pub fn u32_to_le(x: u32) -> (out: [u8; 4])
    ensures
        out@ == u32_le(x),
{
    let out: [u8; 4] = [
        (x % 0x100) as u8,
        (x / 0x100 % 0x100) as u8,
        (x / 0x100 / 0x100 % 0x100) as u8,
        (x / 0x100 / 0x100 / 0x100 % 0x100) as u8,
    ];
    assert(out@ =~= u32_le(x));
    out
}

/// The number that four bytes spell, least significant first.
pub fn u32_from_le(b0: u8, b1: u8, b2: u8, b3: u8) -> (x: u32)
    ensures
        x == le_u32(b0, b1, b2, b3),
{
    let hi: u32 = b2 as u32 + 0x100 * (b3 as u32);
    b0 as u32 + 0x100 * (b1 as u32 + 0x100 * hi)
}

/// The number that six bytes spell, least significant first.
pub fn u48_from_le(b0: u8, b1: u8, b2: u8, b3: u8, b4: u8, b5: u8) -> (x: u64)
    ensures
        x == le_u48(b0, b1, b2, b3, b4, b5),
{
    let lo: u32 = u32_from_le(b0, b1, b2, b3);
    let hi: u64 = b4 as u64 + b5 as u64 * 0x100;
    lo as u64 + hi * 0x1_0000_0000
}

/// The six low bytes of `x`, least significant first.
pub fn u48_to_le(x: u64) -> (out: [u8; 6])
    ensures
        out@ == u48_le(x),
{
    let lo: [u8; 4] = u32_to_le((x % 0x1_0000_0000) as u32);
    let hi: u64 = (x / 0x1_0000_0000) % 0x1_0000;
    let out: [u8; 6] = [lo[0], lo[1], lo[2], lo[3], (hi % 0x100) as u8, (hi / 0x100) as u8];
    assert(out@ =~= u48_le(x));
    out
}

/// Copies `N` bytes of `src`, starting at `offset`, into an array.
pub fn take_array<const N: usize>(src: &[u8], offset: usize) -> (out: [u8; N])
    requires
        offset + N <= src.len(),
    ensures
        out@ == src@.subrange(offset as int, offset + N),
{
    let mut out: [u8; N] = [0u8; N];
    let mut i: usize = 0;
    while i < N
        invariant
            0 <= i <= N,
            offset + N <= src.len(),
            forall|j: int| 0 <= j < i ==> out@[j] == src@[offset + j],
        decreases N - i,
    {
        out[i] = src[offset + i];
        i += 1;
    }
    assert(out@ =~= src@.subrange(offset as int, offset + N));
    out
}

/// Appends every byte of `src` to `dst`.
pub fn append_bytes(dst: &mut Vec<u8>, src: &[u8])
    ensures
        final(dst)@ == old(dst)@ + src@,
{
    let mut i: usize = 0;
    while i < src.len()
        invariant
            0 <= i <= src@.len(),
            dst@ == old(dst)@ + src@.subrange(0, i as int),
        decreases src@.len() - i,
    {
        dst.push(src[i]);
        assert(dst@ =~= old(dst)@ + src@.subrange(0, i + 1));
        i += 1;
    }
    assert(src@.subrange(0, src@.len() as int) =~= src@);
}

/// Appends `count` zero bytes to `dst`.
pub fn append_zeros(dst: &mut Vec<u8>, count: usize)
    ensures
        final(dst)@ == old(dst)@ + Seq::new(count as nat, |i: int| 0u8),
{
    let mut i: usize = 0;
    while i < count
        invariant
            0 <= i <= count,
            dst@ == old(dst)@ + Seq::new(i as nat, |j: int| 0u8),
        decreases count - i,
    {
        dst.push(0u8);
        assert(dst@ =~= old(dst)@ + Seq::new((i + 1) as nat, |j: int| 0u8));
        i += 1;
    }
}

/// True when the two buffers hold the same bytes.
pub fn bytes_equal(a: &[u8], b: &[u8]) -> (same: bool)
    ensures
        same == (a@ == b@),
{
    if a.len() != b.len() {
        return false;
    }
    let mut i: usize = 0;
    while i < a.len()
        invariant
            0 <= i <= a@.len(),
            a@.len() == b@.len(),
            forall|j: int| 0 <= j < i ==> a@[j] == b@[j],
        decreases a@.len() - i,
    {
        if a[i] != b[i] {
            return false;
        }
        i += 1;
    }
    assert(a@ =~= b@);
    true
}

} // verus!
