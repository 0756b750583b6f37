//! The flags byte of a page table entry.

use vstd::prelude::*;

verus! {

/// Flags used by the page table, one bit each.
#[derive(Clone, Copy, Debug, PartialEq, Eq, Structural)]
pub struct PtFlags {
    pub bits: u8,
}

/// No bit: the page behind the entry did not decrypt.
pub const PT_LOCKED: u8 = 0b0000_0000;

/// The entry is synced to flash.
pub const PT_CLEAN: u8 = 0b0000_0001;

/// The entry has never been given a mapping.
pub const PT_UNINITIALIZED: u8 = 0b0000_0010;

/// The bits that have a meaning.
pub const PT_FLAGS_ALL: u8 = 0b0000_0011;

impl PtFlags {
    /// Pages that do not decrypt properly are marked as locked in the cache:
    /// no bit is set.
    pub fn locked() -> (r: PtFlags)
        ensures
            r == (PtFlags { bits: PT_LOCKED }),
            Self::valid_bits(r.bits),
    {
        assert(0u8 & !0b0000_0011u8 == 0) by (bit_vector);
        PtFlags { bits: PT_LOCKED }
    }

    /// Set for records that are synced to the copy in flash. Every valid
    /// record from flash has this set; it is cleared only for blocks in cache.
    pub fn clean() -> (r: PtFlags)
        ensures
            r == (PtFlags { bits: PT_CLEAN }),
            Self::valid_bits(r.bits),
            r.spec_contains(PtFlags { bits: PT_CLEAN }),
    {
        assert(0b0000_0001u8 & !0b0000_0011u8 == 0) by (bit_vector);
        assert(0b0000_0001u8 & 0b0000_0001u8 == 0b0000_0001u8) by (bit_vector);
        PtFlags { bits: PT_CLEAN }
    }

    /// Set for an entry that has never been given a mapping.
    pub fn uninitialized() -> (r: PtFlags)
        ensures
            r == (PtFlags { bits: PT_UNINITIALIZED }),
            Self::valid_bits(r.bits),
    {
        assert(0b0000_0010u8 & !0b0000_0011u8 == 0) by (bit_vector);
        PtFlags { bits: PT_UNINITIALIZED }
    }

    /// The flags with no bit set.
    pub fn empty() -> (r: PtFlags)
        ensures
            r.bits == 0,
    {
        PtFlags { bits: 0 }
    }

    /// The flags with every known bit set.
    pub fn all() -> (r: PtFlags)
        ensures
            r.bits == PT_FLAGS_ALL,
    {
        PtFlags { bits: PT_FLAGS_ALL }
    }

    /// The raw byte.
    pub fn bits(&self) -> (b: u8)
        ensures
            b == self.bits,
    {
        self.bits
    }

    /// True when the byte sets no bit outside the known ones.
    pub open spec fn valid_bits(b: u8) -> bool {
        b & !PT_FLAGS_ALL == 0
    }

    /// The flags of a raw byte, if it sets known bits only.
    pub fn from_bits(b: u8) -> (r: Option<PtFlags>)
        ensures
            r == (if Self::valid_bits(b) {
                Some(PtFlags { bits: b })
            } else {
                None
            }),
    {
        if b & !PT_FLAGS_ALL == 0 {
            Some(PtFlags { bits: b })
        } else {
            None
        }
    }

    /// The flags of a raw byte, unknown bits dropped.
    pub fn from_bits_truncate(b: u8) -> (r: PtFlags)
        ensures
            r.bits == b & PT_FLAGS_ALL,
            Self::valid_bits(r.bits),
    {
        assert((b & PT_FLAGS_ALL) & !PT_FLAGS_ALL == 0) by (bit_vector);
        PtFlags { bits: b & PT_FLAGS_ALL }
    }

    /// True when no bit is set.
    pub fn is_empty(&self) -> (r: bool)
        ensures
            r == (self.bits == 0),
    {
        self.bits == 0
    }

    /// True when every bit of `other` is set in `self`.
    pub open spec fn spec_contains(self, other: PtFlags) -> bool {
        self.bits & other.bits == other.bits
    }

    /// True when every bit of `other` is set in `self`.
    pub fn contains(&self, other: PtFlags) -> (r: bool)
        ensures
            r == self.spec_contains(other),
    {
        self.bits & other.bits == other.bits
    }

    /// Sets the bits of `other`.
    pub fn insert(&mut self, other: PtFlags)
        ensures
            final(self).bits == old(self).bits | other.bits,
            final(self).spec_contains(other),
    {
        let a: u8 = self.bits;
        let b: u8 = other.bits;
        assert((a | b) & b == b) by (bit_vector);
        self.bits = a | b;
    }

    /// Clears the bits of `other`.
    pub fn remove(&mut self, other: PtFlags)
        ensures
            final(self).bits == old(self).bits & !other.bits,
            final(self).bits & other.bits == 0,
    {
        let a: u8 = self.bits;
        let b: u8 = other.bits;
        assert((a & !b) & b == 0) by (bit_vector);
        self.bits = a & !b;
    }

    /// True when the entry is synced to flash.
    pub fn is_clean(&self) -> (r: bool)
        ensures
            r == self.spec_contains(PtFlags { bits: PT_CLEAN }),
    {
        self.bits & PT_CLEAN == PT_CLEAN
    }
}

impl Default for PtFlags {
    /// A fresh entry is uninitialized.
    fn default() -> (r: PtFlags)
        ensures
            r == (PtFlags { bits: PT_UNINITIALIZED }),
    {
        PtFlags { bits: PT_UNINITIALIZED }
    }
}

} // verus!
