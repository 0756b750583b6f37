//! The image of the flash region that the store keeps, and what a slot of it
//! holds for a key.
//!
//! The region has four parts: the page table, one encrypted entry per
//! physical page; the pages themselves, in the same index space; the free
//! space log, one record per page; and the staging area of the commit
//! protocol. A fresh region is random noise throughout.

use vstd::prelude::*;
use vstd::slice::slice_subrange;
use crate::bytes::append_bytes;
use crate::bytes::take_array;
use crate::cipher::os_entropy;
use crate::cipher::ENTROPY_LEN;
use crate::error::PddbError;
use crate::flags::PtFlags;
use crate::flags::PT_CLEAN;
use crate::fscb::spec_free_record_opens;
use crate::fscb::FREE_RECORD_LEN;
use crate::pte::PTE_LEN;
use crate::key::BasisKey;
use crate::page::decrypt_page;
use crate::page::lemma_revision_bound;
use crate::page::spec_decrypt_page;
use crate::page::PAGE_SIZE;
use crate::page::REV_LIMIT;
use crate::pte::decode;
use crate::pte::fast_classify;
use crate::pte::spec_decode;
use crate::pte::spec_fast_classify;
use crate::pte::VIRT_LIMIT;

verus! {

/// Length in bytes of the staging area: a nonce, then the index of the
/// target slot, its table entry and its page, sealed, then the tag.
pub const STAGING_LEN: usize = 4144;

/// The image of the flash region.
#[derive(Clone, Debug)]
pub struct Flash {
    /// The page table: slot `i` is the entry of page `i`.
    pub ptes: Vec<[u8; 16]>,
    /// The pages, each exactly one page long.
    pub pages: Vec<Vec<u8>>,
    /// The free space log: slot `i` may hold the free record of page `i`.
    pub fscb: Vec<[u8; 32]>,
    /// The staging area of the commit protocol.
    pub staging: Vec<u8>,
}

/// The mapping that a slot with table entry `pte` and page `page` holds for
/// `key`: virtual address and journal revision, if the entry decodes, is
/// clean, and the page behind it authenticates.
#[verifier::opaque]
pub open spec fn entry_of(pte: Seq<u8>, page: Seq<u8>, key: BasisKey, slot: u32) -> Option<
    (u64, u32),
> {
    match spec_decode(pte, key, slot) {
        Some(entry) => if entry.flags.spec_contains(PtFlags { bits: PT_CLEAN }) {
            match spec_decrypt_page(page, key, slot) {
                Ok(content) => Some((entry.addr, content.1)),
                Err(_) => None,
            }
        } else {
            None
        },
        None => None,
    }
}

/// What `page` holds for `key` in slot `slot`, if it authenticates.
#[verifier::opaque]
pub open spec fn payload_of(page: Seq<u8>, key: BasisKey, slot: u32) -> Option<Seq<u8>> {
    match spec_decrypt_page(page, key, slot) {
        Ok(content) => Some(content.0),
        Err(_) => None,
    }
}

/// True when the table entry `pte` decodes under `key` in slot `slot`.
#[verifier::opaque]
pub open spec fn decodes(pte: Seq<u8>, key: BasisKey, slot: u32) -> bool {
    spec_decode(pte, key, slot) is Some
}

/// A slot that holds a mapping has an entry that decodes and a page that
/// authenticates.
pub proof fn lemma_entry_parts(pte: Seq<u8>, page: Seq<u8>, key: BasisKey, slot: u32)
    requires
        entry_of(pte, page, key, slot) is Some,
    ensures
        decodes(pte, key, slot),
        payload_of(page, key, slot) is Some,
        spec_decrypt_page(page, key, slot) is Ok,
{
    reveal(entry_of);
    reveal(payload_of);
    reveal(decodes);
}

/// The length in bytes of a region of `pages` pages: for each page a table
/// entry, the page and a free record, and the staging area.
pub open spec fn region_len(pages: nat) -> nat {
    pages * 4144 + 4144
}

/// True when `flash` is `bytes` laid out as a region of `pages` pages: the
/// page table first, then the pages, then the free space log, then the
/// staging area.
pub open spec fn is_region_of(flash: Flash, pages: nat, bytes: Seq<u8>) -> bool {
    &&& flash.ptes@.len() == pages
    &&& flash.pages@.len() == pages
    &&& flash.fscb@.len() == pages
    &&& forall|i: int|
        0 <= i < pages ==> (#[trigger] flash.ptes@[i])@ == bytes.subrange(
            PTE_LEN * i,
            PTE_LEN * i + PTE_LEN,
        )
    &&& forall|i: int|
        0 <= i < pages ==> (#[trigger] flash.pages@[i])@ == bytes.subrange(
            PTE_LEN * pages + PAGE_SIZE * i,
            PTE_LEN * pages + PAGE_SIZE * i + PAGE_SIZE,
        )
    &&& forall|i: int|
        0 <= i < pages ==> (#[trigger] flash.fscb@[i])@ == bytes.subrange(
            4112 * pages + FREE_RECORD_LEN * i,
            4112 * pages + FREE_RECORD_LEN * i + FREE_RECORD_LEN,
        )
    &&& flash.staging@ == bytes.subrange(4144 * pages as int, 4144 * pages + STAGING_LEN)
}

impl Flash {
    /// Number of physical pages.
    pub open spec fn page_count(self) -> nat {
        self.ptes@.len()
    }

    /// True when the parts have the sizes that the layout fixes.
    pub open spec fn wf(self) -> bool {
        &&& self.ptes@.len() <= u32::MAX
        &&& self.pages@.len() == self.ptes@.len()
        &&& self.fscb@.len() == self.ptes@.len()
        &&& self.staging@.len() == STAGING_LEN
        &&& forall|i: int| 0 <= i < self.pages@.len() ==> (#[trigger] self.pages@[i])@.len() == PAGE_SIZE
    }

    /// The mapping that slot `p` holds for `key`.
    pub open spec fn spec_slot_entry(self, key: BasisKey, p: int) -> Option<(u64, u32)> {
        entry_of(self.ptes@[p]@, self.pages@[p]@, key, p as u32)
    }

    /// What page `p` holds for `key`, if it authenticates.
    pub open spec fn spec_payload(self, key: BasisKey, p: int) -> Option<Seq<u8>> {
        payload_of(self.pages@[p]@, key, p as u32)
    }

    /// True when the table entry of slot `p` decodes under `key`.
    pub open spec fn spec_decodes(self, key: BasisKey, p: int) -> bool {
        decodes(self.ptes@[p]@, key, p as u32)
    }

    /// True when the free space log gives page `p` to `key`.
    pub open spec fn spec_listed_free(self, key: BasisKey, p: int) -> bool {
        spec_free_record_opens(self.fscb@[p]@, key, p as u32)
    }

    /// Number of physical pages.
    pub fn pages(&self) -> (n: u32)
        requires
            self.wf(),
        ensures
            n == self.page_count(),
    {
        self.ptes.len() as u32
    }

    /// Checks that the parts have the sizes that the layout fixes.
    pub fn check(&self) -> (ok: bool)
        ensures
            ok == self.wf(),
    {
        let n: usize = self.ptes.len();
        if n > u32::MAX as usize || self.pages.len() != n || self.fscb.len() != n
            || self.staging.len() != STAGING_LEN {
            return false;
        }
        let mut i: usize = 0;
        while i < n
            invariant
                0 <= i <= n,
                n == self.pages@.len(),
                forall|j: int| 0 <= j < i ==> (#[trigger] self.pages@[j])@.len() == PAGE_SIZE,
            decreases n - i,
        {
            if self.pages[i].len() != PAGE_SIZE {
                return false;
            }
            i += 1;
        }
        true
    }

    /// Lays `bytes` out as a region of `pages` pages: first the page table,
    /// then the pages, then the free space log, then the staging area.
    /// `None` when `bytes` does not have the length of such a region.
    pub fn from_bytes(pages: u32, bytes: &[u8]) -> (flash: Option<Flash>)
        ensures
            flash is Some <==> bytes@.len() == region_len(pages as nat),
            flash matches Some(f) ==> f.wf() && is_region_of(f, pages as nat, bytes@),
    {
        let expected: u64 = pages as u64 * 4144 + 4144;
        if bytes.len() as u64 != expected {
            return None;
        }
        let n: usize = pages as usize;
        let mut ptes: Vec<[u8; 16]> = Vec::with_capacity(n);
        let mut page_data: Vec<Vec<u8>> = Vec::with_capacity(n);
        let mut fscb: Vec<[u8; 32]> = Vec::with_capacity(n);
        let mut i: usize = 0;
        while i < n
            invariant
                0 <= i <= n,
                n == pages,
                bytes.len() == 4144 * n + 4144,
                bytes@.len() == 4144 * n + 4144,
                ptes@.len() == i,
                page_data@.len() == i,
                fscb@.len() == i,
                forall|j: int|
                    0 <= j < i ==> (#[trigger] ptes@[j])@ == bytes@.subrange(
                        PTE_LEN * j,
                        PTE_LEN * j + PTE_LEN,
                    ),
                forall|j: int|
                    0 <= j < i ==> (#[trigger] page_data@[j])@ == bytes@.subrange(
                        PTE_LEN * n + PAGE_SIZE * j,
                        PTE_LEN * n + PAGE_SIZE * j + PAGE_SIZE,
                    ),
                forall|j: int|
                    0 <= j < i ==> (#[trigger] fscb@[j])@ == bytes@.subrange(
                        4112 * n + FREE_RECORD_LEN * j,
                        4112 * n + FREE_RECORD_LEN * j + FREE_RECORD_LEN,
                    ),
            decreases n - i,
        {
            ptes.push(take_array(bytes, PTE_LEN * i));
            let mut page: Vec<u8> = Vec::with_capacity(PAGE_SIZE);
            let at: usize = PTE_LEN * n + PAGE_SIZE * i;
            append_bytes(&mut page, slice_subrange(bytes, at, at + PAGE_SIZE));
            assert(page@ =~= bytes@.subrange(at as int, at + PAGE_SIZE));
            page_data.push(page);
            fscb.push(take_array(bytes, 4112 * n + FREE_RECORD_LEN * i));
            i += 1;
        }
        let mut staging: Vec<u8> = Vec::with_capacity(STAGING_LEN);
        append_bytes(&mut staging, slice_subrange(bytes, 4144 * n, 4144 * n + STAGING_LEN));
        assert(staging@ =~= bytes@.subrange(4144 * n, 4144 * n + STAGING_LEN));
        Some(Flash { ptes, pages: page_data, fscb, staging })
    }

    /// A fresh region of `pages` pages: random bytes of the length of the
    /// region, laid out as `from_bytes` lays them out. Fails with
    /// `EntropyUnavailable` when the random source gives nothing, and with
    /// `OutOfSpace` when the region is larger than memory can be.
    pub fn noise(pages: u32) -> (flash: Result<Flash, PddbError>)
        ensures
            match flash {
                Ok(f) => f.wf() && f.page_count() == pages && exists|bytes: Seq<u8>|
                    bytes.len() == region_len(pages as nat) && #[trigger] is_region_of(
                        f,
                        pages as nat,
                        bytes,
                    ),
                Err(e) => e == PddbError::EntropyUnavailable || (e == PddbError::OutOfSpace
                    && region_len(pages as nat) > usize::MAX),
            },
            region_len(pages as nat) > usize::MAX ==> flash is Err,
    {
        let expected: u64 = pages as u64 * 4144 + 4144;
        if expected > usize::MAX as u64 {
            return Err(PddbError::OutOfSpace);
        }
        let bytes: Vec<u8> = match random_bytes(expected as usize) {
            Ok(b) => b,
            Err(e) => {
                return Err(e);
            },
        };
        match Flash::from_bytes(pages, bytes.as_slice()) {
            Some(f) => {
                proof {
                    assert(bytes@.len() == region_len(pages as nat));
                    assert(f.page_count() == pages);
                    assert(is_region_of(f, pages as nat, bytes@));
                }
                Ok(f)
            },
            None => {
                proof {
                    assert(false);
                }
                Err(PddbError::EntropyUnavailable)
            },
        }
    }

    /// Classifies slot `p` for `key`. The two errors both say that the slot
    /// holds nothing for this key, and no caller may conclude more from
    /// either.
    pub fn probe_slot(&self, key: &BasisKey, p: u32) -> (entry: Result<(u64, u32), PddbError>)
        requires
            self.wf(),
            p < self.page_count(),
        ensures
            match entry {
                Ok(found) => self.spec_slot_entry(*key, p as int) == Some(found) && found.0
                    < VIRT_LIMIT && found.1 < REV_LIMIT,
                Err(e) => self.spec_slot_entry(*key, p as int) is None && e == (
                if spec_fast_classify(self.ptes@[p as int]@, *key, p) {
                    PddbError::AuthenticationFailure
                } else {
                    PddbError::ChecksumPreFilterReject
                }),
            },
    {
        probe(&self.ptes[p as usize], self.pages[p as usize].as_slice(), key, p)
    }
}

/// Classifies a table entry and the page behind it for `key`: first by the
/// checksum of the entry, then by a full decode of the entry, then by
/// authenticating the page. The error is `ChecksumPreFilterReject` exactly
/// when the checksum filter rejects the entry, and `AuthenticationFailure`
/// when the entry passes the filter but does not decode, is not clean, or
/// its page does not authenticate. A reject by the checksum is no
/// conclusion by itself; the caller treats it as it treats a failed
/// authentication.
pub fn probe(pte: &[u8; 16], page: &[u8], key: &BasisKey, slot: u32) -> (entry: Result<
    (u64, u32),
    PddbError,
>)
    ensures
        match entry {
            Ok(found) => entry_of(pte@, page@, *key, slot) == Some(found) && found.0 < VIRT_LIMIT
                && found.1 < REV_LIMIT,
            Err(e) => entry_of(pte@, page@, *key, slot) is None && e == (if spec_fast_classify(
                pte@,
                *key,
                slot,
            ) {
                PddbError::AuthenticationFailure
            } else {
                PddbError::ChecksumPreFilterReject
            }),
        },
{
    reveal(entry_of);
    if !fast_classify(pte, key, slot) {
        return Err(PddbError::ChecksumPreFilterReject);
    }
    match decode(pte, key, slot) {
        None => Err(PddbError::AuthenticationFailure),
        Some(entry) => {
            if !entry.flags.is_clean() {
                return Err(PddbError::AuthenticationFailure);
            }
            match decrypt_page(page, key, slot) {
                Err(e) => Err(e),
                Ok((_, journal_rev)) => {
                    proof {
                        lemma_revision_bound(page@, *key, slot);
                    }
                    Ok((entry.addr, journal_rev))
                },
            }
        },
    }
}

/// Draws `len` random bytes. Fails only when the random source does; for no
/// bytes nothing is drawn, and nothing can fail.
pub fn random_bytes(len: usize) -> (bytes: Result<Vec<u8>, PddbError>)
    ensures
        match bytes {
            Ok(b) => b@.len() == len,
            Err(e) => e == PddbError::EntropyUnavailable,
        },
        len == 0 ==> bytes is Ok,
{
    let mut out: Vec<u8> = Vec::with_capacity(len);
    while out.len() < len
        invariant
            out@.len() <= len,
        decreases len - out@.len(),
    {
        let entropy: [u8; 64] = match os_entropy() {
            Some(e) => e,
            None => {
                return Err(PddbError::EntropyUnavailable);
            },
        };
        let missing: usize = len - out.len();
        let take: usize = if missing < ENTROPY_LEN {
            missing
        } else {
            ENTROPY_LEN
        };
        append_bytes(&mut out, slice_subrange(entropy.as_slice(), 0, take));
    }
    Ok(out)
}

} // verus!
