//! The staged commit of the make-before-break protocol.
//!
//! Before a page replaces another, the new page and its new table entry are
//! written, sealed together with the index of the slot they are meant for,
//! to the staging area. Only what reads back from there and authenticates is
//! adopted into the table. No byte on flash says in the clear that a commit
//! is pending, and none is needed: a mount adopts a staged copy that opens
//! under the key and whose slot holds nothing yet, and of two copies of a
//! page the one with the higher journal revision counts.

use vstd::prelude::*;
use vstd::slice::slice_subrange;
use crate::bytes::append_bytes;
use crate::bytes::append_zeros;
use crate::bytes::le_u32;
use crate::bytes::lemma_u32_le_round_trip;
use crate::bytes::take_array;
use crate::bytes::u32_from_le;
use crate::bytes::u32_le;
use crate::bytes::u32_to_le;
use crate::cipher::gcm_siv_open;
use crate::cipher::gcm_siv_opened;
use crate::cipher::gcm_siv_seal;
use crate::cipher::NONCE_LEN;
use crate::flags::PtFlags;
use crate::flash::entry_of;
use crate::flash::payload_of;
use crate::flash::probe;
use crate::flash::STAGING_LEN;
use crate::key::BasisKey;
use crate::page::encrypt_with_nonce;
use crate::page::lemma_bytes_decrypt;
use crate::page::PAGE_SIZE;
use crate::page::PAYLOAD_MAX;
use crate::page::REV_LIMIT;
use crate::pte::encode;
use crate::pte::VIRT_LIMIT;
use crate::pte::PTE_LEN;

verus! {

/// Length in bytes of what is sealed in the staging area.
pub const COMMIT_LEN: usize = 4116;

/// Where a logical page stands in the protocol.
#[derive(Clone, Copy, Debug, PartialEq, Eq, Structural)]
pub enum CommitState {
    /// Flash matches the table.
    Clean,
    /// The new page and entry are in the staging area, not yet authoritative.
    Staged,
    /// The staged copy has been read back and is being written to its slot.
    Adopting,
    /// The table points at the new slot; the old one waits to be reclaimed.
    Orphaned,
}

/// A page and its table entry on their way to slot `slot`.
#[derive(Clone, Debug)]
pub struct StagedCommit {
    pub slot: u32,
    pub pte: [u8; 16],
    pub page: Vec<u8>,
}

impl StagedCommit {
    /// True when the page is one page long.
    pub open spec fn wf(self) -> bool {
        self.page@.len() == PAGE_SIZE
    }

    /// The bytes that are sealed: slot index, entry, page.
    pub open spec fn spec_bytes(self) -> Seq<u8> {
        u32_le(self.slot) + self.pte@ + self.page@
    }
}

/// The associated data of the staging area.
pub open spec fn staging_aad() -> Seq<u8> {
    seq![0x4du8, 0x42u8, 0x42u8, 0x42u8, 0x53u8, 0x54u8, 0x41u8, 0x47u8]
}

/// Slot index, entry and page that `plain` spells, if it has the length of
/// a commit.
pub open spec fn spec_parse_commit(plain: Seq<u8>) -> Option<(u32, Seq<u8>, Seq<u8>)> {
    if plain.len() == COMMIT_LEN {
        Some(
            (
                le_u32(plain[0], plain[1], plain[2], plain[3]),
                plain.subrange(4, 4 + PTE_LEN as int),
                plain.subrange(4 + PTE_LEN as int, COMMIT_LEN as int),
            ),
        )
    } else {
        None
    }
}

/// The commit that the staging area holds for `key`, if it opens.
pub open spec fn spec_open_staging(staging: Seq<u8>, key: BasisKey) -> Option<(u32, Seq<u8>, Seq<u8>)> {
    if staging.len() == STAGING_LEN {
        match gcm_siv_opened(
            key.data@,
            staging.subrange(0, NONCE_LEN as int),
            staging_aad(),
            staging.subrange(NONCE_LEN as int, STAGING_LEN as int),
        ) {
            Some(plain) => spec_parse_commit(plain),
            None => None,
        }
    } else {
        None
    }
}

fn build_staging_aad() -> (aad: [u8; 8])
    ensures
        aad@ == staging_aad(),
{
    let aad: [u8; 8] = [0x4d, 0x42, 0x42, 0x42, 0x53, 0x54, 0x41, 0x47];
    assert(aad@ =~= staging_aad());
    aad
}

/// Seals `commit` for the staging area under a nonce that the caller has
/// drawn. The result opens, under the same key, to what went in.
pub fn seal_commit(commit: &StagedCommit, key: &BasisKey, nonce: &[u8; 12]) -> (staging: Vec<u8>)
    requires
        commit.wf(),
    ensures
        staging@.len() == STAGING_LEN,
        spec_open_staging(staging@, *key) == Some((commit.slot, commit.pte@, commit.page@)),
{
    let aad: [u8; 8] = build_staging_aad();
    let index: [u8; 4] = u32_to_le(commit.slot);
    let mut plain: Vec<u8> = Vec::with_capacity(COMMIT_LEN);
    append_bytes(&mut plain, index.as_slice());
    append_bytes(&mut plain, commit.pte.as_slice());
    append_bytes(&mut plain, commit.page.as_slice());
    let mut staging: Vec<u8> = Vec::with_capacity(STAGING_LEN);
    append_bytes(&mut staging, nonce.as_slice());
    match gcm_siv_seal(&key.data, nonce, aad.as_slice(), plain.as_slice()) {
        Some(sealed) => {
            append_bytes(&mut staging, sealed.as_slice());
            proof {
                lemma_u32_le_round_trip(commit.slot);
                assert(staging@.subrange(0, NONCE_LEN as int) =~= nonce@);
                assert(staging@.subrange(NONCE_LEN as int, STAGING_LEN as int) =~= sealed@);
                assert(plain@.subrange(4, 4 + PTE_LEN as int) =~= commit.pte@);
                assert(plain@.subrange(4 + PTE_LEN as int, COMMIT_LEN as int) =~= commit.page@);
                assert(plain@[0] == u32_le(commit.slot)[0] && plain@[1] == u32_le(commit.slot)[1]
                    && plain@[2] == u32_le(commit.slot)[2] && plain@[3] == u32_le(commit.slot)[3]);
            }
        },
        None => {
            proof {
                assert(false);
            }
        },
    }
    staging
}

/// The commit that marks the staging area as holding nothing to adopt: its
/// slot index is one that no region has.
pub fn seal_void_commit(key: &BasisKey, nonce: &[u8; 12]) -> (staging: Vec<u8>)
    ensures
        staging@.len() == STAGING_LEN,
        match spec_open_staging(staging@, *key) {
            Some(commit) => commit.0 == u32::MAX,
            None => false,
        },
{
    let mut page: Vec<u8> = Vec::with_capacity(PAGE_SIZE);
    append_zeros(&mut page, PAGE_SIZE);
    let commit = StagedCommit { slot: u32::MAX, pte: [0u8; 16], page };
    seal_commit(&commit, key, nonce)
}

/// Reads the staging area back under `key`. `None` when it does not open:
/// it holds noise, the commit of another basis, or a write that was cut off.
pub fn open_staging(staging: &[u8], key: &BasisKey) -> (commit: Option<StagedCommit>)
    ensures
        match commit {
            Some(c) => c.wf() && spec_open_staging(staging@, *key) == Some((c.slot, c.pte@, c.page@)),
            None => spec_open_staging(staging@, *key) is None,
        },
{
    if staging.len() != STAGING_LEN {
        return None;
    }
    let aad: [u8; 8] = build_staging_aad();
    let nonce: [u8; 12] = take_array(staging, 0);
    match gcm_siv_open(&key.data, &nonce, aad.as_slice(), slice_subrange(staging, NONCE_LEN, STAGING_LEN)) {
        None => None,
        Some(plain) => {
            if plain.len() != COMMIT_LEN {
                return None;
            }
            let slot: u32 = u32_from_le(plain[0], plain[1], plain[2], plain[3]);
            let pte: [u8; 16] = take_array(plain.as_slice(), 4);
            let mut page: Vec<u8> = Vec::with_capacity(PAGE_SIZE);
            append_bytes(&mut page, slice_subrange(plain.as_slice(), 4 + PTE_LEN, COMMIT_LEN));
            assert(page@ =~= plain@.subrange(4 + PTE_LEN as int, COMMIT_LEN as int));
            Some(StagedCommit { slot, pte, page })
        },
    }
}

/// The mapping that the staging area holds for `key`: target slot, virtual
/// address and journal revision, if the area opens and what it holds
/// decodes and authenticates for the target slot.
pub open spec fn spec_staged_entry(staging: Seq<u8>, key: BasisKey) -> Option<(u32, u64, u32)> {
    match spec_open_staging(staging, key) {
        Some(commit) => match entry_of(commit.1, commit.2, key, commit.0) {
            Some(entry) => Some((commit.0, entry.0, entry.1)),
            None => None,
        },
        None => None,
    }
}

/// Reads the staged copy back and authenticates it: the area must open
/// under `key`, the entry in it must decode for the target slot and the page
/// in it must authenticate there. Nothing is taken on trust from the write
/// that put it there.
pub fn read_staged(staging: &[u8], key: &BasisKey) -> (staged: Option<(StagedCommit, u64, u32)>)
    ensures
        match staged {
            Some((c, v, rev)) => {
                &&& c.wf()
                &&& spec_open_staging(staging@, *key) == Some((c.slot, c.pte@, c.page@))
                &&& entry_of(c.pte@, c.page@, *key, c.slot) == Some((v, rev))
                &&& spec_staged_entry(staging@, *key) == Some((c.slot, v, rev))
                &&& v < VIRT_LIMIT
                &&& rev < REV_LIMIT
            },
            None => spec_staged_entry(staging@, *key) is None,
        },
{
    match open_staging(staging, key) {
        None => None,
        Some(c) => match probe(&c.pte, c.page.as_slice(), key, c.slot) {
            Err(_) => None,
            Ok((v, rev)) => Some((c, v, rev)),
        },
    }
}

/// Builds the commit that puts `bytes` at `virtual_addr`, revision `rev`,
/// into slot `slot`: seals the page for the slot and encodes a clean entry
/// for it, under the nonces that the caller has drawn.
pub fn make_commit(
    bytes: &[u8],
    key: &BasisKey,
    slot: u32,
    virtual_addr: u64,
    rev: u32,
    page_nonce: &[u8; 12],
    pte_nonce: u32,
) -> (commit: StagedCommit)
    requires
        bytes@.len() <= PAYLOAD_MAX,
        rev < REV_LIMIT,
        virtual_addr < VIRT_LIMIT,
    ensures
        commit.wf(),
        commit.slot == slot,
        entry_of(commit.pte@, commit.page@, *key, slot) == Some((virtual_addr, rev)),
        payload_of(commit.page@, *key, slot) == Some(bytes@),
{
    let record = encrypt_with_nonce(bytes, key, slot, rev, page_nonce);
    let page: Vec<u8> = record.to_bytes();
    let pte: [u8; 16] = encode(virtual_addr, PtFlags::clean(), pte_nonce, key, slot);
    proof {
        lemma_bytes_decrypt(record, *key, slot);
        reveal(entry_of);
        reveal(payload_of);
    }
    StagedCommit { slot, pte, page }
}

} // verus!
