//! The free space circular buffer: the allocator of physical pages.
//!
//! In memory it is a queue of the pages that a basis may write next. Pages
//! leave at the front and freed pages join at the back, so a page that was
//! just freed is the last to be written again, and where the next write
//! lands says nothing about which page was written before.
//!
//! On flash every page has one log slot. A record in it, sealed under the
//! data key of a basis and bound to the slot, says that the page belongs to
//! the free space of that basis. To anyone without the key the record is
//! noise, and so is a slot that holds no record.

use vstd::prelude::*;
use std::collections::VecDeque;
use crate::bytes::append_bytes;
use crate::bytes::bytes_equal;
use crate::bytes::take_array;
use crate::bytes::u32_le;
use crate::bytes::u32_to_le;
use crate::cipher::gcm_siv_open;
use crate::cipher::gcm_siv_opened;
use crate::cipher::gcm_siv_seal;
use crate::cipher::gcm_siv_sealed;
use crate::cipher::NONCE_LEN;
use crate::error::PddbError;
use crate::key::BasisKey;

verus! {

/// Length in bytes of one record of the free space log.
pub const FREE_RECORD_LEN: usize = 32;

/// The queue of free physical pages of one basis.
#[derive(Debug)]
pub struct Fscb {
    pub queue: VecDeque<u32>,
}

impl View for Fscb {
    type V = Seq<u32>;

    open spec fn view(&self) -> Seq<u32> {
        self.queue@
    }
}

impl Fscb {
    /// An allocator with no free page.
    pub fn new() -> (fscb: Fscb)
        ensures
            fscb@ == Seq::<u32>::empty(),
    {
        Fscb { queue: VecDeque::new() }
    }

    /// Number of free pages.
    pub fn len(&self) -> (n: usize)
        ensures
            n == self@.len(),
    {
        self.queue.len()
    }

    /// Removes and returns the free page that has waited longest. Fails with
    /// `OutOfSpace` when there is none.
    pub fn allocate(&mut self) -> (page: Result<u32, PddbError>)
        ensures
            match page {
                Ok(p) => old(self)@.len() > 0 && p == old(self)@[0] && final(self)@ == old(self)@.drop_first(),
                Err(e) => e == PddbError::OutOfSpace && old(self)@.len() == 0 && final(self)@
                    == old(self)@,
            },
    {
        match self.queue.pop_front() {
            Some(p) => {
                assert(self@ =~= old(self)@.drop_first());
                Ok(p)
            },
            None => Err(PddbError::OutOfSpace),
        }
    }

    /// Appends `physical_index` to the free pages.
    pub fn free(&mut self, physical_index: u32)
        ensures
            final(self)@ == old(self)@.push(physical_index),
    {
        self.queue.push_back(physical_index);
    }

    /// True when `physical_index` is among the free pages.
    pub fn contains(&self, physical_index: u32) -> (found: bool)
        ensures
            found == self@.contains(physical_index),
    {
        let mut i: usize = 0;
        while i < self.queue.len()
            invariant
                0 <= i <= self@.len(),
                forall|j: int| 0 <= j < i ==> self@[j] != physical_index,
            decreases self@.len() - i,
        {
            if self.queue[i] == physical_index {
                return true;
            }
            i += 1;
        }
        false
    }
}

/// What is left of `queue` after `count` allocations.
pub open spec fn after_allocations(queue: Seq<u32>, count: nat) -> Seq<u32>
    decreases count,
{
    if count == 0 || queue.len() == 0 {
        queue
    } else {
        after_allocations(queue.drop_first(), (count - 1) as nat)
    }
}

/// After `count` allocations, with `count` no more than the queue holds, the
/// queue is the old one without its first `count` pages.
pub proof fn lemma_after_allocations(queue: Seq<u32>, count: nat)
    requires
        count <= queue.len(),
    ensures
        after_allocations(queue, count) == queue.subrange(count as int, queue.len() as int),
    decreases count,
{
    if count == 0 || queue.len() == 0 {
        assert(queue.subrange(0, queue.len() as int) =~= queue);
    } else {
        lemma_after_allocations(queue.drop_first(), (count - 1) as nat);
        assert(queue.drop_first().subrange(count - 1, queue.len() - 1) =~= queue.subrange(
            count as int,
            queue.len() as int,
        ));
    }
}

/// A freed page comes back: after `free(p)`, once every page that waited
/// before it has been allocated, the next allocation returns `p`.
pub proof fn lemma_freed_page_returns(queue: Seq<u32>, p: u32)
    ensures
        after_allocations(queue.push(p), queue.len()).len() > 0,
        after_allocations(queue.push(p), queue.len())[0] == p,
{
    lemma_after_allocations(queue.push(p), queue.len());
}

/// The associated data of the free record of page `slot`.
pub open spec fn free_record_aad(slot: u32) -> Seq<u8> {
    seq![0x46u8, 0x53u8, 0x43u8, 0x42u8] + u32_le(slot)
}

/// True when `record` says, under `key`, that page `slot` is free.
#[verifier::opaque]
pub open spec fn spec_free_record_opens(record: Seq<u8>, key: BasisKey, slot: u32) -> bool {
    gcm_siv_opened(
        key.data@,
        record.subrange(0, NONCE_LEN as int),
        free_record_aad(slot),
        record.subrange(NONCE_LEN as int, FREE_RECORD_LEN as int),
    ) == Some(u32_le(slot))
}

fn build_free_record_aad(slot: u32) -> (aad: Vec<u8>)
    ensures
        aad@ == free_record_aad(slot),
{
    let tag: [u8; 4] = [0x46, 0x53, 0x43, 0x42];
    let index: [u8; 4] = u32_to_le(slot);
    let mut aad: Vec<u8> = Vec::with_capacity(8);
    append_bytes(&mut aad, tag.as_slice());
    append_bytes(&mut aad, index.as_slice());
    assert(tag@ =~= seq![0x46u8, 0x53u8, 0x43u8, 0x42u8]);
    aad
}

/// The record that says, under `key`, that page `slot` is free, sealed
/// under `nonce`: the nonce, then the index of the slot, sealed, then the
/// tag.
pub open spec fn spec_sealed_free_record(key: BasisKey, slot: u32, nonce: Seq<u8>) -> Seq<u8> {
    match gcm_siv_sealed(key.data@, nonce, free_record_aad(slot), u32_le(slot)) {
        Some(sealed) => nonce + sealed,
        None => nonce,
    }
}

/// Seals the record that says page `slot` is free, under a nonce that the
/// caller has drawn.
pub fn seal_free_record(key: &BasisKey, slot: u32, nonce: &[u8; 12]) -> (record: [u8; 32])
    ensures
        record@ == spec_sealed_free_record(*key, slot, nonce@),
        spec_free_record_opens(record@, *key, slot),
{
    reveal(spec_free_record_opens);
    let aad: Vec<u8> = build_free_record_aad(slot);
    let index: [u8; 4] = u32_to_le(slot);
    let mut bytes: Vec<u8> = Vec::with_capacity(FREE_RECORD_LEN);
    append_bytes(&mut bytes, nonce.as_slice());
    match gcm_siv_seal(&key.data, nonce, aad.as_slice(), index.as_slice()) {
        Some(sealed) => {
            append_bytes(&mut bytes, sealed.as_slice());
            let record: [u8; 32] = take_array(bytes.as_slice(), 0);
            proof {
                assert(record@ =~= bytes@);
                assert(record@ =~= nonce@ + sealed@);
                assert(record@.subrange(0, NONCE_LEN as int) =~= nonce@);
                assert(record@.subrange(NONCE_LEN as int, FREE_RECORD_LEN as int) =~= sealed@);
            }
            record
        },
        None => {
            proof {
                assert(false);
            }
            [0u8; 32]
        },
    }
}

/// Checks whether `record` says, under `key`, that page `slot` is free.
pub fn free_record_opens(record: &[u8; 32], key: &BasisKey, slot: u32) -> (free: bool)
    ensures
        free == spec_free_record_opens(record@, *key, slot),
{
    reveal(spec_free_record_opens);
    let aad: Vec<u8> = build_free_record_aad(slot);
    let index: [u8; 4] = u32_to_le(slot);
    let nonce: [u8; 12] = take_array(record.as_slice(), 0);
    let sealed: &[u8] = vstd::slice::slice_subrange(record.as_slice(), NONCE_LEN, FREE_RECORD_LEN);
    match gcm_siv_open(&key.data, &nonce, aad.as_slice(), sealed) {
        Some(plain) => bytes_equal(plain.as_slice(), index.as_slice()),
        None => false,
    }
}

} // verus!
