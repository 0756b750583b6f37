//! Reading, writing and deleting pages of an open basis.
//!
//! A write never touches the page it replaces. The new copy goes to a free
//! page of the basis, by way of the staging area: staged, read back and
//! authenticated, adopted into its slot, and only then is the old slot
//! given up. At every point in between, flash holds the old copy or the new
//! one under an entry that authenticates, and the higher journal revision
//! says which one counts.

use vstd::prelude::*;
use crate::bytes::take_array;
use crate::bytes::u32_from_le;
use crate::cipher::os_entropy;
use crate::engine::BasisHandle;
use crate::engine::ReversePte;
use crate::engine::Pddb;
use crate::engine::SlotUse;
use crate::error::PddbError;
use crate::flags::PtFlags;
use crate::flags::PT_CLEAN;
use crate::flash::decodes;
use crate::flash::entry_of;
use crate::flash::payload_of;
use crate::flash::STAGING_LEN;
use crate::fscb::seal_free_record;
use crate::fscb::spec_sealed_free_record;
use crate::key::BasisKey;
use crate::mbbb::make_commit;
use crate::mbbb::read_staged;
use crate::mbbb::seal_commit;
use crate::mbbb::seal_void_commit;
use crate::mbbb::spec_open_staging;
use crate::mbbb::CommitState;
use crate::mbbb::StagedCommit;
use crate::basis::spec_adoptable;
use crate::recovery::fresh_arena;
use crate::recovery::is_crash_image;
use crate::page::PAYLOAD_MAX;
use crate::page::REV_LIMIT;
use crate::pte::decode;
use crate::pte::VIRT_LIMIT;

verus! {

/// The journal revision that follows `rev`: one more, or zero for a page
/// that is written for the first time.
pub open spec fn next_rev(rev: Option<u32>) -> int {
    match rev {
        Some(r) => r + 1,
        None => 0,
    }
}

impl Pddb {
    /// True when every page but `v` of basis `h` is in `other` where it is
    /// in `self`, at the same revision and with the same content.
    pub open spec fn same_pages_except(self, other: Pddb, h: int, v: u64) -> bool {
        forall|k: int, a: u64|
            #![trigger other.spec_content(k, a)]
            #![trigger other.spec_resolve(k, a)]
            #![trigger other.spec_rev(k, a)]
            k != h || a != v ==> {
                &&& other.spec_resolve(k, a) == self.spec_resolve(k, a)
                &&& other.spec_rev(k, a) == self.spec_rev(k, a)
                &&& other.spec_content(k, a) == self.spec_content(k, a)
            }
    }

    /// True when the flash of `self` is what a write of `bytes` to `v` of
    /// basis `h` leaves of the flash of `before` once it has run to the end:
    /// the staging area holds the commit, the new slot holds its page and
    /// entry, and nothing but the table entry and the free record of the
    /// slot that was replaced has changed beside.
    pub open spec fn is_written_image(self, before: Pddb, h: int, v: u64, bytes: Seq<u8>) -> bool {
        let key = before.bases@[h].key;
        let slot = before.bases@[h].free@[0];
        match spec_open_staging(self.flash.staging@, key) {
            Some(commit) => {
                &&& commit.0 == slot
                &&& entry_of(commit.1, commit.2, key, slot) == Some(
                    (v, next_rev(before.spec_rev(h, v)) as u32),
                )
                &&& payload_of(commit.2, key, slot) == Some(bytes)
                &&& is_crash_image(
                    before.flash,
                    self.flash,
                    key,
                    slot as int,
                    commit.1,
                    commit.2,
                    match before.spec_resolve(h, v) {
                        Some(p) => Some(p as int),
                        None => None,
                    },
                    CommitState::Orphaned,
                )
                &&& forall|q: int|
                    0 <= q < before.flash.fscb@.len() && Some(q as u32) != before.spec_resolve(h, v)
                        ==> (#[trigger] self.flash.fscb@[q])@ == before.flash.fscb@[q]@
            },
            None => false,
        }
    }

    /// True when the staging area holds nothing that a mount of basis `h`
    /// would adopt in a store that has just been started: it does not open
    /// under the key of the basis, or the copy in it is already in its slot,
    /// or it names no slot of the region.
    pub open spec fn staging_settled(self, h: int) -> bool {
        spec_adoptable(self.flash, fresh_arena(self.flash.page_count()), self.bases@[h].key)
            is None
    }

    /// True when the owners, the free queue and the slot that was replaced
    /// are in `self` what a write to `v` of the basis of `handle` makes of
    /// them in `before`, with the random bytes `entropy`.
    ///
    /// The write takes the first page of the free queue, and that slot is
    /// live for `v`. The slot that backed `v` before, if any, is given up
    /// with bytes 28 to 43 of `entropy` as noise and bytes 44 to 55 as
    /// nonce: when the noise does not decode under the key of the basis, the
    /// slot has the noise as its table entry and the sealed record as its
    /// free record, is free, and stands at the back of the queue; when the
    /// noise decodes, the slot is orphaned and its entry and record are as
    /// they were. Every other slot has the owner it had.
    pub open spec fn is_written_state(
        self,
        before: Pddb,
        handle: usize,
        v: u64,
        entropy: Seq<u8>,
    ) -> bool {
        let h = handle as int;
        let key = before.bases@[h].key;
        let slot = before.bases@[h].free@[0];
        let rest = before.bases@[h].free@.drop_first();
        let live = before.arena@.update(slot as int, SlotUse::Live(handle, v));
        &&& self.flash.ptes@.len() == before.flash.ptes@.len()
        &&& self.flash.fscb@.len() == before.flash.fscb@.len()
        &&& match before.spec_resolve(h, v) {
            Some(old) => if !decodes(entropy.subrange(28, 44), key, old) {
                &&& self.bases@[h].free@ == rest.push(old)
                &&& self.arena@ == live.update(old as int, SlotUse::Free(handle))
                &&& self.flash.ptes@[old as int]@ == entropy.subrange(28, 44)
                &&& self.flash.fscb@[old as int]@ == spec_sealed_free_record(
                    key,
                    old,
                    entropy.subrange(44, 56),
                )
            } else {
                &&& self.bases@[h].free@ == rest
                &&& self.arena@ == live.update(old as int, SlotUse::Orphaned(handle))
                &&& self.flash.ptes@[old as int] == before.flash.ptes@[old as int]
                &&& self.flash.fscb@[old as int] == before.flash.fscb@[old as int]
            },
            None => self.bases@[h].free@ == rest && self.arena@ == live,
        }
    }

    /// True when `self` is what giving up the page at `v` of the basis of
    /// `handle` makes of `before`, with `noise` for the table entry and
    /// `nonce` for the free record: the slot that backed `v` has the noise
    /// as its table entry and the record sealed under the nonce as its free
    /// record, is free, and stands at the back of the free queue; every
    /// other table entry, free record and owner, and every page, is as it
    /// was.
    pub open spec fn is_released(
        self,
        before: Pddb,
        handle: usize,
        v: u64,
        noise: Seq<u8>,
        nonce: Seq<u8>,
    ) -> bool {
        let h = handle as int;
        let key = before.bases@[h].key;
        match before.spec_resolve(h, v) {
            Some(p) => {
                &&& self.bases@[h].free@ == before.bases@[h].free@.push(p)
                &&& self.arena@ == before.arena@.update(p as int, SlotUse::Free(handle))
                &&& self.flash.pages == before.flash.pages
                &&& self.flash.ptes@.len() == before.flash.ptes@.len()
                &&& self.flash.fscb@.len() == before.flash.fscb@.len()
                &&& self.flash.ptes@[p as int]@ == noise
                &&& self.flash.fscb@[p as int]@ == spec_sealed_free_record(key, p, nonce)
                &&& forall|q: int|
                    0 <= q < before.flash.ptes@.len() && q != p ==> #[trigger] self.flash.ptes@[q]
                        == before.flash.ptes@[q]
                &&& forall|q: int|
                    0 <= q < before.flash.fscb@.len() && q != p ==> #[trigger] self.flash.fscb@[q]
                        == before.flash.fscb@[q]
            },
            None => false,
        }
    }

    /// True when a write to `v` of basis `h` has what it needs.
    pub open spec fn can_write(self, h: int, v: u64) -> bool {
        &&& self.is_open(h)
        &&& next_rev(self.spec_rev(h, v)) < REV_LIMIT
        &&& self.bases@[h].free@.len() > 0
    }

    /// The error of a write to `v` of basis `h` that lacks something.
    pub open spec fn write_error(self, h: int, v: u64) -> PddbError {
        if !self.is_open(h) {
            PddbError::NotFound
        } else if next_rev(self.spec_rev(h, v)) >= REV_LIMIT {
            PddbError::JournalExhausted
        } else {
            PddbError::OutOfSpace
        }
    }

    /// A store that differs in the staging area only is as well-formed.
    pub proof fn lemma_staging_wf(self, other: Pddb)
        requires
            self.wf(),
            other.flash.ptes == self.flash.ptes,
            other.flash.pages == self.flash.pages,
            other.flash.fscb == self.flash.fscb,
            other.flash.staging@.len() == STAGING_LEN,
            other.arena == self.arena,
            other.bases == self.bases,
        ensures
            other.wf(),
    {
        assert forall|h: int| 0 <= h < other.bases@.len() implies #[trigger] other.basis_wf(h) by {
            assert(self.basis_wf(h));
            assert forall|v: u64| #[trigger]
                other.bases@[h].map@.contains_key(v) implies other.mapping_wf(h, v) by {
                assert(self.mapping_wf(h, v));
            }
        }
        assert forall|p: int| 0 <= p < other.arena@.len() implies #[trigger] other.slot_wf(p) by {
            assert(self.slot_wf(p));
        }
    }

    /// Seals the free record of a free slot of the basis anew, under
    /// `nonce`.
    pub(crate) fn reseal(&mut self, handle: BasisHandle, slot: u32, nonce: &[u8; 12])
        requires
            old(self).wf(),
            old(self).is_open(handle as int),
            slot < old(self).flash.page_count(),
            old(self).arena@[slot as int] == SlotUse::Free(handle),
        ensures
            final(self).wf(),
            final(self).flash.ptes == old(self).flash.ptes,
            final(self).flash.pages == old(self).flash.pages,
            final(self).flash.staging == old(self).flash.staging,
            final(self).flash.fscb@.len() == old(self).flash.fscb@.len(),
            final(self).flash.fscb@[slot as int]@ == spec_sealed_free_record(
                old(self).bases@[handle as int].key,
                slot,
                nonce@,
            ),
            forall|q: int|
                0 <= q < old(self).flash.fscb@.len() && q != slot ==> #[trigger] final(self).flash.fscb@[q] == old(self).flash.fscb@[q],
            final(self).arena == old(self).arena,
            final(self).bases == old(self).bases,
    {
        let key: BasisKey = self.bases[handle].key;
        self.flash.fscb[slot as usize] = seal_free_record(&key, slot, nonce);
        proof {
            assert forall|h: int| 0 <= h < self.bases@.len() implies #[trigger] self.basis_wf(h) by {
                assert(old(self).basis_wf(h));
                assert forall|v: u64| #[trigger]
                    self.bases@[h].map@.contains_key(v) implies self.mapping_wf(h, v) by {
                    assert(old(self).mapping_wf(h, v));
                }
            }
            assert forall|p: int| 0 <= p < self.arena@.len() implies #[trigger] self.slot_wf(p) by {
                assert(old(self).slot_wf(p));
            }
        }
    }

    /// Writes `staging` to the staging area.
    pub(crate) fn stage(&mut self, staging: Vec<u8>)
        requires
            old(self).wf(),
            staging@.len() == STAGING_LEN,
        ensures
            final(self).wf(),
            final(self).flash.staging == staging,
            final(self).flash.ptes == old(self).flash.ptes,
            final(self).flash.pages == old(self).flash.pages,
            final(self).flash.fscb == old(self).flash.fscb,
            final(self).arena == old(self).arena,
            final(self).bases == old(self).bases,
    {
        self.flash.staging = staging;
        proof {
            old(self).lemma_staging_wf(*self);
        }
    }

    /// Every page but `v` of basis `h` stays where it is and holds what it
    /// held, when the maps agree but at `v` and the pages that were live,
    /// but the one of `v`, are untouched.
    pub proof fn lemma_pages_frame(self, other: Pddb, h: int, v: u64)
        requires
            self.wf(),
            0 <= h < self.bases@.len() <= usize::MAX,
            other.same_bases_except(self, h),
            other.same_identity(self, h),
            forall|a: u64|
                a != v ==> #[trigger] other.bases@[h].map@.contains_key(a)
                    == self.bases@[h].map@.contains_key(a) && (self.bases@[h].map@.contains_key(a)
                    ==> other.bases@[h].map@[a] == self.bases@[h].map@[a]),
            other.flash.pages@.len() == self.flash.pages@.len(),
            forall|q: int|
                0 <= q < self.arena@.len() && self.is_live(q) && self.arena@[q] != SlotUse::Live(
                    h as usize,
                    v,
                ) ==> #[trigger] other.flash.pages@[q] == self.flash.pages@[q],
        ensures
            self.same_pages_except(other, h, v),
    {
        assert forall|k: int, a: u64| k != h || a != v implies other.spec_resolve(k, a)
            == self.spec_resolve(k, a) && other.spec_rev(k, a) == self.spec_rev(k, a)
            && #[trigger] other.spec_content(k, a) == self.spec_content(k, a) by {
            if 0 <= k < self.bases@.len() {
                assert(self.basis_wf(k));
                if k != h {
                    assert(other.bases@[k] == self.bases@[k]);
                } else {
                    assert(other.bases@[h].map@.contains_key(a) == self.bases@[h].map@.contains_key(
                        a,
                    ));
                }
                if self.spec_resolve(k, a) is Some {
                    assert(self.mapping_wf(k, a));
                    let q = self.bases@[k].map@[a].phys as int;
                    assert(self.is_live(q));
                    assert(other.flash.pages@[q] == self.flash.pages@[q]);
                }
            }
        }
    }

    /// Adopts `copy` as the page at `virtual_addr`: the slot that backed the
    /// address, if any, is orphaned and returned, and `copy` is written to
    /// its own slot and mapped.
    pub(crate) fn adopt(&mut self, handle: BasisHandle, virtual_addr: u64, copy: StagedCommit, rev: u32) -> (was:
        Option<u32>)
        requires
            old(self).wf(),
            old(self).is_open(handle as int),
            copy.wf(),
            copy.slot < old(self).flash.page_count(),
            old(self).arena@[copy.slot as int] == SlotUse::Orphaned(handle),
            virtual_addr < VIRT_LIMIT,
            rev < REV_LIMIT,
            entry_of(copy.pte@, copy.page@, old(self).bases@[handle as int].key, copy.slot) == Some(
                (virtual_addr, rev),
            ),
        ensures
            final(self).wf(),
            was == old(self).spec_resolve(handle as int, virtual_addr),
            was is Some ==> was->0 < old(self).flash.page_count() && was->0 != copy.slot
                && final(self).arena@[was->0 as int] == SlotUse::Orphaned(handle),
            final(self).arena@[copy.slot as int] == SlotUse::Live(handle, virtual_addr),
            forall|q: int|
                0 <= q < old(self).arena@.len() && q != copy.slot && Some(q as u32) != was
                    ==> #[trigger] final(self).arena@[q] == old(self).arena@[q],
            final(self).arena@.len() == old(self).arena@.len(),
            final(self).flash.ptes@ == old(self).flash.ptes@.update(copy.slot as int, copy.pte),
            final(self).flash.pages@ == old(self).flash.pages@.update(copy.slot as int, copy.page),
            final(self).flash.fscb == old(self).flash.fscb,
            final(self).flash.staging == old(self).flash.staging,
            final(self).same_bases_except(*old(self), handle as int),
            final(self).same_identity(*old(self), handle as int),
            final(self).bases@[handle as int].map@ == old(self).bases@[handle as int].map@.insert(
                virtual_addr,
                ReversePte { phys: copy.slot, rev, flags: PtFlags { bits: PT_CLEAN } },
            ),
            final(self).bases@[handle as int].free@ == old(self).bases@[handle as int].free@,
    {
        let ghost slot = copy.slot;
        let was = self.unmap(handle, virtual_addr);
        proof {
            assert(old(self).basis_wf(handle as int));
            if was is Some {
                assert(old(self).mapping_wf(handle as int, virtual_addr));
            }
        }
        self.install(handle, virtual_addr, copy, rev);
        proof {
            assert(self.bases@[handle as int].map@ =~= old(self).bases@[handle as int].map@.insert(
                virtual_addr,
                ReversePte { phys: slot, rev, flags: PtFlags { bits: PT_CLEAN } },
            ));
        }
        match was {
            Some(m) => Some(m.phys),
            None => None,
        }
    }

    /// Writes `bytes` as the page at `virtual_addr` of the basis of
    /// `handle`, with the random bytes that the caller has drawn.
    ///
    /// The write succeeds when the basis is open, the journal revision of
    /// the page has not reached its limit and the basis has a free page. The
    /// new copy then lives in the page that waited longest in the free
    /// queue, which is never the slot of the copy it replaces; every other
    /// page of every basis is where it was and holds what it held. When the
    /// write fails, nothing has changed.
    pub fn write_page_with(
        &mut self,
        handle: BasisHandle,
        virtual_addr: u64,
        bytes: &[u8],
        entropy: &[u8; 64],
    ) -> (done: Result<(), PddbError>)
        requires
            old(self).wf(),
            virtual_addr < VIRT_LIMIT,
            bytes@.len() <= PAYLOAD_MAX,
        ensures
            final(self).wf(),
            final(self).same_bases_except(*old(self), handle as int),
            final(self).same_identity(*old(self), handle as int),
            done is Ok <==> old(self).can_write(handle as int, virtual_addr),
            match done {
                Ok(_) => {
                    &&& final(self).spec_content(handle as int, virtual_addr) == Some(bytes@)
                    &&& final(self).spec_rev(handle as int, virtual_addr) == Some(
                        next_rev(old(self).spec_rev(handle as int, virtual_addr)) as u32,
                    )
                    &&& final(self).spec_resolve(handle as int, virtual_addr) == Some(
                        old(self).bases@[handle as int].free@[0],
                    )
                    &&& final(self).spec_resolve(handle as int, virtual_addr) != old(self).spec_resolve(handle as int, virtual_addr)
                    &&& !old(self).is_live(old(self).bases@[handle as int].free@[0] as int)
                    &&& old(self).same_pages_except(*final(self), handle as int, virtual_addr)
                    &&& final(self).is_written_image(
                        *old(self),
                        handle as int,
                        virtual_addr,
                        bytes@,
                    )
                    &&& final(self).staging_settled(handle as int)
                    &&& final(self).is_written_state(*old(self), handle, virtual_addr, entropy@)
                },
                Err(e) => e == old(self).write_error(handle as int, virtual_addr) && final(self).same_state(*old(self)),
            },
    {
        if !self.is_mounted(handle) {
            return Err(PddbError::NotFound);
        }
        let key: BasisKey = self.bases[handle].key;
        let rev: u32 = match self.revision(handle, virtual_addr) {
            Some(r) => {
                proof {
                    assert(self.basis_wf(handle as int));
                    assert(self.mapping_wf(handle as int, virtual_addr));
                }
                r + 1
            },
            None => 0,
        };
        if rev >= REV_LIMIT {
            return Err(PddbError::JournalExhausted);
        }
        let slot: u32 = match self.reserve_for(handle, virtual_addr) {
            Ok(p) => p,
            Err(e) => {
                return Err(e);
            },
        };
        let page_nonce: [u8; 12] = take_array(entropy.as_slice(), 0);
        let pte_nonce: u32 = u32_from_le(entropy[12], entropy[13], entropy[14], entropy[15]);
        let commit = make_commit(bytes, &key, slot, virtual_addr, rev, &page_nonce, pte_nonce);
        let staging_nonce: [u8; 12] = take_array(entropy.as_slice(), 16);
        let staged: Vec<u8> = seal_commit(&commit, &key, &staging_nonce);
        self.stage(staged);
        match read_staged(self.flash.staging.as_slice(), &key) {
            None => {
                proof {
                    assert(false);
                }
                Err(PddbError::InconsistentCommit)
            },
            Some((copy, v, r)) => {
                if copy.slot != slot || v != virtual_addr || r != rev {
                    proof {
                        assert(false);
                    }
                    return Err(PddbError::InconsistentCommit);
                }
                let ghost page = copy.page@;
                let was = self.adopt(handle, virtual_addr, copy, rev);
                let ghost adopted = *self;
                match was {
                    Some(p_old) => {
                        let noise: [u8; 16] = take_array(entropy.as_slice(), 28);
                        let log_nonce: [u8; 12] = take_array(entropy.as_slice(), 44);
                        self.reclaim(handle, p_old, noise, &log_nonce);
                    },
                    None => {},
                }
                proof {
                    let h = handle as int;
                    assert(self.bases@.len() == self.bases.len());
                    assert(self.flash.pages@ == adopted.flash.pages@);
                    assert(self.flash.pages@[slot as int]@ == page);
                    assert(self.bases@[h].map@ == adopted.bases@[h].map@);
                    old(self).lemma_pages_frame(*self, h, virtual_addr);
                    assert(self.basis_wf(h));
                    assert(self.mapping_wf(h, virtual_addr));
                    let live = old(self).arena@.update(
                        slot as int,
                        SlotUse::Live(handle, virtual_addr),
                    );
                    match was {
                        Some(p_old) => {
                            assert(old(self).basis_wf(h));
                            assert(old(self).mapping_wf(h, virtual_addr));
                            if !decodes(entropy@.subrange(28, 44), key, p_old) {
                                assert(self.arena@ =~= live.update(
                                    p_old as int,
                                    SlotUse::Free(handle),
                                ));
                            } else {
                                assert(self.arena@ =~= live.update(
                                    p_old as int,
                                    SlotUse::Orphaned(handle),
                                ));
                            }
                        },
                        None => {
                            assert(self.arena@ =~= live);
                        },
                    }
                    assert(self.is_written_state(*old(self), handle, virtual_addr, entropy@));
                }
                Ok(())
            },
        }
    }

    /// Writes `bytes` as the page at `virtual_addr` of the basis of
    /// `handle`, under fresh random bytes. A write that lacks something
    /// fails as `write_page_with` does, before anything is drawn; otherwise
    /// the function does what `write_page_with` does, or fails with
    /// `EntropyUnavailable`, nothing changed, when the random source gives
    /// nothing.
    pub fn write_page(&mut self, handle: BasisHandle, virtual_addr: u64, bytes: &[u8]) -> (done:
        Result<(), PddbError>)
        requires
            old(self).wf(),
            virtual_addr < VIRT_LIMIT,
            bytes@.len() <= PAYLOAD_MAX,
        ensures
            final(self).wf(),
            final(self).same_bases_except(*old(self), handle as int),
            final(self).same_identity(*old(self), handle as int),
            !old(self).can_write(handle as int, virtual_addr) ==> done == Err::<(), PddbError>(
                old(self).write_error(handle as int, virtual_addr),
            ),
            match done {
                Ok(_) => {
                    &&& final(self).spec_content(handle as int, virtual_addr) == Some(bytes@)
                    &&& final(self).spec_rev(handle as int, virtual_addr) == Some(
                        next_rev(old(self).spec_rev(handle as int, virtual_addr)) as u32,
                    )
                    &&& final(self).spec_resolve(handle as int, virtual_addr) == Some(
                        old(self).bases@[handle as int].free@[0],
                    )
                    &&& final(self).spec_resolve(handle as int, virtual_addr) != old(self).spec_resolve(handle as int, virtual_addr)
                    &&& !old(self).is_live(old(self).bases@[handle as int].free@[0] as int)
                    &&& old(self).same_pages_except(*final(self), handle as int, virtual_addr)
                    &&& final(self).is_written_image(
                        *old(self),
                        handle as int,
                        virtual_addr,
                        bytes@,
                    )
                    &&& final(self).staging_settled(handle as int)
                    &&& exists|entropy: Seq<u8>| #[trigger]
                        final(self).is_written_state(*old(self), handle, virtual_addr, entropy)
                },
                Err(e) => final(self).same_state(*old(self)) && (e == PddbError::EntropyUnavailable
                    || (e == old(self).write_error(handle as int, virtual_addr) && !old(self).can_write(handle as int, virtual_addr))),
            },
    {
        if !self.is_mounted(handle) {
            return Err(PddbError::NotFound);
        }
        let exhausted: bool = match self.revision(handle, virtual_addr) {
            Some(r) => r >= REV_LIMIT - 1,
            None => false,
        };
        if exhausted {
            return Err(PddbError::JournalExhausted);
        }
        if self.bases[handle].free.len() == 0 {
            return Err(PddbError::OutOfSpace);
        }
        match os_entropy() {
            None => Err(PddbError::EntropyUnavailable),
            Some(entropy) => {
                let done = self.write_page_with(handle, virtual_addr, bytes, &entropy);
                proof {
                    if done is Ok {
                        assert(self.is_written_state(*old(self), handle, virtual_addr, entropy@));
                    }
                }
                done
            },
        }
    }

    /// Gives `virtual_addr` of the basis of `handle` a fresh physical slot,
    /// with the random bytes that the caller has drawn, and returns the
    /// slot.
    ///
    /// The slot is the free page that waited longest. An empty page and a
    /// new table entry for the address are written to it, by way of the
    /// staging area as for any write, so that the address resolves to the
    /// slot from then on. The slot was free: it backed no page of any open
    /// basis, and it is never the slot that backed the address before, which
    /// is given up. Every other page of every basis is where it was.
    ///
    /// It succeeds and fails on the inputs on which a write does; when it
    /// fails, nothing has changed.
    pub fn allocate_for_with(&mut self, handle: BasisHandle, virtual_addr: u64, entropy: &[u8; 64]) -> (slot:
        Result<u32, PddbError>)
        requires
            old(self).wf(),
            virtual_addr < VIRT_LIMIT,
        ensures
            final(self).wf(),
            final(self).same_bases_except(*old(self), handle as int),
            final(self).same_identity(*old(self), handle as int),
            slot is Ok <==> old(self).can_write(handle as int, virtual_addr),
            match slot {
                Ok(p) => {
                    &&& p == old(self).bases@[handle as int].free@[0]
                    &&& !old(self).is_live(p as int)
                    &&& old(self).spec_resolve(handle as int, virtual_addr) != Some(p)
                    &&& final(self).spec_resolve(handle as int, virtual_addr) == Some(p)
                    &&& final(self).spec_content(handle as int, virtual_addr) == Some(
                        Seq::<u8>::empty(),
                    )
                    &&& final(self).spec_rev(handle as int, virtual_addr) == Some(
                        next_rev(old(self).spec_rev(handle as int, virtual_addr)) as u32,
                    )
                    &&& old(self).same_pages_except(*final(self), handle as int, virtual_addr)
                    &&& final(self).is_written_image(
                        *old(self),
                        handle as int,
                        virtual_addr,
                        Seq::<u8>::empty(),
                    )
                    &&& final(self).staging_settled(handle as int)
                    &&& final(self).is_written_state(*old(self), handle, virtual_addr, entropy@)
                },
                Err(e) => e == old(self).write_error(handle as int, virtual_addr) && final(self).same_state(*old(self)),
            },
    {
        let nothing: Vec<u8> = Vec::new();
        match self.write_page_with(handle, virtual_addr, nothing.as_slice(), entropy) {
            Err(e) => Err(e),
            Ok(()) => match self.resolve(handle, virtual_addr) {
                Some(p) => Ok(p),
                None => {
                    proof {
                        assert(false);
                    }
                    Err(PddbError::InconsistentCommit)
                },
            },
        }
    }

    /// Gives `virtual_addr` of the basis of `handle` a fresh physical slot,
    /// under fresh random bytes. It does what `allocate_for_with` does, or
    /// fails with `EntropyUnavailable`, nothing changed, when the random
    /// source gives nothing.
    pub fn allocate_for(&mut self, handle: BasisHandle, virtual_addr: u64) -> (slot: Result<
        u32,
        PddbError,
    >)
        requires
            old(self).wf(),
            virtual_addr < VIRT_LIMIT,
        ensures
            final(self).wf(),
            final(self).same_bases_except(*old(self), handle as int),
            final(self).same_identity(*old(self), handle as int),
            !old(self).can_write(handle as int, virtual_addr) ==> slot == Err::<u32, PddbError>(
                old(self).write_error(handle as int, virtual_addr),
            ),
            match slot {
                Ok(p) => {
                    &&& old(self).can_write(handle as int, virtual_addr)
                    &&& p == old(self).bases@[handle as int].free@[0]
                    &&& !old(self).is_live(p as int)
                    &&& old(self).spec_resolve(handle as int, virtual_addr) != Some(p)
                    &&& final(self).spec_resolve(handle as int, virtual_addr) == Some(p)
                    &&& final(self).spec_content(handle as int, virtual_addr) == Some(
                        Seq::<u8>::empty(),
                    )
                    &&& final(self).spec_rev(handle as int, virtual_addr) == Some(
                        next_rev(old(self).spec_rev(handle as int, virtual_addr)) as u32,
                    )
                    &&& old(self).same_pages_except(*final(self), handle as int, virtual_addr)
                    &&& final(self).is_written_image(
                        *old(self),
                        handle as int,
                        virtual_addr,
                        Seq::<u8>::empty(),
                    )
                    &&& final(self).staging_settled(handle as int)
                    &&& exists|entropy: Seq<u8>| #[trigger]
                        final(self).is_written_state(*old(self), handle, virtual_addr, entropy)
                },
                Err(e) => final(self).same_state(*old(self)) && (e == PddbError::EntropyUnavailable
                    || (e == old(self).write_error(handle as int, virtual_addr) && !old(self).can_write(handle as int, virtual_addr))),
            },
    {
        if !self.is_mounted(handle) {
            return Err(PddbError::NotFound);
        }
        let exhausted: bool = match self.revision(handle, virtual_addr) {
            Some(r) => r >= REV_LIMIT - 1,
            None => false,
        };
        if exhausted {
            return Err(PddbError::JournalExhausted);
        }
        if self.bases[handle].free.len() == 0 {
            return Err(PddbError::OutOfSpace);
        }
        match os_entropy() {
            None => Err(PddbError::EntropyUnavailable),
            Some(entropy) => {
                let slot = self.allocate_for_with(handle, virtual_addr, &entropy);
                proof {
                    if slot is Ok {
                        assert(self.is_written_state(*old(self), handle, virtual_addr, entropy@));
                    }
                }
                slot
            },
        }
    }

    /// Gives up the page at `virtual_addr` of the basis of `handle`: the
    /// address is unmapped, the table entry of its slot is overwritten with
    /// `noise`, a free record sealed under `nonce` goes to the log, and the
    /// slot goes to the back of the free queue. Returns the slot.
    ///
    /// Nothing changes when nothing is mapped there, which is `NotFound`,
    /// and when `noise` would decode as an entry of the basis, which is
    /// `EntropyUnavailable`: other noise is needed.
    ///
    /// The staging area is left alone. As long as it holds the copy of a
    /// page, a mount adopts that copy into a slot that holds nothing: who
    /// releases the page that was written last voids the staging area
    /// first, as `delete_page_with` does.
    pub fn release(&mut self, handle: BasisHandle, virtual_addr: u64, noise: [u8; 16], nonce: &[u8; 12]) -> (slot:
        Result<u32, PddbError>)
        requires
            old(self).wf(),
        ensures
            final(self).wf(),
            final(self).same_bases_except(*old(self), handle as int),
            final(self).same_identity(*old(self), handle as int),
            final(self).flash.staging == old(self).flash.staging,
            final(self).flash.pages == old(self).flash.pages,
            match slot {
                Ok(p) => {
                    &&& old(self).spec_resolve(handle as int, virtual_addr) == Some(p)
                    &&& !decodes(noise@, old(self).bases@[handle as int].key, p)
                    &&& final(self).spec_resolve(handle as int, virtual_addr) is None
                    &&& old(self).same_pages_except(*final(self), handle as int, virtual_addr)
                    &&& final(self).flash.ptes@ == old(self).flash.ptes@.update(p as int, noise)
                    &&& final(self).arena@ == old(self).arena@.update(
                        p as int,
                        SlotUse::Free(handle),
                    )
                    &&& final(self).bases@[handle as int].free@ == old(self).bases@[handle as int].free@.push(
                        p,
                    )
                    &&& final(self).is_released(*old(self), handle, virtual_addr, noise@, nonce@)
                },
                Err(e) => {
                    &&& final(self).same_state(*old(self))
                    &&& match old(self).spec_resolve(handle as int, virtual_addr) {
                        Some(p) => e == PddbError::EntropyUnavailable && decodes(
                            noise@,
                            old(self).bases@[handle as int].key,
                            p,
                        ),
                        None => e == PddbError::NotFound,
                    }
                },
            },
    {
        let p: u32 = match self.resolve(handle, virtual_addr) {
            None => {
                return Err(PddbError::NotFound);
            },
            Some(p) => p,
        };
        let key: BasisKey = self.bases[handle].key;
        proof {
            reveal(decodes);
        }
        if decode(&noise, &key, p).is_some() {
            return Err(PddbError::EntropyUnavailable);
        }
        let was = self.unmap(handle, virtual_addr);
        let ghost unmapped = *self;
        self.reclaim(handle, p, noise, nonce);
        proof {
            let h = handle as int;
            assert(self.bases@.len() == self.bases.len());
            assert(self.bases@[h].map@ == old(self).bases@[h].map@.remove(virtual_addr));
            old(self).lemma_pages_frame(*self, h, virtual_addr);
            assert(self.arena@ =~= old(self).arena@.update(p as int, SlotUse::Free(handle)));
            assert(unmapped.flash == old(self).flash);
            assert(self.is_released(*old(self), handle, virtual_addr, noise@, nonce@));
        }
        Ok(p)
    }

    /// Deletes the page at `virtual_addr` of the basis of `handle`, with
    /// the random bytes that the caller has drawn.
    ///
    /// First the staging area is voided, so that no mount brings the page
    /// back; then the page is released. After it the address is unmapped,
    /// its slot is free, and every other page is where it was.
    ///
    /// Nothing changes when nothing is mapped there, which is `NotFound`,
    /// and when the first sixteen random bytes would decode as an entry of
    /// the basis, which is `EntropyUnavailable`.
    pub fn delete_page_with(&mut self, handle: BasisHandle, virtual_addr: u64, entropy: &[u8; 64]) -> (done:
        Result<(), PddbError>)
        requires
            old(self).wf(),
        ensures
            final(self).wf(),
            final(self).same_bases_except(*old(self), handle as int),
            final(self).same_identity(*old(self), handle as int),
            final(self).flash.pages == old(self).flash.pages,
            match done {
                Ok(_) => {
                    &&& old(self).spec_resolve(handle as int, virtual_addr) is Some
                    &&& !decodes(
                        entropy@.subrange(0, 16),
                        old(self).bases@[handle as int].key,
                        old(self).spec_resolve(handle as int, virtual_addr)->0,
                    )
                    &&& final(self).spec_resolve(handle as int, virtual_addr) is None
                    &&& old(self).same_pages_except(*final(self), handle as int, virtual_addr)
                    &&& final(self).arena@ == old(self).arena@.update(
                        old(self).spec_resolve(handle as int, virtual_addr)->0 as int,
                        SlotUse::Free(handle),
                    )
                    &&& match spec_open_staging(
                        final(self).flash.staging@,
                        old(self).bases@[handle as int].key,
                    ) {
                        Some(commit) => commit.0 == u32::MAX,
                        None => false,
                    }
                    &&& final(self).staging_settled(handle as int)
                    &&& final(self).is_released(
                        *old(self),
                        handle,
                        virtual_addr,
                        entropy@.subrange(0, 16),
                        entropy@.subrange(16, 28),
                    )
                },
                Err(e) => {
                    &&& final(self).same_state(*old(self))
                    &&& match old(self).spec_resolve(handle as int, virtual_addr) {
                        Some(p) => e == PddbError::EntropyUnavailable && decodes(
                            entropy@.subrange(0, 16),
                            old(self).bases@[handle as int].key,
                            p,
                        ),
                        None => e == PddbError::NotFound,
                    }
                },
            },
    {
        let p: u32 = match self.resolve(handle, virtual_addr) {
            None => {
                return Err(PddbError::NotFound);
            },
            Some(p) => p,
        };
        let key: BasisKey = self.bases[handle].key;
        let noise: [u8; 16] = take_array(entropy.as_slice(), 0);
        let log_nonce: [u8; 12] = take_array(entropy.as_slice(), 16);
        let void_nonce: [u8; 12] = take_array(entropy.as_slice(), 28);
        proof {
            reveal(decodes);
        }
        if decode(&noise, &key, p).is_some() {
            return Err(PddbError::EntropyUnavailable);
        }
        self.stage(seal_void_commit(&key, &void_nonce));
        let ghost voided = *self;
        match self.release(handle, virtual_addr, noise, &log_nonce) {
            Ok(_) => {
                proof {
                    let h = handle as int;
                    assert forall|k: int, a: u64|
                        k != h || a != virtual_addr implies self.spec_resolve(k, a) == old(self).spec_resolve(k, a) && self.spec_rev(k, a) == old(self).spec_rev(k, a)
                        && #[trigger] self.spec_content(k, a) == old(self).spec_content(k, a) by {
                        assert(self.spec_content(k, a) == voided.spec_content(k, a));
                    }
                }
                Ok(())
            },
            Err(e) => {
                proof {
                    assert(false);
                }
                Err(e)
            },
        }
    }

    /// Deletes the page at `virtual_addr` of the basis of `handle`, under
    /// fresh random bytes. When nothing is mapped there it fails with
    /// `NotFound` before anything is drawn; otherwise it does what
    /// `delete_page_with` does, or fails with `EntropyUnavailable` when the
    /// random source gives nothing or nothing usable. Nothing has changed
    /// when it fails.
    pub fn delete_page(&mut self, handle: BasisHandle, virtual_addr: u64) -> (done: Result<
        (),
        PddbError,
    >)
        requires
            old(self).wf(),
        ensures
            final(self).wf(),
            final(self).same_bases_except(*old(self), handle as int),
            final(self).same_identity(*old(self), handle as int),
            final(self).flash.pages == old(self).flash.pages,
            match done {
                Ok(_) => {
                    &&& old(self).spec_resolve(handle as int, virtual_addr) is Some
                    &&& final(self).spec_resolve(handle as int, virtual_addr) is None
                    &&& old(self).same_pages_except(*final(self), handle as int, virtual_addr)
                    &&& final(self).arena@ == old(self).arena@.update(
                        old(self).spec_resolve(handle as int, virtual_addr)->0 as int,
                        SlotUse::Free(handle),
                    )
                    &&& match spec_open_staging(
                        final(self).flash.staging@,
                        old(self).bases@[handle as int].key,
                    ) {
                        Some(commit) => commit.0 == u32::MAX,
                        None => false,
                    }
                    &&& final(self).staging_settled(handle as int)
                    &&& exists|entropy: Seq<u8>| #[trigger]
                        final(self).is_released(
                            *old(self),
                            handle,
                            virtual_addr,
                            entropy.subrange(0, 16),
                            entropy.subrange(16, 28),
                        )
                },
                Err(e) => {
                    &&& final(self).same_state(*old(self))
                    &&& e == PddbError::EntropyUnavailable || e == PddbError::NotFound
                    &&& e == PddbError::NotFound <==> old(self).spec_resolve(
                        handle as int,
                        virtual_addr,
                    ) is None
                },
            },
    {
        if self.resolve(handle, virtual_addr).is_none() {
            return Err(PddbError::NotFound);
        }
        match os_entropy() {
            None => Err(PddbError::EntropyUnavailable),
            Some(entropy) => {
                let done = self.delete_page_with(handle, virtual_addr, &entropy);
                proof {
                    if done is Ok {
                        assert(self.is_released(
                            *old(self),
                            handle,
                            virtual_addr,
                            entropy@.subrange(0, 16),
                            entropy@.subrange(16, 28),
                        ));
                    }
                }
                done
            },
        }
    }

    /// True when the compaction pass has work at slot `p`: the slot is an
    /// orphaned or a free slot of the basis.
    pub open spec fn needs_compaction(self, handle: usize, p: int) -> bool {
        self.arena@[p] == SlotUse::Orphaned(handle) || self.arena@[p] == SlotUse::Free(handle)
    }

    /// The number of slots below `limit` at which the compaction pass has
    /// work.
    pub open spec fn work_before(self, handle: usize, limit: int) -> nat
        decreases limit,
    {
        if limit <= 0 {
            0
        } else if self.needs_compaction(handle, limit - 1) {
            self.work_before(handle, limit - 1) + 1
        } else {
            self.work_before(handle, limit - 1)
        }
    }

    /// The random bytes that the pass spends on slot `p`: the slots with
    /// work take the blocks in rising order, one each, as long as there are
    /// blocks.
    pub open spec fn block_for(self, handle: usize, blocks: Seq<[u8; 64]>, p: int) -> Option<
        Seq<u8>,
    > {
        let k = self.work_before(handle, p);
        if self.needs_compaction(handle, p) && k < blocks.len() {
            Some(blocks[k as int]@)
        } else {
            None
        }
    }

    /// True when the pass frees slot `p`: the slot is orphaned, a block is
    /// there for it, and the first sixteen bytes of the block do not decode
    /// as an entry of the basis.
    pub open spec fn compaction_frees(self, handle: usize, blocks: Seq<[u8; 64]>, p: int) -> bool {
        match self.block_for(handle, blocks, p) {
            Some(block) => self.arena@[p] == SlotUse::Orphaned(handle) && !decodes(
                block.subrange(0, 16),
                self.bases@[handle as int].key,
                p as u32,
            ),
            None => false,
        }
    }

    /// True when the pass writes a free record for slot `p`: a block is
    /// there for it, and the slot is free or is freed.
    pub open spec fn compaction_seals(self, handle: usize, blocks: Seq<[u8; 64]>, p: int) -> bool {
        self.block_for(handle, blocks, p) is Some && (self.arena@[p] == SlotUse::Free(handle)
            || self.compaction_frees(handle, blocks, p))
    }

    /// The slots below `limit` that the pass frees, in rising order.
    pub open spec fn freed_upto(self, handle: usize, blocks: Seq<[u8; 64]>, limit: int) -> Seq<u32>
        decreases limit,
    {
        if limit <= 0 {
            Seq::empty()
        } else if self.compaction_frees(handle, blocks, limit - 1) {
            self.freed_upto(handle, blocks, limit - 1).push((limit - 1) as u32)
        } else {
            self.freed_upto(handle, blocks, limit - 1)
        }
    }

    /// True when slot `p` of `after` is what the pass makes of slot `p` of
    /// `self`. A slot that is freed has its table entry overwritten with the
    /// first sixteen bytes of its block and becomes free; a slot that is
    /// freed or was free has its free record sealed anew under bytes 16 to
    /// 27 of its block; everything else is as it was.
    pub open spec fn slot_is_compacted(
        self,
        after: Pddb,
        handle: usize,
        blocks: Seq<[u8; 64]>,
        p: int,
    ) -> bool {
        let key = self.bases@[handle as int].key;
        let block = self.block_for(handle, blocks, p);
        &&& after.arena@[p] == (if self.compaction_frees(handle, blocks, p) {
            SlotUse::Free(handle)
        } else {
            self.arena@[p]
        })
        &&& if self.compaction_frees(handle, blocks, p) {
            after.flash.ptes@[p]@ == block->0.subrange(0, 16)
        } else {
            after.flash.ptes@[p] == self.flash.ptes@[p]
        }
        &&& if self.compaction_seals(handle, blocks, p) {
            after.flash.fscb@[p]@ == spec_sealed_free_record(key, p as u32, block->0.subrange(16, 28))
        } else {
            after.flash.fscb@[p] == self.flash.fscb@[p]
        }
    }

    /// True when `after` is what the compaction pass for the basis of
    /// `handle` makes of `self` with the random bytes `blocks`: every slot
    /// is compacted, the slots freed have joined the free queue in rising
    /// order, and maps, pages and staging area are as they were.
    pub open spec fn is_compacted(self, after: Pddb, handle: usize, blocks: Seq<[u8; 64]>) -> bool {
        let h = handle as int;
        let n = self.arena@.len() as int;
        &&& after.flash.pages == self.flash.pages
        &&& after.flash.staging == self.flash.staging
        &&& after.arena@.len() == n
        &&& after.flash.ptes@.len() == self.flash.ptes@.len()
        &&& after.flash.fscb@.len() == self.flash.fscb@.len()
        &&& after.bases@[h].map == self.bases@[h].map
        &&& after.bases@[h].free@ == self.bases@[h].free@ + self.freed_upto(handle, blocks, n)
        &&& forall|p: int| 0 <= p < n ==> #[trigger] self.slot_is_compacted(after, handle, blocks, p)
    }

    /// The compaction pass with the random bytes that the caller has drawn:
    /// rewrites the part of the free space log that belongs to the basis of
    /// `handle`. In rising order of the slots, each orphaned slot of the
    /// basis is returned to its free pages and each free record of the basis
    /// is sealed anew. Each such slot spends one block of `blocks`, the
    /// first sixteen bytes as noise for the table entry, the next twelve as
    /// nonce of the record; slots for which no block is left stay as they
    /// are. Gives the number of slots freed.
    ///
    /// An orphaned slot stays orphaned when its noise decodes under the key
    /// of the basis. No page of any basis moves or changes. For a handle
    /// that is not open the pass does nothing.
    pub fn compact_with(&mut self, handle: BasisHandle, blocks: &[[u8; 64]]) -> (freed: usize)
        requires
            old(self).wf(),
        ensures
            final(self).wf(),
            final(self).same_bases_except(*old(self), handle as int),
            final(self).same_identity(*old(self), handle as int),
            forall|k: int, a: u64|
                #![trigger final(self).spec_content(k, a)]
                #![trigger final(self).spec_resolve(k, a)]
                final(self).spec_resolve(k, a) == old(self).spec_resolve(k, a) && final(self).spec_content(k, a) == old(self).spec_content(k, a),
            if old(self).is_open(handle as int) {
                &&& old(self).is_compacted(*final(self), handle, blocks@)
                &&& freed == old(self).freed_upto(
                    handle,
                    blocks@,
                    old(self).arena@.len() as int,
                ).len()
            } else {
                freed == 0 && *final(self) == *old(self)
            },
    {
        if !self.is_mounted(handle) {
            return 0;
        }
        let n: u32 = self.flash.pages();
        let mut count: usize = 0;
        let mut k: usize = 0;
        let mut p: u32 = 0;
        while p < n
            invariant
                0 <= p <= n,
                k <= p,
                count <= p,
                n == old(self).arena@.len(),
                n == self.arena@.len(),
                old(self).wf(),
                self.wf(),
                old(self).is_open(handle as int),
                self.is_open(handle as int),
                self.same_bases_except(*old(self), handle as int),
                self.bases@[handle as int].key == old(self).bases@[handle as int].key,
                self.bases@[handle as int].map == old(self).bases@[handle as int].map,
                self.flash.pages == old(self).flash.pages,
                self.flash.staging == old(self).flash.staging,
                self.flash.ptes@.len() == old(self).flash.ptes@.len(),
                self.flash.fscb@.len() == old(self).flash.fscb@.len(),
                k == old(self).work_before(handle, p as int),
                count == old(self).freed_upto(handle, blocks@, p as int).len(),
                self.bases@[handle as int].free@ == old(self).bases@[handle as int].free@ + old(self).freed_upto(handle, blocks@, p as int),
                forall|q: int| p <= q < n ==> #[trigger] self.arena@[q] == old(self).arena@[q],
                forall|q: int|
                    p <= q < n ==> #[trigger] self.flash.ptes@[q] == old(self).flash.ptes@[q],
                forall|q: int|
                    p <= q < n ==> #[trigger] self.flash.fscb@[q] == old(self).flash.fscb@[q],
                forall|q: int|
                    0 <= q < p ==> #[trigger] old(self).slot_is_compacted(*self, handle, blocks@, q),
            decreases n - p,
        {
            let ghost before = *self;
            let ghost queue = old(self).freed_upto(handle, blocks@, p as int);
            let at: SlotUse = self.arena[p as usize];
            assert(at == old(self).arena@[p as int]);
            assert(self.flash.ptes@[p as int] == old(self).flash.ptes@[p as int]);
            assert(self.flash.fscb@[p as int] == old(self).flash.fscb@[p as int]);
            if at == SlotUse::Orphaned(handle) || at == SlotUse::Free(handle) {
                if k < blocks.len() {
                    let noise: [u8; 16] = take_array(blocks[k].as_slice(), 0);
                    let nonce: [u8; 12] = take_array(blocks[k].as_slice(), 16);
                    if at == SlotUse::Free(handle) {
                        self.reseal(handle, p, &nonce);
                    } else if self.reclaim(handle, p, noise, &nonce) {
                        count += 1;
                        proof {
                            assert(old(self).compaction_frees(handle, blocks@, p as int));
                            assert(before.bases@[handle as int].free@.push(p) =~= old(self).bases@[handle as int].free@ + queue.push(p));
                        }
                    }
                }
                k += 1;
            }
            proof {
                assert(old(self).slot_is_compacted(*self, handle, blocks@, p as int));
                assert forall|q: int| 0 <= q < p implies #[trigger] old(self).slot_is_compacted(
                    *self,
                    handle,
                    blocks@,
                    q,
                ) by {
                    assert(old(self).slot_is_compacted(before, handle, blocks@, q));
                    assert(self.arena@[q] == before.arena@[q]);
                    assert(self.flash.ptes@[q] == before.flash.ptes@[q]);
                    assert(self.flash.fscb@[q] == before.flash.fscb@[q]);
                }
                assert forall|q: int| p + 1 <= q < n implies #[trigger] self.arena@[q] == old(self).arena@[q] && self.flash.ptes@[q] == old(self).flash.ptes@[q]
                    && self.flash.fscb@[q] == old(self).flash.fscb@[q] by {
                    assert(before.arena@[q] == old(self).arena@[q]);
                    assert(self.arena@[q] == before.arena@[q]);
                    assert(self.flash.ptes@[q] == before.flash.ptes@[q]);
                    assert(self.flash.fscb@[q] == before.flash.fscb@[q]);
                }
            }
            p += 1;
        }
        proof {
            old(self).lemma_same_maps_same_pages(*self, handle as int);
        }
        count
    }

    /// The compaction pass: rewrites the part of the free space log that
    /// belongs to the basis of `handle`, under fresh random bytes. It draws
    /// one block of random bytes for each orphaned and each free slot of the
    /// basis, and then does what `compact_with` does with them. Gives the
    /// number of slots freed.
    ///
    /// When the random source gives nothing, the pass fails with
    /// `EntropyUnavailable` and nothing has changed. It cannot fail when the
    /// basis has no orphaned and no free slot, or the handle is not open:
    /// there is nothing to draw for.
    pub fn compact(&mut self, handle: BasisHandle) -> (freed: Result<usize, PddbError>)
        requires
            old(self).wf(),
        ensures
            final(self).wf(),
            final(self).same_bases_except(*old(self), handle as int),
            final(self).same_identity(*old(self), handle as int),
            final(self).flash.pages == old(self).flash.pages,
            final(self).flash.staging == old(self).flash.staging,
            final(self).arena@.len() == old(self).arena@.len(),
            old(self).is_open(handle as int) ==> final(self).bases@[handle as int].map == old(self).bases@[handle as int].map,
            forall|k: int, a: u64|
                #![trigger final(self).spec_content(k, a)]
                #![trigger final(self).spec_resolve(k, a)]
                final(self).spec_resolve(k, a) == old(self).spec_resolve(k, a) && final(self).spec_content(k, a) == old(self).spec_content(k, a),
            !old(self).is_open(handle as int) || old(self).work_before(
                handle,
                old(self).arena@.len() as int,
            ) == 0 ==> freed is Ok,
            match freed {
                Ok(n) => if old(self).is_open(handle as int) {
                    exists|blocks: Seq<[u8; 64]>|
                        {
                            &&& blocks.len() == old(self).work_before(
                                handle,
                                old(self).arena@.len() as int,
                            )
                            &&& #[trigger] old(self).is_compacted(*final(self), handle, blocks)
                            &&& n == old(self).freed_upto(
                                handle,
                                blocks,
                                old(self).arena@.len() as int,
                            ).len()
                        }
                } else {
                    n == 0 && *final(self) == *old(self)
                },
                Err(e) => e == PddbError::EntropyUnavailable && *final(self) == *old(self),
            },
    {
        if !self.is_mounted(handle) {
            return Ok(0);
        }
        let n: u32 = self.flash.pages();
        let mut work: usize = 0;
        let mut p: u32 = 0;
        while p < n
            invariant
                0 <= p <= n,
                work <= p,
                n == self.arena@.len(),
                *self == *old(self),
                old(self).wf(),
                old(self).is_open(handle as int),
                work == self.work_before(handle, p as int),
            decreases n - p,
        {
            let at: SlotUse = self.arena[p as usize];
            if at == SlotUse::Orphaned(handle) || at == SlotUse::Free(handle) {
                work += 1;
            }
            p += 1;
        }
        let mut blocks: Vec<[u8; 64]> = Vec::with_capacity(work);
        while blocks.len() < work
            invariant
                blocks@.len() <= work,
                *self == *old(self),
                old(self).wf(),
                old(self).is_open(handle as int),
                work == old(self).work_before(handle, old(self).arena@.len() as int),
            decreases work - blocks@.len(),
        {
            match os_entropy() {
                None => {
                    return Err(PddbError::EntropyUnavailable);
                },
                Some(entropy) => {
                    blocks.push(entropy);
                },
            }
        }
        let freed: usize = self.compact_with(handle, blocks.as_slice());
        proof {
            assert(old(self).is_compacted(*self, handle, blocks@));
        }
        Ok(freed)
    }

    /// A store with the same maps and the same pages holds the same content
    /// at every address.
    pub proof fn lemma_same_maps_same_pages(self, other: Pddb, h: int)
        requires
            other.same_bases_except(self, h),
            0 <= h < self.bases@.len(),
            other.bases@[h].map == self.bases@[h].map,
            other.bases@[h].key == self.bases@[h].key,
            other.bases@[h].open == self.bases@[h].open,
            other.flash.pages == self.flash.pages,
        ensures
            forall|k: int, a: u64|
                #![trigger other.spec_content(k, a)]
                #![trigger other.spec_resolve(k, a)]
                other.spec_resolve(k, a) == self.spec_resolve(k, a) && other.spec_content(k, a)
                    == self.spec_content(k, a),
    {
        assert forall|k: int, a: u64|
            #![trigger other.spec_content(k, a)]
            #![trigger other.spec_resolve(k, a)]
            other.spec_resolve(k, a) == self.spec_resolve(k, a) && other.spec_content(k, a)
                == self.spec_content(k, a) by {
            if 0 <= k < self.bases@.len() && k != h {
                assert(other.bases@[k] == self.bases@[k]);
            }
        }
    }

    /// Cross-basis isolation of a write: what a write to one basis leaves
    /// behind is, for every address of every other basis, where it was and
    /// what it was.
    pub proof fn lemma_write_leaves_other_bases_alone(
        self,
        after: Pddb,
        h: int,
        v: u64,
        other: int,
        a: u64,
    )
        requires
            self.same_pages_except(after, h, v),
            other != h,
        ensures
            after.spec_resolve(other, a) == self.spec_resolve(other, a),
            after.spec_rev(other, a) == self.spec_rev(other, a),
            after.spec_content(other, a) == self.spec_content(other, a),
    {
        assert(after.spec_content(other, a) == self.spec_content(other, a));
    }
}

} // verus!
