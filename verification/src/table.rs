//! The page table: the steps that change which slot backs which virtual
//! page.
//!
//! Each step writes at most one slot of each part of flash, and only a slot
//! that the arena gives to the basis it works for. The slots of every other
//! basis, and what they decode to, are left as they were.

use vstd::prelude::*;
use crate::engine::BasisHandle;
use crate::engine::ReversePte;
use crate::engine::Pddb;
use crate::engine::SlotUse;
use crate::error::PddbError;
use crate::flags::PtFlags;
use crate::flags::PT_CLEAN;
use crate::flash::decodes;
use crate::flash::entry_of;
use crate::fscb::spec_free_record_opens;
use crate::fscb::spec_sealed_free_record;
use crate::key::BasisKey;
use crate::fscb::seal_free_record;
use crate::mbbb::StagedCommit;
use crate::page::PAGE_SIZE;
use crate::page::REV_LIMIT;
use crate::pte::decode;
use crate::pte::VIRT_LIMIT;

verus! {

impl Pddb {
    /// True when `other` differs from `self` in the overlay of `h` at most.
    pub open spec fn same_bases_except(self, other: Pddb, h: int) -> bool {
        &&& self.bases@.len() == other.bases@.len()
        &&& forall|k: int| 0 <= k < self.bases@.len() && k != h ==> self.bases@[k] == other.bases@[k]
    }

    /// True when `other` holds what `self` holds: the same flash, the same
    /// owners, and in every overlay the same key, map and free queue.
    pub open spec fn same_state(self, other: Pddb) -> bool {
        &&& self.flash == other.flash
        &&& self.arena@ == other.arena@
        &&& self.bases@.len() == other.bases@.len()
        &&& forall|k: int|
            0 <= k < self.bases@.len() ==> {
                &&& (#[trigger] self.bases@[k]).open == other.bases@[k].open
                &&& self.bases@[k].key == other.bases@[k].key
                &&& self.bases@[k].map@ == other.bases@[k].map@
                &&& self.bases@[k].free@ == other.bases@[k].free@
            }
    }

    /// The invariant speaks of views only: a store that holds what a
    /// well-formed store holds is well-formed.
    pub proof fn lemma_same_state_wf(self, other: Pddb)
        requires
            self.wf(),
            self.same_state(other),
        ensures
            other.wf(),
    {
        assert forall|h: int| 0 <= h < other.bases@.len() implies #[trigger] other.basis_wf(h) by {
            assert(self.basis_wf(h));
            assert(self.bases@[h].open == other.bases@[h].open);
            assert forall|v: u64| #[trigger]
                other.bases@[h].map@.contains_key(v) implies other.mapping_wf(h, v) by {
                assert(self.mapping_wf(h, v));
            }
        }
        assert forall|p: int| 0 <= p < other.arena@.len() implies #[trigger] other.slot_wf(p) by {
            assert(self.slot_wf(p));
            match self.arena@[p] {
                SlotUse::Opaque => {},
                SlotUse::Free(h) => {
                    assert(self.bases@[h as int].open == other.bases@[h as int].open);
                },
                SlotUse::Orphaned(h) => {
                    assert(self.bases@[h as int].open == other.bases@[h as int].open);
                },
                SlotUse::Live(h, v) => {
                    assert(self.bases@[h as int].open == other.bases@[h as int].open);
                },
            }
        }
    }

    /// True when slot `p` is nobody's, or belongs to basis `h`.
    pub open spec fn slot_open_to(self, h: int, p: int) -> bool {
        match self.arena@[p] {
            SlotUse::Opaque => true,
            SlotUse::Free(k) => k == h,
            SlotUse::Orphaned(k) => k == h,
            SlotUse::Live(k, _) => k == h,
        }
    }

    /// True when `other` has the flash of `self` but for slot `p` of table,
    /// pages and free space log, and the staging area.
    pub open spec fn same_flash_except(self, other: Pddb, p: int) -> bool {
        &&& other.flash.ptes@.len() == self.flash.ptes@.len()
        &&& other.flash.pages@.len() == self.flash.pages@.len()
        &&& other.flash.fscb@.len() == self.flash.fscb@.len()
        &&& forall|q: int|
            0 <= q < self.flash.ptes@.len() && q != p ==> #[trigger] other.flash.ptes@[q]
                == self.flash.ptes@[q]
        &&& forall|q: int|
            0 <= q < self.flash.pages@.len() && q != p ==> #[trigger] other.flash.pages@[q]
                == self.flash.pages@[q]
        &&& forall|q: int|
            0 <= q < self.flash.fscb@.len() && q != p ==> #[trigger] other.flash.fscb@[q]
                == self.flash.fscb@[q]
    }

    /// True when `other` has the owners of `self` but for slot `p`.
    pub open spec fn same_arena_except(self, other: Pddb, p: int) -> bool {
        &&& other.arena@.len() == self.arena@.len()
        &&& forall|q: int|
            0 <= q < self.arena@.len() && q != p ==> #[trigger] other.arena@[q] == self.arena@[q]
    }

    /// A step that touches one slot and one overlay keeps the invariant,
    /// provided the slot was nobody's or the overlay's own, the overlay is
    /// again well-formed, and it still knows its other live slots.
    pub proof fn lemma_step_wf(self, other: Pddb, h: int, p: int)
        requires
            self.wf(),
            0 <= h < self.bases@.len(),
            self.bases@.len() <= usize::MAX,
            0 <= p < self.arena@.len(),
            self.slot_open_to(h, p),
            other.flash.wf(),
            self.same_flash_except(other, p),
            self.same_arena_except(other, p),
            other.same_bases_except(self, h),
            other.bases@[h].key == self.bases@[h].key,
            other.basis_wf(h),
            other.slot_wf(p),
            self.is_open(h) ==> other.is_open(h),
            forall|q: int|
                0 <= q < self.arena@.len() && q != p ==> match #[trigger] self.arena@[q] {
                    SlotUse::Live(k, v) => k == h ==> other.bases@[h].map@.contains_key(v)
                        && other.bases@[h].map@[v].phys == q,
                    _ => true,
                },
        ensures
            other.wf(),
    {
        assert forall|k: int| 0 <= k < other.bases@.len() implies #[trigger] other.basis_wf(k) by {
            if k != h {
                assert(self.basis_wf(k));
                assert(other.bases@[k] == self.bases@[k]);
                assert forall|v: u64| #[trigger]
                    other.bases@[k].map@.contains_key(v) implies other.mapping_wf(k, v) by {
                    assert(self.mapping_wf(k, v));
                    let q = self.bases@[k].map@[v].phys as int;
                    assert(self.arena@[q] == SlotUse::Live(k as usize, v));
                    assert(q != p);
                    assert(other.arena@[q] == self.arena@[q]);
                    assert(other.flash.ptes@[q] == self.flash.ptes@[q]);
                    assert(other.flash.pages@[q] == self.flash.pages@[q]);
                }
                assert forall|i: int| 0 <= i < other.bases@[k].free@.len() implies (
                #[trigger] other.bases@[k].free@[i]) < other.flash.page_count()
                    && other.arena@[other.bases@[k].free@[i] as int] == SlotUse::Free(
                    k as usize,
                ) by {
                    let q = self.bases@[k].free@[i] as int;
                    assert(self.arena@[q] == SlotUse::Free(k as usize));
                    assert(q != p);
                    assert(other.arena@[q] == self.arena@[q]);
                }
            }
        }
        assert forall|q: int| 0 <= q < other.arena@.len() implies #[trigger] other.slot_wf(q) by {
            if q != p {
                assert(self.slot_wf(q));
                assert(other.arena@[q] == self.arena@[q]);
                assert(other.flash.ptes@[q] == self.flash.ptes@[q]);
                match self.arena@[q] {
                    SlotUse::Opaque => {},
                    SlotUse::Free(k) => {
                        if k != h {
                            assert(other.bases@[k as int] == self.bases@[k as int]);
                        }
                    },
                    SlotUse::Orphaned(k) => {
                        if k != h {
                            assert(other.bases@[k as int] == self.bases@[k as int]);
                        }
                    },
                    SlotUse::Live(k, v) => {
                        if k != h {
                            assert(other.bases@[k as int] == self.bases@[k as int]);
                        }
                    },
                }
            }
        }
    }

    /// A step of basis `h` at slot `p` keeps the invariant, when the map
    /// keeps its entries at other slots, gains none but at `p`, and the free
    /// queue is as it was, or has gained `p`, or has lost `p` at its front.
    pub proof fn lemma_overlay_step(self, other: Pddb, h: int, p: int)
        requires
            self.wf(),
            self.is_open(h),
            other.is_open(h),
            self.bases@.len() <= usize::MAX,
            0 <= p < self.arena@.len(),
            self.slot_open_to(h, p),
            other.flash.wf(),
            self.same_flash_except(other, p),
            self.same_arena_except(other, p),
            other.same_bases_except(self, h),
            other.bases@[h].key == self.bases@[h].key,
            other.slot_wf(p),
            forall|v: u64|
                #[trigger] self.bases@[h].map@.contains_key(v) && self.bases@[h].map@[v].phys != p
                    ==> other.bases@[h].map@.contains_key(v) && other.bases@[h].map@[v]
                    == self.bases@[h].map@[v],
            forall|v: u64| #[trigger]
                other.bases@[h].map@.contains_key(v) ==> (self.bases@[h].map@.contains_key(v)
                    && self.bases@[h].map@[v] == other.bases@[h].map@[v]) || (
                other.bases@[h].map@[v].phys == p && other.mapping_wf(h, v)),
            match self.arena@[p] {
                SlotUse::Live(_, v) => !other.bases@[h].map@.contains_key(v)
                    || other.mapping_wf(h, v),
                _ => true,
            },
            ({
                let before = self.bases@[h].free@;
                let after = other.bases@[h].free@;
                ||| after == before && self.arena@[p] != SlotUse::Free(h as usize)
                ||| after == before.push(p as u32) && self.arena@[p] != SlotUse::Free(h as usize)
                    && other.arena@[p] == SlotUse::Free(h as usize)
                ||| before.len() > 0 && before[0] == p && after == before.drop_first()
            }),
        ensures
            other.wf(),
    {
        let before = self.bases@[h].free@;
        let after = other.bases@[h].free@;
        assert(self.basis_wf(h));
        assert forall|v: u64| #[trigger]
            other.bases@[h].map@.contains_key(v) implies other.mapping_wf(h, v) by {
            if !other.mapping_wf(h, v) {
                assert(self.mapping_wf(h, v));
                assert(self.bases@[h].map@[v].phys != p);
            }
        }
        assert forall|i: int| 0 <= i < after.len() implies (#[trigger] after[i])
            < other.flash.page_count() && other.arena@[after[i] as int] == SlotUse::Free(
            h as usize,
        ) by {
            if after == before {
                assert(self.arena@[before[i] as int] == SlotUse::Free(h as usize));
            } else if after == before.push(p as u32) {
                if i < before.len() {
                    assert(self.arena@[before[i] as int] == SlotUse::Free(h as usize));
                }
            } else {
                assert(after[i] == before[i + 1]);
                assert(self.arena@[before[i + 1] as int] == SlotUse::Free(h as usize));
                assert(before[i + 1] != before[0]);
            }
        }
        assert(after.no_duplicates()) by {
            if after == before.push(p as u32) {
                assert forall|i: int| 0 <= i < before.len() implies before[i] != p by {
                    assert(self.arena@[before[i] as int] == SlotUse::Free(h as usize));
                }
            } else if after != before {
                assert forall|i: int, j: int|
                    0 <= i < after.len() && 0 <= j < after.len() && i != j implies after[i]
                    != after[j] by {
                    assert(before[i + 1] != before[j + 1]);
                }
            }
        }
        assert(other.basis_wf(h));
        assert forall|q: int|
            0 <= q < self.arena@.len() && q != p implies match #[trigger] self.arena@[q] {
            SlotUse::Live(k, v) => k == h ==> other.bases@[h].map@.contains_key(v)
                && other.bases@[h].map@[v].phys == q,
            _ => true,
        } by {
            assert(self.slot_wf(q));
        }
        self.lemma_step_wf(other, h, p);
    }

    /// True when `other` has the overlay of `h` open under the same key.
    pub open spec fn same_identity(self, other: Pddb, h: int) -> bool {
        &&& other.is_open(h) == self.is_open(h)
        &&& 0 <= h < self.bases@.len() ==> other.bases@[h].key == self.bases@[h].key
    }

    /// Reserves a free page of the basis for a new copy of `virtual_addr`.
    /// The page comes from the front of the free queue; it was free, so it
    /// backs no page of any open basis, and in particular not
    /// `virtual_addr` itself. Nothing is written yet: until the commit
    /// adopts it the page is neither free nor live.
    pub(crate) fn reserve_for(&mut self, handle: BasisHandle, virtual_addr: u64) -> (slot: Result<
        u32,
        PddbError,
    >)
        requires
            old(self).wf(),
        ensures
            final(self).wf(),
            final(self).flash == old(self).flash,
            final(self).same_bases_except(*old(self), handle as int),
            final(self).same_identity(*old(self), handle as int),
            match slot {
                Ok(p) => {
                    &&& old(self).is_open(handle as int)
                    &&& old(self).bases@[handle as int].free@.len() > 0
                    &&& p == old(self).bases@[handle as int].free@[0]
                    &&& p < old(self).flash.page_count()
                    &&& old(self).arena@[p as int] == SlotUse::Free(handle)
                    &&& !old(self).is_live(p as int)
                    &&& old(self).spec_resolve(handle as int, virtual_addr) != Some(p)
                    &&& final(self).arena@ == old(self).arena@.update(
                        p as int,
                        SlotUse::Orphaned(handle),
                    )
                    &&& final(self).bases@[handle as int].free@ == old(self).bases@[handle as int].free@.drop_first()
                    &&& final(self).bases@[handle as int].map == old(self).bases@[handle as int].map
                },
                Err(e) => {
                    &&& final(self).same_state(*old(self))
                    &&& e == (if old(self).is_open(handle as int) {
                        PddbError::OutOfSpace
                    } else {
                        PddbError::NotFound
                    })
                    &&& old(self).is_open(handle as int) ==> old(self).bases@[handle as int].free@.len()
                        == 0
                },
            },
    {
        if !self.is_mounted(handle) {
            return Err(PddbError::NotFound);
        }
        proof {
            assert(self.basis_wf(handle as int));
        }
        match self.bases[handle].free.allocate() {
            Err(e) => {
                proof {
                    old(self).lemma_same_state_wf(*self);
                }
                Err(e)
            },
            Ok(p) => {
                proof {
                    assert(old(self).bases@[handle as int].free@[0] == p);
                    assert(old(self).slot_wf(p as int));
                }
                self.arena[p as usize] = SlotUse::Orphaned(handle);
                proof {
                    assert(self.bases@.len() == self.bases.len());
                    old(self).lemma_overlay_step(*self, handle as int, p as int);
                }
                Ok(p)
            },
        }
    }
}

impl Pddb {
    /// Takes `virtual_addr` out of the map of the basis. The slot that
    /// backed it becomes orphaned: it stays the basis's own, and flash is
    /// not touched.
    pub fn unmap(&mut self, handle: BasisHandle, virtual_addr: u64) -> (was: Option<ReversePte>)
        requires
            old(self).wf(),
        ensures
            final(self).wf(),
            final(self).flash == old(self).flash,
            final(self).same_bases_except(*old(self), handle as int),
            final(self).same_identity(*old(self), handle as int),
            match was {
                Some(m) => {
                    &&& old(self).is_open(handle as int)
                    &&& old(self).bases@[handle as int].map@.contains_key(virtual_addr)
                    &&& m == old(self).bases@[handle as int].map@[virtual_addr]
                    &&& m.phys < old(self).flash.page_count()
                    &&& final(self).bases@[handle as int].map@ == old(self).bases@[handle as int].map@.remove(
                        virtual_addr,
                    )
                    &&& final(self).bases@[handle as int].free@ == old(self).bases@[handle as int].free@
                    &&& final(self).arena@ == old(self).arena@.update(
                        m.phys as int,
                        SlotUse::Orphaned(handle),
                    )
                },
                None => old(self).spec_resolve(handle as int, virtual_addr) is None && final(self).same_state(*old(self)),
            },
    {
        broadcast use vstd::std_specs::hash::group_hash_axioms;

        if !self.is_mounted(handle) {
            return None;
        }
        let found: Option<ReversePte> = match self.bases[handle].map.get(&virtual_addr) {
            Some(m) => Some(*m),
            None => None,
        };
        match found {
            None => None,
            Some(m) => {
                proof {
                    assert(self.basis_wf(handle as int));
                    assert(self.mapping_wf(handle as int, virtual_addr));
                }
                self.bases[handle].map.remove(&virtual_addr);
                self.arena[m.phys as usize] = SlotUse::Orphaned(handle);
                proof {
                    assert(self.bases@.len() == self.bases.len());
                    old(self).lemma_overlay_step(*self, handle as int, m.phys as int);
                }
                Some(m)
            },
        }
    }

    /// Adopts a page and its table entry into slot `commit.slot`, which the
    /// basis holds orphaned, and maps `virtual_addr` to it. The page is
    /// written before the entry: a table entry never points at a page that
    /// is not yet there.
    pub(crate) fn install(&mut self, handle: BasisHandle, virtual_addr: u64, commit: StagedCommit, rev: u32)
        requires
            old(self).wf(),
            old(self).is_open(handle as int),
            commit.wf(),
            commit.slot < old(self).flash.page_count(),
            old(self).arena@[commit.slot as int] == SlotUse::Orphaned(handle),
            !old(self).bases@[handle as int].map@.contains_key(virtual_addr),
            virtual_addr < VIRT_LIMIT,
            rev < REV_LIMIT,
            entry_of(commit.pte@, commit.page@, old(self).bases@[handle as int].key, commit.slot)
                == Some((virtual_addr, rev)),
        ensures
            final(self).wf(),
            final(self).flash.ptes@ == old(self).flash.ptes@.update(commit.slot as int, commit.pte),
            final(self).flash.pages@ == old(self).flash.pages@.update(
                commit.slot as int,
                commit.page,
            ),
            final(self).flash.fscb == old(self).flash.fscb,
            final(self).flash.staging == old(self).flash.staging,
            final(self).arena@ == old(self).arena@.update(
                commit.slot as int,
                SlotUse::Live(handle, virtual_addr),
            ),
            final(self).same_bases_except(*old(self), handle as int),
            final(self).same_identity(*old(self), handle as int),
            final(self).bases@[handle as int].map@ == old(self).bases@[handle as int].map@.insert(
                virtual_addr,
                ReversePte { phys: commit.slot, rev, flags: PtFlags { bits: PT_CLEAN } },
            ),
            final(self).bases@[handle as int].free@ == old(self).bases@[handle as int].free@,
    {
        broadcast use vstd::std_specs::hash::group_hash_axioms;

        let slot: u32 = commit.slot;
        let ghost page = commit.page@;
        self.flash.pages[slot as usize] = commit.page;
        self.flash.ptes[slot as usize] = commit.pte;
        self.bases[handle].map.insert(
            virtual_addr,
            ReversePte { phys: slot, rev, flags: PtFlags::clean() },
        );
        self.arena[slot as usize] = SlotUse::Live(handle, virtual_addr);
        proof {
            assert(self.bases@.len() == self.bases.len());
            old(self).lemma_overlay_step(*self, handle as int, slot as int);
        }
    }

    /// Returns an orphaned slot of the basis to its free pages. The table
    /// entry of the slot is overwritten with `noise`; a record sealed under
    /// `nonce` goes to the free space log; the slot joins the back of the
    /// free queue. Should the noise decode as an entry of this basis, it is
    /// not written: nothing changes, the slot stays orphaned, and the result
    /// is `false`.
    pub(crate) fn reclaim(&mut self, handle: BasisHandle, slot: u32, noise: [u8; 16], nonce: &[u8; 12]) -> (freed:
        bool)
        requires
            old(self).wf(),
            old(self).is_open(handle as int),
            slot < old(self).flash.page_count(),
            old(self).arena@[slot as int] == SlotUse::Orphaned(handle),
        ensures
            final(self).wf(),
            final(self).flash.pages == old(self).flash.pages,
            final(self).flash.staging == old(self).flash.staging,
            final(self).same_bases_except(*old(self), handle as int),
            final(self).same_identity(*old(self), handle as int),
            final(self).bases@[handle as int].map == old(self).bases@[handle as int].map,
            freed == !decodes(noise@, old(self).bases@[handle as int].key, slot),
            freed ==> {
                &&& final(self).flash.ptes@ == old(self).flash.ptes@.update(slot as int, noise)
                &&& final(self).arena@ == old(self).arena@.update(
                    slot as int,
                    SlotUse::Free(handle),
                )
                &&& final(self).bases@[handle as int].free@ == old(self).bases@[handle as int].free@.push(
                    slot,
                )
                &&& final(self).flash.fscb@.len() == old(self).flash.fscb@.len()
                &&& final(self).flash.fscb@[slot as int]@ == spec_sealed_free_record(
                    old(self).bases@[handle as int].key,
                    slot,
                    nonce@,
                )
                &&& forall|q: int|
                    0 <= q < old(self).flash.fscb@.len() && q != slot ==> #[trigger] final(self).flash.fscb@[q] == old(self).flash.fscb@[q]
                &&& spec_free_record_opens(
                    final(self).flash.fscb@[slot as int]@,
                    old(self).bases@[handle as int].key,
                    slot,
                )
            },
            !freed ==> *final(self) == *old(self),
    {
        let key: BasisKey = self.bases[handle].key;
        let freed: bool = decode(&noise, &key, slot).is_none();
        proof {
            reveal(decodes);
        }
        if !freed {
            return false;
        }
        self.flash.ptes[slot as usize] = noise;
        self.flash.fscb[slot as usize] = seal_free_record(&key, slot, nonce);
        self.arena[slot as usize] = SlotUse::Free(handle);
        self.bases[handle].free.free(slot);
        proof {
            assert(self.bases@.len() == self.bases.len());
            old(self).lemma_overlay_step(*self, handle as int, slot as int);
        }
        freed
    }
}

impl Pddb {
    /// Takes a slot that is nobody's for the basis. The slot becomes
    /// orphaned: the basis's own, neither mapped nor free.
    pub(crate) fn claim(&mut self, handle: BasisHandle, slot: u32)
        requires
            old(self).wf(),
            old(self).is_open(handle as int),
            slot < old(self).flash.page_count(),
            old(self).arena@[slot as int] == SlotUse::Opaque,
        ensures
            final(self).wf(),
            final(self).flash == old(self).flash,
            final(self).bases == old(self).bases,
            final(self).arena@ == old(self).arena@.update(slot as int, SlotUse::Orphaned(handle)),
    {
        self.arena[slot as usize] = SlotUse::Orphaned(handle);
        proof {
            assert(self.bases@.len() == self.bases.len());
            old(self).lemma_overlay_step(*self, handle as int, slot as int);
        }
    }

    /// Maps `virtual_addr` to an orphaned slot of the basis whose entry and
    /// page, as they stand on flash, hold that address at revision `rev`.
    pub(crate) fn map_slot(&mut self, handle: BasisHandle, virtual_addr: u64, slot: u32, rev: u32)
        requires
            old(self).wf(),
            old(self).is_open(handle as int),
            slot < old(self).flash.page_count(),
            old(self).arena@[slot as int] == SlotUse::Orphaned(handle),
            !old(self).bases@[handle as int].map@.contains_key(virtual_addr),
            virtual_addr < VIRT_LIMIT,
            rev < REV_LIMIT,
            old(self).flash.spec_slot_entry(old(self).bases@[handle as int].key, slot as int) == Some(
                (virtual_addr, rev),
            ),
        ensures
            final(self).wf(),
            final(self).flash == old(self).flash,
            final(self).arena@ == old(self).arena@.update(
                slot as int,
                SlotUse::Live(handle, virtual_addr),
            ),
            final(self).same_bases_except(*old(self), handle as int),
            final(self).same_identity(*old(self), handle as int),
            final(self).bases@[handle as int].map@ == old(self).bases@[handle as int].map@.insert(
                virtual_addr,
                ReversePte { phys: slot, rev, flags: PtFlags { bits: PT_CLEAN } },
            ),
            final(self).bases@[handle as int].free@ == old(self).bases@[handle as int].free@,
    {
        broadcast use vstd::std_specs::hash::group_hash_axioms;

        self.bases[handle].map.insert(
            virtual_addr,
            ReversePte { phys: slot, rev, flags: PtFlags::clean() },
        );
        self.arena[slot as usize] = SlotUse::Live(handle, virtual_addr);
        proof {
            assert(self.bases@.len() == self.bases.len());
            old(self).lemma_overlay_step(*self, handle as int, slot as int);
        }
    }

    /// Puts an orphaned slot of the basis, whose table entry does not
    /// decode and which the log lists, at the back of the free queue.
    pub(crate) fn free_slot(&mut self, handle: BasisHandle, slot: u32)
        requires
            old(self).wf(),
            old(self).is_open(handle as int),
            slot < old(self).flash.page_count(),
            old(self).arena@[slot as int] == SlotUse::Orphaned(handle),
            !old(self).flash.spec_decodes(old(self).bases@[handle as int].key, slot as int),
            old(self).flash.spec_listed_free(old(self).bases@[handle as int].key, slot as int),
        ensures
            final(self).wf(),
            final(self).flash == old(self).flash,
            final(self).arena@ == old(self).arena@.update(slot as int, SlotUse::Free(handle)),
            final(self).same_bases_except(*old(self), handle as int),
            final(self).same_identity(*old(self), handle as int),
            final(self).bases@[handle as int].map == old(self).bases@[handle as int].map,
            final(self).bases@[handle as int].free@ == old(self).bases@[handle as int].free@.push(
                slot,
            ),
    {
        self.arena[slot as usize] = SlotUse::Free(handle);
        self.bases[handle].free.free(slot);
        proof {
            assert(self.bases@.len() == self.bases.len());
            old(self).lemma_overlay_step(*self, handle as int, slot as int);
        }
    }

    /// Writes a table entry and a page to a slot that is nobody's.
    pub(crate) fn write_slot(&mut self, slot: u32, pte: [u8; 16], page: Vec<u8>)
        requires
            old(self).wf(),
            slot < old(self).flash.page_count(),
            old(self).arena@[slot as int] == SlotUse::Opaque,
            page@.len() == PAGE_SIZE,
        ensures
            final(self).wf(),
            final(self).flash.ptes@ == old(self).flash.ptes@.update(slot as int, pte),
            final(self).flash.pages@ == old(self).flash.pages@.update(slot as int, page),
            final(self).flash.fscb == old(self).flash.fscb,
            final(self).flash.staging == old(self).flash.staging,
            final(self).arena == old(self).arena,
            final(self).bases == old(self).bases,
    {
        self.flash.pages[slot as usize] = page;
        self.flash.ptes[slot as usize] = pte;
        proof {
            let p = slot as int;
            assert forall|h: int| 0 <= h < self.bases@.len() implies #[trigger] self.basis_wf(h) by {
                assert(old(self).basis_wf(h));
                assert forall|v: u64| #[trigger]
                    self.bases@[h].map@.contains_key(v) implies self.mapping_wf(h, v) by {
                    assert(old(self).mapping_wf(h, v));
                }
            }
            assert forall|q: int| 0 <= q < self.arena@.len() implies #[trigger] self.slot_wf(q) by {
                assert(old(self).slot_wf(q));
            }
        }
    }
}

} // verus!
