//! The basis manager: opening and closing keyspaces.
//!
//! Opening a basis scans the whole region under its key. The staged copy is
//! looked at first: if it authenticates and its slot holds nothing for this
//! key, it is written to its slot. Then every slot that is nobody's is
//! classified by its table entry and the page behind it; of two slots that
//! hold the same virtual address, the one with the higher journal revision
//! is mapped and the other is orphaned. Last, the free space log gives the
//! free pages. Slots that another open basis owns are not looked at.
//!
//! Closing a basis forgets its overlay and gives its slots back to nobody.
//! Flash is not touched: what the basis wrote stays, and is noise to anyone
//! without the key.

use vstd::prelude::*;
use std::collections::HashMap;
use crate::engine::Basis;
use crate::engine::BasisHandle;
use crate::engine::ReversePte;
use crate::engine::Pddb;
use crate::engine::SlotUse;
use crate::error::PddbError;
use crate::flags::PtFlags;
use crate::flags::PT_CLEAN;
use crate::flash::decodes;
use crate::flash::entry_of;
use crate::flash::lemma_entry_parts;
use crate::flash::Flash;
use crate::fscb::free_record_opens;
use crate::fscb::spec_sealed_free_record;
use crate::fscb::Fscb;
use crate::mbbb::read_staged;
use crate::pte::decode;
use crate::mbbb::spec_open_staging;
use crate::bytes::take_array;
use crate::cipher::os_entropy;
use crate::key::derive_key;
use crate::key::spec_derive_key;
use crate::key::BasisKey;

verus! {

/// The basis that owns a slot, if any.
pub open spec fn owner_of(slot: SlotUse) -> Option<usize> {
    match slot {
        SlotUse::Opaque => None,
        SlotUse::Free(h) => Some(h),
        SlotUse::Orphaned(h) => Some(h),
        SlotUse::Live(h, _) => Some(h),
    }
}

/// The basis that owns a slot, if any.
pub fn slot_owner(slot: SlotUse) -> (owner: Option<usize>)
    ensures
        owner == owner_of(slot),
{
    match slot {
        SlotUse::Opaque => None,
        SlotUse::Free(h) => Some(h),
        SlotUse::Orphaned(h) => Some(h),
        SlotUse::Live(h, _) => Some(h),
    }
}

impl Pddb {
    /// Closes the basis of `handle`: its map and free queue are dropped, its
    /// key is wiped, and its slots are nobody's again. Flash is untouched,
    /// and so is every other basis. Closing a handle that is not open does
    /// nothing.
    pub fn lock(&mut self, handle: BasisHandle)
        requires
            old(self).wf(),
        ensures
            final(self).wf(),
            final(self).flash == old(self).flash,
            final(self).same_bases_except(*old(self), handle as int),
            !final(self).is_open(handle as int),
            final(self).arena@.len() == old(self).arena@.len(),
            forall|p: int|
                0 <= p < old(self).arena@.len() ==> #[trigger] final(self).arena@[p] == (if owner_of(
                    old(self).arena@[p],
                ) == Some(handle) {
                    SlotUse::Opaque
                } else {
                    old(self).arena@[p]
                }),
    {
        if !self.is_mounted(handle) {
            proof {
                assert forall|p: int| 0 <= p < old(self).arena@.len() implies owner_of(
                    #[trigger] old(self).arena@[p],
                ) != Some(handle) by {
                    assert(old(self).slot_wf(p));
                }
            }
            return ;
        }
        let n: usize = self.arena.len();
        let mut p: usize = 0;
        while p < n
            invariant
                0 <= p <= n,
                n == self.arena@.len(),
                n == old(self).arena@.len(),
                self.flash == old(self).flash,
                self.bases == old(self).bases,
                forall|q: int|
                    0 <= q < p ==> #[trigger] self.arena@[q] == (if owner_of(old(self).arena@[q])
                        == Some(handle) {
                        SlotUse::Opaque
                    } else {
                        old(self).arena@[q]
                    }),
                forall|q: int| p <= q < n ==> #[trigger] self.arena@[q] == old(self).arena@[q],
            decreases n - p,
        {
            let owner = slot_owner(self.arena[p]);
            if owner == Some(handle) {
                self.arena[p] = SlotUse::Opaque;
            }
            p += 1;
        }
        self.bases[handle] = Basis {
            open: false,
            key: BasisKey { table: [0u8; 32], data: [0u8; 32] },
            map: HashMap::new(),
            free: Fscb::new(),
        };
        proof {
            let h = handle as int;
            assert(self.bases@.len() == self.bases.len());
            assert forall|k: int| 0 <= k < self.bases@.len() implies #[trigger] self.basis_wf(k) by {
                if k != h {
                    assert(old(self).basis_wf(k));
                    assert(self.bases@[k] == old(self).bases@[k]);
                    assert forall|v: u64| #[trigger]
                        self.bases@[k].map@.contains_key(v) implies self.mapping_wf(k, v) by {
                        assert(old(self).mapping_wf(k, v));
                    }
                    assert forall|i: int| 0 <= i < self.bases@[k].free@.len() implies (
                    #[trigger] self.bases@[k].free@[i]) < self.flash.page_count()
                        && self.arena@[self.bases@[k].free@[i] as int] == SlotUse::Free(
                        k as usize,
                    ) by {
                        assert(old(self).arena@[old(self).bases@[k].free@[i] as int]
                            == SlotUse::Free(k as usize));
                    }
                }
            }
            assert forall|q: int| 0 <= q < self.arena@.len() implies #[trigger] self.slot_wf(q) by {
                assert(old(self).slot_wf(q));
                match old(self).arena@[q] {
                    SlotUse::Opaque => {},
                    SlotUse::Free(k) => {
                        if k != handle {
                            assert(self.bases@[k as int] == old(self).bases@[k as int]);
                        }
                    },
                    SlotUse::Orphaned(k) => {
                        if k != handle {
                            assert(self.bases@[k as int] == old(self).bases@[k as int]);
                        }
                    },
                    SlotUse::Live(k, v) => {
                        if k != handle {
                            assert(self.bases@[k as int] == old(self).bases@[k as int]);
                        }
                    },
                }
            }
        }
    }
}

/// What slot `p` holds for `key`, if the slot is nobody's.
pub open spec fn claimable_entry(flash: Flash, arena: Seq<SlotUse>, key: BasisKey, p: int) -> Option<
    (u64, u32),
> {
    if arena[p] == SlotUse::Opaque {
        flash.spec_slot_entry(key, p)
    } else {
        None
    }
}

/// True when `map` is the table of the first `limit` slots: every slot that
/// is nobody's and holds a virtual address has that address mapped, at a
/// revision at least its own; every mapped address points at such a slot;
/// and of two slots with the same address and revision the lower one is
/// mapped.
pub open spec fn is_table_upto(
    map: Map<u64, ReversePte>,
    flash: Flash,
    arena: Seq<SlotUse>,
    key: BasisKey,
    limit: int,
) -> bool {
    &&& forall|p: int|
        0 <= p < limit ==> match #[trigger] claimable_entry(flash, arena, key, p) {
            Some(entry) => map.contains_key(entry.0) && (map[entry.0].rev > entry.1 || (
            map[entry.0].rev == entry.1 && map[entry.0].phys <= p)),
            None => true,
        }
    &&& forall|v: u64| #[trigger]
        map.contains_key(v) ==> map[v].phys < limit && claimable_entry(
            flash,
            arena,
            key,
            map[v].phys as int,
        ) == Some((v, map[v].rev))
}

/// True when slot `p` is nobody's and the free space log gives it to `key`:
/// its record opens and its table entry does not decode.
pub open spec fn is_free_candidate(flash: Flash, arena: Seq<SlotUse>, key: BasisKey, p: int) -> bool {
    &&& arena[p] == SlotUse::Opaque
    &&& flash.spec_listed_free(key, p)
    &&& !flash.spec_decodes(key, p)
}

/// The free candidates among the first `limit` slots, in rising order.
pub open spec fn free_candidates(flash: Flash, arena: Seq<SlotUse>, key: BasisKey, limit: int) -> Seq<
    u32,
>
    decreases limit,
{
    if limit <= 0 {
        Seq::empty()
    } else if is_free_candidate(flash, arena, key, limit - 1) {
        free_candidates(flash, arena, key, limit - 1).push((limit - 1) as u32)
    } else {
        free_candidates(flash, arena, key, limit - 1)
    }
}

/// The staged copy that a mount under `key` adopts: it opens, it
/// authenticates for its slot, the slot exists and is nobody's, and the slot
/// holds nothing for `key` as it stands.
pub open spec fn spec_adoptable(flash: Flash, arena: Seq<SlotUse>, key: BasisKey) -> Option<
    (u32, Seq<u8>, Seq<u8>),
> {
    match spec_open_staging(flash.staging@, key) {
        Some(commit) => if entry_of(commit.1, commit.2, key, commit.0) is Some && commit.0
            < flash.page_count() && arena[commit.0 as int] == SlotUse::Opaque
            && flash.spec_slot_entry(key, commit.0 as int) is None {
            Some(commit)
        } else {
            None
        },
        None => None,
    }
}

/// True when slot `p` is left for the asking once a mount under `key` has
/// taken what it finds: the slot is nobody's, holds no page for `key`, and
/// is not a free page of `key`.
pub open spec fn grantable(flash: Flash, arena: Seq<SlotUse>, key: BasisKey, p: int) -> bool {
    &&& arena[p] == SlotUse::Opaque
    &&& claimable_entry(flash, arena, key, p) is None
    &&& !is_free_candidate(flash, arena, key, p)
}

/// True when `after` is `before` with the adoptable staged copy, if there
/// is one, written to its slot.
pub open spec fn is_recovered(before: Flash, after: Flash, arena: Seq<SlotUse>, key: BasisKey) -> bool {
    match spec_adoptable(before, arena, key) {
        Some(commit) => {
            &&& after.staging == before.staging
            &&& after.fscb == before.fscb
            &&& after.ptes@.len() == before.ptes@.len()
            &&& after.pages@.len() == before.pages@.len()
            &&& after.ptes@[commit.0 as int]@ == commit.1
            &&& after.pages@[commit.0 as int]@ == commit.2
            &&& forall|q: int|
                0 <= q < before.ptes@.len() && q != commit.0 ==> #[trigger] after.ptes@[q]
                    == before.ptes@[q]
            &&& forall|q: int|
                0 <= q < before.pages@.len() && q != commit.0 ==> #[trigger] after.pages@[q]
                    == before.pages@[q]
        },
        None => after == before,
    }
}

impl Pddb {
    /// Gives up the overlay that was added last: closes it and takes it off
    /// the list, so that a mount that found nothing leaves no trace.
    pub(crate) fn abandon(&mut self, handle: BasisHandle)
        requires
            old(self).wf(),
            handle + 1 == old(self).bases@.len(),
        ensures
            final(self).wf(),
            final(self).flash == old(self).flash,
            final(self).bases@ == old(self).bases@.drop_last(),
            final(self).arena@.len() == old(self).arena@.len(),
            forall|p: int|
                0 <= p < old(self).arena@.len() ==> #[trigger] final(self).arena@[p] == (if owner_of(
                    old(self).arena@[p],
                ) == Some(handle) {
                    SlotUse::Opaque
                } else {
                    old(self).arena@[p]
                }),
    {
        self.lock(handle);
        let ghost locked = *self;
        self.bases.pop();
        proof {
            assert(self.bases@ =~= old(self).bases@.drop_last()) by {
                assert forall|k: int| 0 <= k < handle implies self.bases@[k] == old(self).bases@[k] by {
                    assert(locked.bases@[k] == old(self).bases@[k]);
                }
            }
            assert forall|k: int| 0 <= k < self.bases@.len() implies #[trigger] self.basis_wf(k) by {
                assert(locked.basis_wf(k));
                assert forall|v: u64| #[trigger]
                    self.bases@[k].map@.contains_key(v) implies self.mapping_wf(k, v) by {
                    assert(locked.mapping_wf(k, v));
                }
            }
            assert forall|q: int| 0 <= q < self.arena@.len() implies #[trigger] self.slot_wf(q) by {
                assert(locked.slot_wf(q));
            }
        }
    }

    /// Adds an open overlay for `key`, with nothing mapped and nothing free.
    pub(crate) fn open_overlay(&mut self, key: BasisKey) -> (handle: BasisHandle)
        requires
            old(self).wf(),
        ensures
            final(self).wf(),
            final(self).flash == old(self).flash,
            final(self).arena == old(self).arena,
            handle == old(self).bases@.len(),
            final(self).bases@.len() == old(self).bases@.len() + 1,
            forall|k: int|
                0 <= k < old(self).bases@.len() ==> #[trigger] final(self).bases@[k] == old(self).bases@[k],
            final(self).is_open(handle as int),
            final(self).bases@[handle as int].key == key,
            final(self).bases@[handle as int].map@ == Map::<u64, ReversePte>::empty(),
            final(self).bases@[handle as int].free@ == Seq::<u32>::empty(),
    {
        let handle: usize = self.bases.len();
        self.bases.push(Basis { open: true, key, map: HashMap::new(), free: Fscb::new() });
        proof {
            assert forall|k: int| 0 <= k < self.bases@.len() implies #[trigger] self.basis_wf(k) by {
                if k < handle {
                    assert(old(self).basis_wf(k));
                    assert(self.bases@[k] == old(self).bases@[k]);
                    assert forall|v: u64| #[trigger]
                        self.bases@[k].map@.contains_key(v) implies self.mapping_wf(k, v) by {
                        assert(old(self).mapping_wf(k, v));
                    }
                }
            }
            assert forall|q: int| 0 <= q < self.arena@.len() implies #[trigger] self.slot_wf(q) by {
                assert(old(self).slot_wf(q));
                match old(self).arena@[q] {
                    SlotUse::Opaque => {},
                    SlotUse::Free(k) => {
                        assert(self.bases@[k as int] == old(self).bases@[k as int]);
                    },
                    SlotUse::Orphaned(k) => {
                        assert(self.bases@[k as int] == old(self).bases@[k as int]);
                    },
                    SlotUse::Live(k, v) => {
                        assert(self.bases@[k as int] == old(self).bases@[k as int]);
                    },
                }
            }
        }
        handle
    }

    /// Reads the staged copy back under `key` and, if it is adoptable,
    /// writes it to its slot.
    pub(crate) fn recover_staged(&mut self, key: &BasisKey)
        requires
            old(self).wf(),
        ensures
            final(self).wf(),
            final(self).arena == old(self).arena,
            final(self).bases == old(self).bases,
            is_recovered(old(self).flash, final(self).flash, old(self).arena@, *key),
    {
        match read_staged(self.flash.staging.as_slice(), key) {
            None => {},
            Some((copy, _, _)) => {
                if (copy.slot as usize) < self.arena.len() {
                    let at: SlotUse = self.arena[copy.slot as usize];
                    if at == SlotUse::Opaque && self.flash.probe_slot(key, copy.slot).is_err() {
                        self.write_slot(copy.slot, copy.pte, copy.page);
                    }
                }
            },
        }
    }
}

impl Pddb {
    /// Builds the map of the basis from the slots that are nobody's: each
    /// such slot that holds a virtual address under the key of the basis is
    /// taken, and mapped unless an earlier slot holds the address at the
    /// same or a higher revision. A slot that loses to another stays
    /// orphaned.
    pub(crate) fn scan_table(&mut self, handle: BasisHandle)
        requires
            old(self).wf(),
            old(self).is_open(handle as int),
            old(self).bases@[handle as int].map@ == Map::<u64, ReversePte>::empty(),
        ensures
            final(self).wf(),
            final(self).flash == old(self).flash,
            final(self).same_bases_except(*old(self), handle as int),
            final(self).same_identity(*old(self), handle as int),
            final(self).bases@[handle as int].free@ == old(self).bases@[handle as int].free@,
            is_table_upto(
                final(self).bases@[handle as int].map@,
                old(self).flash,
                old(self).arena@,
                old(self).bases@[handle as int].key,
                old(self).arena@.len() as int,
            ),
            final(self).arena@.len() == old(self).arena@.len(),
            forall|p: int|
                0 <= p < old(self).arena@.len() ==> (if claimable_entry(
                    old(self).flash,
                    old(self).arena@,
                    old(self).bases@[handle as int].key,
                    p,
                ) is Some {
                    owner_of(#[trigger] final(self).arena@[p]) == Some(handle) && !(final(self).arena@[p] is Free)
                } else {
                    final(self).arena@[p] == old(self).arena@[p]
                }),
    {
        let key: BasisKey = self.bases[handle].key;
        let n: u32 = self.flash.pages();
        let mut p: u32 = 0;
        while p < n
            invariant
                0 <= p <= n,
                n == old(self).arena@.len(),
                self.wf(),
                self.is_open(handle as int),
                self.flash == old(self).flash,
                self.same_bases_except(*old(self), handle as int),
                self.bases@[handle as int].key == key,
                key == old(self).bases@[handle as int].key,
                self.bases@[handle as int].free@ == old(self).bases@[handle as int].free@,
                self.arena@.len() == old(self).arena@.len(),
                is_table_upto(
                    self.bases@[handle as int].map@,
                    old(self).flash,
                    old(self).arena@,
                    key,
                    p as int,
                ),
                forall|q: int| p <= q < n ==> #[trigger] self.arena@[q] == old(self).arena@[q],
                forall|q: int|
                    0 <= q < p ==> (if claimable_entry(old(self).flash, old(self).arena@, key, q)
                        is Some {
                        owner_of(#[trigger] self.arena@[q]) == Some(handle) && !(self.arena@[q]
                            is Free)
                    } else {
                        self.arena@[q] == old(self).arena@[q]
                    }),
            decreases n - p,
        {
            let at: SlotUse = self.arena[p as usize];
            if at == SlotUse::Opaque {
                match self.flash.probe_slot(&key, p) {
                    Err(_) => {},
                    Ok((v, rev)) => {
                        let ghost before = *self;
                        self.claim(handle, p);
                        let better: bool = match self.revision(handle, v) {
                            Some(r) => rev > r,
                            None => true,
                        };
                        if better {
                            let was = self.unmap(handle, v);
                            self.map_slot(handle, v, p, rev);
                            proof {
                                let h = handle as int;
                                let map0 = before.bases@[h].map@;
                                let map1 = self.bases@[h].map@;
                                assert(map1 =~= map0.insert(
                                    v,
                                    ReversePte { phys: p, rev, flags: PtFlags { bits: PT_CLEAN } },
                                ));
                                assert forall|q: int| 0 <= q < p + 1 implies match #[trigger] claimable_entry(
                                    old(self).flash,
                                    old(self).arena@,
                                    key,
                                    q,
                                ) {
                                    Some(entry) => map1.contains_key(entry.0) && (map1[entry.0].rev
                                        > entry.1 || (map1[entry.0].rev == entry.1
                                        && map1[entry.0].phys <= q)),
                                    None => true,
                                } by {}
                                assert forall|q: int| 0 <= q < p + 1 implies (if claimable_entry(
                                    old(self).flash,
                                    old(self).arena@,
                                    key,
                                    q,
                                ) is Some {
                                    #[trigger] self.arena@[q] is Live || self.arena@[q]
                                        == SlotUse::Orphaned(handle)
                                } else {
                                    self.arena@[q] == old(self).arena@[q]
                                }) by {
                                    if q < p {
                                        assert(before.arena@[q] is Live || before.arena@[q]
                                            == SlotUse::Orphaned(handle) || before.arena@[q] == old(self).arena@[q]);
                                        if was is Some && q == was->0.phys {
                                            assert(before.basis_wf(h));
                                            assert(before.mapping_wf(h, v));
                                        }
                                    }
                                }
                            }
                        } else {
                            proof {
                                let h = handle as int;
                                assert(self.bases@[h].map@ == before.bases@[h].map@);
                            }
                        }
                    },
                }
            }
            p += 1;
        }
    }
}

/// Two arenas that agree on which slots are free candidates give the same
/// candidates.
pub proof fn lemma_free_candidates_agree(
    flash: Flash,
    a: Seq<SlotUse>,
    b: Seq<SlotUse>,
    key: BasisKey,
    limit: int,
)
    requires
        forall|p: int|
            0 <= p < limit ==> is_free_candidate(flash, a, key, p) == is_free_candidate(
                flash,
                b,
                key,
                p,
            ),
    ensures
        free_candidates(flash, a, key, limit) == free_candidates(flash, b, key, limit),
    decreases limit,
{
    if limit > 0 {
        lemma_free_candidates_agree(flash, a, b, key, limit - 1);
    }
}

impl Pddb {
    /// Fills the free queue of the basis from the free space log: each slot
    /// that is nobody's, whose record opens under the key of the basis and
    /// whose table entry does not decode, is taken and queued, in rising
    /// order of the slots.
    pub(crate) fn scan_free(&mut self, handle: BasisHandle)
        requires
            old(self).wf(),
            old(self).is_open(handle as int),
        ensures
            final(self).wf(),
            final(self).flash == old(self).flash,
            final(self).same_bases_except(*old(self), handle as int),
            final(self).same_identity(*old(self), handle as int),
            final(self).bases@[handle as int].map == old(self).bases@[handle as int].map,
            final(self).bases@[handle as int].free@ == old(self).bases@[handle as int].free@
                + free_candidates(
                old(self).flash,
                old(self).arena@,
                old(self).bases@[handle as int].key,
                old(self).arena@.len() as int,
            ),
            final(self).arena@.len() == old(self).arena@.len(),
            forall|p: int|
                0 <= p < old(self).arena@.len() ==> #[trigger] final(self).arena@[p]
                    == (if is_free_candidate(
                    old(self).flash,
                    old(self).arena@,
                    old(self).bases@[handle as int].key,
                    p,
                ) {
                    SlotUse::Free(handle)
                } else {
                    old(self).arena@[p]
                }),
    {
        let key: BasisKey = self.bases[handle].key;
        let n: u32 = self.flash.pages();
        let mut p: u32 = 0;
        while p < n
            invariant
                0 <= p <= n,
                n == old(self).arena@.len(),
                self.wf(),
                self.is_open(handle as int),
                self.flash == old(self).flash,
                self.same_bases_except(*old(self), handle as int),
                self.bases@[handle as int].key == key,
                key == old(self).bases@[handle as int].key,
                self.bases@[handle as int].map == old(self).bases@[handle as int].map,
                self.arena@.len() == old(self).arena@.len(),
                self.bases@[handle as int].free@ == old(self).bases@[handle as int].free@
                    + free_candidates(old(self).flash, old(self).arena@, key, p as int),
                forall|q: int| p <= q < n ==> #[trigger] self.arena@[q] == old(self).arena@[q],
                forall|q: int|
                    0 <= q < p ==> #[trigger] self.arena@[q] == (if is_free_candidate(
                        old(self).flash,
                        old(self).arena@,
                        key,
                        q,
                    ) {
                        SlotUse::Free(handle)
                    } else {
                        old(self).arena@[q]
                    }),
            decreases n - p,
        {
            let at: SlotUse = self.arena[p as usize];
            proof {
                reveal(decodes);
            }
            if at == SlotUse::Opaque && free_record_opens(&self.flash.fscb[p as usize], &key, p)
                && decode(&self.flash.ptes[p as usize], &key, p).is_none() {
                let ghost before = self.bases@[handle as int].free@;
                self.claim(handle, p);
                self.free_slot(handle, p);
                proof {
                    let found = free_candidates(old(self).flash, old(self).arena@, key, p as int);
                    assert(before.push(p) =~= old(self).bases@[handle as int].free@ + found.push(
                        p,
                    ));
                }
            }
            p += 1;
        }
    }

    /// Adds an overlay for `key` and fills it from flash: adopts the staged
    /// copy if there is one to adopt, builds the map from the table and the
    /// free queue from the free space log. The overlay stays open whatever
    /// was found.
    pub(crate) fn mount_overlay(&mut self, key: BasisKey) -> (h: BasisHandle)
        requires
            old(self).wf(),
        ensures
            final(self).wf(),
            h == old(self).bases@.len(),
            final(self).bases@.len() == old(self).bases@.len() + 1,
            forall|k: int|
                0 <= k < old(self).bases@.len() ==> #[trigger] final(self).bases@[k] == old(self).bases@[k],
            forall|k: int, a: u64|
                0 <= k < old(self).bases@.len() ==> #[trigger] final(self).spec_content(k, a)
                    == old(self).spec_content(k, a),
            final(self).arena@.len() == old(self).arena@.len(),
            forall|p: int|
                0 <= p < old(self).arena@.len() ==> if old(self).arena@[p] != SlotUse::Opaque {
                    #[trigger] final(self).arena@[p] == old(self).arena@[p]
                } else if grantable(final(self).flash, old(self).arena@, key, p) {
                    final(self).arena@[p] == SlotUse::Opaque
                } else {
                    owner_of(final(self).arena@[p]) == Some(h)
                },
            is_recovered(old(self).flash, final(self).flash, old(self).arena@, key),
            final(self).is_open(h as int),
            final(self).bases@[h as int].key == key,
            is_table_upto(
                final(self).bases@[h as int].map@,
                final(self).flash,
                old(self).arena@,
                key,
                old(self).arena@.len() as int,
            ),
            final(self).bases@[h as int].free@ == free_candidates(
                final(self).flash,
                old(self).arena@,
                key,
                old(self).arena@.len() as int,
            ),
    {
        broadcast use vstd::std_specs::hash::group_hash_axioms;

        let h: usize = self.open_overlay(key);
        self.recover_staged(&key);
        let ghost recovered = *self;
        self.scan_table(h);
        let ghost scanned = *self;
        self.scan_free(h);
        let ghost filled = *self;
        proof {
            let n = old(self).arena@.len() as int;
            assert(self.bases@.len() == self.bases.len());
            assert(recovered.flash.wf());
            assert forall|p: int| 0 <= p < n implies is_free_candidate(
                recovered.flash,
                scanned.arena@,
                key,
                p,
            ) == is_free_candidate(recovered.flash, old(self).arena@, key, p) by {
                if claimable_entry(recovered.flash, old(self).arena@, key, p) is Some {
                    lemma_entry_parts(
                        recovered.flash.ptes@[p]@,
                        recovered.flash.pages@[p]@,
                        key,
                        p as u32,
                    );
                    assert(owner_of(scanned.arena@[p]) == Some(h));
                } else {
                    assert(scanned.arena@[p] == old(self).arena@[p]);
                }
            }
            lemma_free_candidates_agree(recovered.flash, scanned.arena@, old(self).arena@, key, n);
            assert(Seq::<u32>::empty() + free_candidates(recovered.flash, old(self).arena@, key, n)
                =~= free_candidates(recovered.flash, old(self).arena@, key, n));
            assert forall|p: int|
                0 <= p < n && old(self).arena@[p] != SlotUse::Opaque implies #[trigger] filled.arena@[p]
                == old(self).arena@[p] by {
                assert(claimable_entry(recovered.flash, old(self).arena@, key, p) is None);
                assert(scanned.arena@[p] == old(self).arena@[p]);
            }
            assert forall|k: int, a: u64| 0 <= k < old(self).bases@.len() implies #[trigger] filled.spec_content(
                k,
                a,
            ) == old(self).spec_content(k, a) by {
                assert(filled.bases@[k] == old(self).bases@[k]);
                if old(self).spec_resolve(k, a) is Some {
                    assert(old(self).basis_wf(k));
                    assert(old(self).mapping_wf(k, a));
                    let q = old(self).bases@[k].map@[a].phys as int;
                    assert(old(self).arena@[q] != SlotUse::Opaque);
                    assert(recovered.flash.pages@[q] == old(self).flash.pages@[q]);
                }
            }
        }
        proof {
            let n = old(self).arena@.len() as int;
            assert forall|p: int| 0 <= p < n implies if old(self).arena@[p] != SlotUse::Opaque {
                #[trigger] self.arena@[p] == old(self).arena@[p]
            } else if grantable(self.flash, old(self).arena@, key, p) {
                self.arena@[p] == SlotUse::Opaque
            } else {
                owner_of(self.arena@[p]) == Some(h)
            } by {
                if claimable_entry(recovered.flash, old(self).arena@, key, p) is Some {
                    assert(owner_of(scanned.arena@[p]) == Some(h));
                    lemma_entry_parts(
                        recovered.flash.ptes@[p]@,
                        recovered.flash.pages@[p]@,
                        key,
                        p as u32,
                    );
                } else {
                    assert(scanned.arena@[p] == old(self).arena@[p]);
                }
            }
        }
        h
    }

    /// Opens the basis with key `key`: adopts the staged copy if there is
    /// one to adopt, builds the map from the table and the free queue from
    /// the free space log. The basis gets a new handle. Bases that are open
    /// keep their slots and their pages.
    ///
    /// Fails with `WrongPassword` when the key opens nothing: no slot holds
    /// a page for it and no page is free for it. Flash and owners are then
    /// as they were.
    pub fn mount(&mut self, key: BasisKey) -> (handle: Result<BasisHandle, PddbError>)
        requires
            old(self).wf(),
        ensures
            final(self).wf(),
            final(self).bases@.len() == old(self).bases@.len() + (if handle is Ok {
                1int
            } else {
                0int
            }),
            forall|k: int|
                0 <= k < old(self).bases@.len() ==> #[trigger] final(self).bases@[k] == old(self).bases@[k],
            forall|k: int, a: u64|
                0 <= k < old(self).bases@.len() ==> #[trigger] final(self).spec_content(k, a)
                    == old(self).spec_content(k, a),
            final(self).arena@.len() == old(self).arena@.len(),
            forall|p: int|
                0 <= p < old(self).arena@.len() && old(self).arena@[p] != SlotUse::Opaque
                    ==> #[trigger] final(self).arena@[p] == old(self).arena@[p],
            is_recovered(old(self).flash, final(self).flash, old(self).arena@, key),
            spec_adoptable(final(self).flash, old(self).arena@, key) is None,
            match handle {
                Ok(h) => {
                    &&& h == old(self).bases@.len()
                    &&& final(self).is_open(h as int)
                    &&& final(self).bases@[h as int].key == key
                    &&& is_table_upto(
                        final(self).bases@[h as int].map@,
                        final(self).flash,
                        old(self).arena@,
                        key,
                        old(self).arena@.len() as int,
                    )
                    &&& final(self).bases@[h as int].free@ == free_candidates(
                        final(self).flash,
                        old(self).arena@,
                        key,
                        old(self).arena@.len() as int,
                    )
                    &&& (final(self).bases@[h as int].free@.len() > 0 || exists|v: u64|
                        final(self).bases@[h as int].map@.contains_key(v))
                    &&& forall|p: int|
                        0 <= p < old(self).arena@.len() && old(self).arena@[p] == SlotUse::Opaque
                            ==> if grantable(final(self).flash, old(self).arena@, key, p) {
                            #[trigger] final(self).arena@[p] == SlotUse::Opaque
                        } else {
                            owner_of(final(self).arena@[p]) == Some(h)
                        }
                },
                Err(e) => {
                    &&& e == PddbError::WrongPassword
                    &&& final(self).bases@ == old(self).bases@
                    &&& final(self).flash == old(self).flash
                    &&& final(self).arena@ == old(self).arena@
                    &&& forall|p: int|
                        0 <= p < old(self).arena@.len() ==> #[trigger] claimable_entry(
                            old(self).flash,
                            old(self).arena@,
                            key,
                            p,
                        ) is None
                    &&& free_candidates(
                        old(self).flash,
                        old(self).arena@,
                        key,
                        old(self).arena@.len() as int,
                    ).len() == 0
                },
            },
    {
        broadcast use vstd::std_specs::hash::group_hash_axioms;

        let h: usize = self.mount_overlay(key);
        let ghost filled = *self;
        let ghost recovered = *self;
        proof {
            if spec_adoptable(old(self).flash, old(self).arena@, key) is Some {
                let commit = spec_adoptable(old(self).flash, old(self).arena@, key)->0;
                assert(self.flash.spec_slot_entry(key, commit.0 as int) == entry_of(
                    commit.1,
                    commit.2,
                    key,
                    commit.0,
                ));
            }
        }
        if self.bases[h].map.is_empty() && self.bases[h].free.len() == 0 {
            proof {
                let n = old(self).arena@.len() as int;
                let map = self.bases@[h as int].map@;
                assert(map.len() == 0);
                assert forall|v: u64| !map.contains_key(v) by {
                    if map.contains_key(v) {
                        assert(map.dom().contains(v));
                        assert(map.dom().len() == 0);
                        assert(map.dom() =~= Set::<u64>::empty());
                    }
                }
                assert forall|p: int| 0 <= p < n implies #[trigger] claimable_entry(
                    recovered.flash,
                    old(self).arena@,
                    key,
                    p,
                ) is None by {}
                if spec_adoptable(old(self).flash, old(self).arena@, key) is Some {
                    let commit = spec_adoptable(old(self).flash, old(self).arena@, key)->0;
                    assert(claimable_entry(recovered.flash, old(self).arena@, key, commit.0 as int)
                        is Some);
                    assert(false);
                }
                assert(recovered.flash == old(self).flash);
            }
            self.abandon(h);
            proof {
                let n = old(self).arena@.len() as int;
                assert forall|p: int| 0 <= p < n implies self.arena@[p] == old(self).arena@[p] by {
                    assert(old(self).slot_wf(p));
                    if old(self).arena@[p] == SlotUse::Opaque {
                        assert(filled.arena@[p] == SlotUse::Opaque || owner_of(filled.arena@[p])
                            == Some(h));
                    } else {
                        assert(filled.arena@[p] == old(self).arena@[p]);
                    }
                }
                assert(self.arena@ =~= old(self).arena@);
                assert forall|k: int, a: u64| 0 <= k < old(self).bases@.len() implies #[trigger] self.spec_content(
                    k,
                    a,
                ) == old(self).spec_content(k, a) by {
                    assert(self.bases@[k] == old(self).bases@[k]);
                }
            }
            return Err(PddbError::WrongPassword);
        }
        proof {
            let map = self.bases@[h as int].map@;
            if self.bases@[h as int].free@.len() == 0 {
                assert(map.len() != 0);
                assert(exists|v: u64| map.contains_key(v)) by {
                    if forall|v: u64| !map.contains_key(v) {
                        assert(map.dom() =~= Set::<u64>::empty());
                    }
                }
            }
        }
        Ok(h)
    }
}

/// A free candidate below `limit` is among the candidates listed.
pub proof fn lemma_free_candidate_listed(
    flash: Flash,
    arena: Seq<SlotUse>,
    key: BasisKey,
    limit: int,
    p: int,
)
    requires
        0 <= p < limit,
        is_free_candidate(flash, arena, key, p),
    ensures
        free_candidates(flash, arena, key, limit).contains(p as u32),
        free_candidates(flash, arena, key, limit).len() > 0,
    decreases limit,
{
    if p == limit - 1 {
        let rest = free_candidates(flash, arena, key, limit - 1);
        assert(rest.push(p as u32)[rest.len() as int] == p as u32);
    } else {
        lemma_free_candidate_listed(flash, arena, key, limit - 1, p);
        let rest = free_candidates(flash, arena, key, limit - 1);
        let i = choose|i: int| 0 <= i < rest.len() && rest[i] == p as u32;
        if is_free_candidate(flash, arena, key, limit - 1) {
            assert(rest.push((limit - 1) as u32)[i] == p as u32);
        }
    }
}

/// True when creating a basis under `key` grants slot `p`: the slot lies in
/// the range asked for and exists, a block of random bytes is there for it,
/// the slot is left for the asking, and the first sixteen bytes of the block
/// do not decode as an entry of the basis.
pub open spec fn is_granted(
    flash: Flash,
    arena: Seq<SlotUse>,
    key: BasisKey,
    first: u32,
    count: u32,
    blocks: Seq<[u8; 64]>,
    p: int,
) -> bool {
    &&& first <= p < first + count
    &&& 0 <= p < arena.len()
    &&& p - first < blocks.len()
    &&& grantable(flash, arena, key, p)
    &&& !decodes(blocks[p - first]@.subrange(0, 16), key, p as u32)
}

/// The slots below `limit` that are granted, in rising order.
pub open spec fn granted_upto(
    flash: Flash,
    arena: Seq<SlotUse>,
    key: BasisKey,
    first: u32,
    count: u32,
    blocks: Seq<[u8; 64]>,
    limit: int,
) -> Seq<u32>
    decreases limit,
{
    if limit <= 0 {
        Seq::empty()
    } else if is_granted(flash, arena, key, first, count, blocks, limit - 1) {
        granted_upto(flash, arena, key, first, count, blocks, limit - 1).push((limit - 1) as u32)
    } else {
        granted_upto(flash, arena, key, first, count, blocks, limit - 1)
    }
}

/// True when a basis created under `key` has a page: the mount finds one,
/// mapped or free, or a slot is granted.
pub open spec fn finds_a_page(
    flash: Flash,
    arena: Seq<SlotUse>,
    key: BasisKey,
    first: u32,
    count: u32,
    blocks: Seq<[u8; 64]>,
) -> bool {
    ||| exists|p: int| 0 <= p < arena.len() && #[trigger] claimable_entry(flash, arena, key, p) is Some
    ||| free_candidates(flash, arena, key, arena.len() as int).len() > 0
    ||| exists|p: int| #[trigger] is_granted(flash, arena, key, first, count, blocks, p)
}

/// The number of slots of the range from `first` on, `count` long, that a
/// region of `pages` pages has.
pub open spec fn slots_in_range(first: u32, count: u32, pages: nat) -> nat {
    if first >= pages {
        0
    } else if count < pages - first {
        count as nat
    } else {
        (pages - first) as nat
    }
}

/// Where no slot is granted, the list of granted slots does not grow.
pub proof fn lemma_none_granted(
    flash: Flash,
    arena: Seq<SlotUse>,
    key: BasisKey,
    first: u32,
    count: u32,
    blocks: Seq<[u8; 64]>,
    lo: int,
    hi: int,
)
    requires
        0 <= lo <= hi,
        forall|p: int| lo <= p < hi ==> !is_granted(flash, arena, key, first, count, blocks, p),
    ensures
        granted_upto(flash, arena, key, first, count, blocks, hi) == granted_upto(
            flash,
            arena,
            key,
            first,
            count,
            blocks,
            lo,
        ),
    decreases hi - lo,
{
    if lo < hi {
        lemma_none_granted(flash, arena, key, first, count, blocks, lo, hi - 1);
    }
}

/// A slot that is granted is among the slots listed.
pub proof fn lemma_granted_listed(
    flash: Flash,
    arena: Seq<SlotUse>,
    key: BasisKey,
    first: u32,
    count: u32,
    blocks: Seq<[u8; 64]>,
    limit: int,
    p: int,
)
    requires
        p < limit,
        is_granted(flash, arena, key, first, count, blocks, p),
    ensures
        granted_upto(flash, arena, key, first, count, blocks, limit).len() > 0,
    decreases limit,
{
    if p < limit - 1 {
        lemma_granted_listed(flash, arena, key, first, count, blocks, limit - 1, p);
    }
}

/// A list of granted slots that is not empty lists a slot that is granted.
pub proof fn lemma_granted_exists(
    flash: Flash,
    arena: Seq<SlotUse>,
    key: BasisKey,
    first: u32,
    count: u32,
    blocks: Seq<[u8; 64]>,
    limit: int,
)
    requires
        granted_upto(flash, arena, key, first, count, blocks, limit).len() > 0,
    ensures
        exists|p: int| #[trigger] is_granted(flash, arena, key, first, count, blocks, p),
    decreases limit,
{
    if limit > 0 && !is_granted(flash, arena, key, first, count, blocks, limit - 1) {
        lemma_granted_exists(flash, arena, key, first, count, blocks, limit - 1);
    }
}

/// True when `key` is the key that `name` and `password` give.
pub open spec fn is_derived_key(key: BasisKey, name: Seq<u8>, password: Seq<u8>) -> bool {
    (key.table@, key.data@) == spec_derive_key(name, password)
}

/// True when `key` opens nothing that a mount could take: no slot that is
/// nobody's holds a page for it, and none is a free page of it.
pub open spec fn opens_nothing(flash: Flash, arena: Seq<SlotUse>, key: BasisKey) -> bool {
    &&& forall|p: int|
        0 <= p < arena.len() ==> #[trigger] claimable_entry(flash, arena, key, p) is None
    &&& free_candidates(flash, arena, key, arena.len() as int).len() == 0
}

/// Two keys with the same bytes are the same key.
pub proof fn lemma_key_by_bytes(a: BasisKey, b: BasisKey)
    requires
        a.table@ == b.table@,
        a.data@ == b.data@,
    ensures
        a == b,
{
    assert(a.table =~= b.table);
    assert(a.data =~= b.data);
}

impl Pddb {
    /// Opens the basis called `name` with `password`: derives its keys and
    /// mounts it. `WrongPassword` when the keys open nothing on this flash;
    /// whether the password is wrong or no such basis exists cannot be told.
    pub fn unlock(&mut self, name: &[u8], password: &[u8]) -> (handle: Result<BasisHandle, PddbError>)
        requires
            old(self).wf(),
        ensures
            final(self).wf(),
            final(self).bases@.len() == old(self).bases@.len() + (if handle is Ok {
                1int
            } else {
                0int
            }),
            forall|k: int|
                0 <= k < old(self).bases@.len() ==> #[trigger] final(self).bases@[k] == old(self).bases@[k],
            forall|k: int, a: u64|
                0 <= k < old(self).bases@.len() ==> #[trigger] final(self).spec_content(k, a)
                    == old(self).spec_content(k, a),
            final(self).arena@.len() == old(self).arena@.len(),
            forall|p: int|
                0 <= p < old(self).arena@.len() && old(self).arena@[p] != SlotUse::Opaque
                    ==> #[trigger] final(self).arena@[p] == old(self).arena@[p],
            match handle {
                Ok(h) => {
                    &&& h == old(self).bases@.len()
                    &&& final(self).is_open(h as int)
                    &&& (final(self).bases@[h as int].key.table@, final(self).bases@[h as int].key.data@)
                        == spec_derive_key(name@, password@)
                    &&& is_recovered(
                        old(self).flash,
                        final(self).flash,
                        old(self).arena@,
                        final(self).bases@[h as int].key,
                    )
                    &&& is_table_upto(
                        final(self).bases@[h as int].map@,
                        final(self).flash,
                        old(self).arena@,
                        final(self).bases@[h as int].key,
                        old(self).arena@.len() as int,
                    )
                    &&& final(self).bases@[h as int].free@ == free_candidates(
                        final(self).flash,
                        old(self).arena@,
                        final(self).bases@[h as int].key,
                        old(self).arena@.len() as int,
                    )
                    &&& (final(self).bases@[h as int].free@.len() > 0 || exists|v: u64|
                        final(self).bases@[h as int].map@.contains_key(v))
                    &&& spec_adoptable(
                        final(self).flash,
                        old(self).arena@,
                        final(self).bases@[h as int].key,
                    ) is None
                    &&& forall|p: int|
                        0 <= p < old(self).arena@.len() && old(self).arena@[p] == SlotUse::Opaque
                            ==> if grantable(
                            final(self).flash,
                            old(self).arena@,
                            final(self).bases@[h as int].key,
                            p,
                        ) {
                            #[trigger] final(self).arena@[p] == SlotUse::Opaque
                        } else {
                            owner_of(final(self).arena@[p]) == Some(h)
                        }
                },
                Err(e) => {
                    &&& e == PddbError::WrongPassword
                    &&& final(self).bases@ == old(self).bases@
                    &&& final(self).flash == old(self).flash
                    &&& final(self).arena@ == old(self).arena@
                    &&& forall|key: BasisKey|
                        #![trigger is_derived_key(key, name@, password@)]
                        is_derived_key(key, name@, password@) ==> opens_nothing(
                            old(self).flash,
                            old(self).arena@,
                            key,
                        ) && spec_adoptable(old(self).flash, old(self).arena@, key) is None
                },
            },
    {
        let key: BasisKey = derive_key(name, password);
        let handle = self.mount(key);
        proof {
            if handle is Err {
                assert forall|other: BasisKey|
                    #![trigger is_derived_key(other, name@, password@)]
                    is_derived_key(other, name@, password@) implies opens_nothing(
                    old(self).flash,
                    old(self).arena@,
                    other,
                ) && spec_adoptable(old(self).flash, old(self).arena@, other) is None by {
                    lemma_key_by_bytes(other, key);
                }
            }
        }
        handle
    }

    /// Gives a slot that is nobody's to the basis as a free page: the table
    /// entry of the slot is overwritten with `noise`, a free record sealed
    /// under `nonce` goes to the log, and the slot joins the free queue. The
    /// result says whether the slot is now free. It is not when the handle
    /// is not open, the slot does not exist or has an owner, in which cases
    /// nothing changes; and not when `noise` decodes under the key of the
    /// basis, in which case the slot is the basis's own but orphaned.
    pub fn grant_with(&mut self, handle: BasisHandle, slot: u32, noise: [u8; 16], nonce: &[u8; 12]) -> (granted:
        bool)
        requires
            old(self).wf(),
        ensures
            final(self).wf(),
            final(self).same_bases_except(*old(self), handle as int),
            final(self).same_identity(*old(self), handle as int),
            final(self).flash.pages == old(self).flash.pages,
            final(self).flash.staging == old(self).flash.staging,
            final(self).arena@.len() == old(self).arena@.len(),
            forall|q: int|
                0 <= q < old(self).arena@.len() && q != slot ==> #[trigger] final(self).arena@[q]
                    == old(self).arena@[q],
            if old(self).is_open(handle as int) && slot < old(self).flash.page_count() && old(self).arena@[slot as int] == SlotUse::Opaque {
                &&& granted == !decodes(noise@, old(self).bases@[handle as int].key, slot)
                &&& final(self).bases@[handle as int].map == old(self).bases@[handle as int].map
                &&& final(self).arena@[slot as int] == (if granted {
                    SlotUse::Free(handle)
                } else {
                    SlotUse::Orphaned(handle)
                })
                &&& final(self).bases@[handle as int].free@ == (if granted {
                    old(self).bases@[handle as int].free@.push(slot)
                } else {
                    old(self).bases@[handle as int].free@
                })
                &&& granted ==> {
                    &&& final(self).flash.ptes@ == old(self).flash.ptes@.update(slot as int, noise)
                    &&& final(self).flash.fscb@.len() == old(self).flash.fscb@.len()
                    &&& final(self).flash.fscb@[slot as int]@ == spec_sealed_free_record(
                        old(self).bases@[handle as int].key,
                        slot,
                        nonce@,
                    )
                    &&& forall|q: int|
                        0 <= q < old(self).flash.fscb@.len() && q != slot ==> #[trigger] final(self).flash.fscb@[q] == old(self).flash.fscb@[q]
                }
                &&& !granted ==> final(self).flash == old(self).flash
            } else {
                !granted && *final(self) == *old(self)
            },
    {
        if !self.is_mounted(handle) || slot as usize >= self.arena.len() {
            return false;
        }
        let at: SlotUse = self.arena[slot as usize];
        if at != SlotUse::Opaque {
            return false;
        }
        self.claim(handle, slot);
        self.reclaim(handle, slot, noise, nonce)
    }

    /// True when `after` and `handle` are what creating a basis under `key`
    /// makes of `self`, with `mid` the flash as the mount leaves it, before
    /// any slot is granted.
    ///
    /// The basis is open exactly when it has a page at the end: the mount
    /// found one, mapped or free, or a slot was granted. Its map is then the
    /// table of `mid`, and its free queue holds the free pages that the
    /// mount found followed by the slots granted, each in rising order. A
    /// slot that is granted has its table entry overwritten with the first
    /// sixteen bytes of its block and its free record sealed under bytes 16
    /// to 27; no other table entry or record differs from `mid`, and no
    /// page. A slot that was nobody's and is not granted stays nobody's when
    /// the mount left it for the asking and no block was spent on it, and is
    /// the basis's own otherwise. When the basis has no page, the error is
    /// `OutOfSpace` and the store is as it was.
    pub open spec fn is_created(
        self,
        after: Pddb,
        mid: Flash,
        key: BasisKey,
        first: u32,
        count: u32,
        blocks: Seq<[u8; 64]>,
        handle: Result<BasisHandle, PddbError>,
    ) -> bool {
        let n = self.arena@.len() as int;
        let h = self.bases@.len() as int;
        &&& is_recovered(self.flash, mid, self.arena@, key)
        &&& handle is Ok <==> finds_a_page(mid, self.arena@, key, first, count, blocks)
        &&& match handle {
            Ok(x) => {
                &&& x == h
                &&& after.bases@.len() == h + 1
                &&& after.is_open(h)
                &&& after.bases@[h].key == key
                &&& is_table_upto(after.bases@[h].map@, mid, self.arena@, key, n)
                &&& after.bases@[h].free@ == free_candidates(mid, self.arena@, key, n)
                    + granted_upto(mid, self.arena@, key, first, count, blocks, n)
                &&& after.flash.pages == mid.pages
                &&& after.flash.staging == mid.staging
                &&& after.flash.ptes@.len() == mid.ptes@.len()
                &&& after.flash.fscb@.len() == mid.fscb@.len()
                &&& after.arena@.len() == n
                &&& forall|p: int|
                    0 <= p < n ==> if #[trigger] is_granted(
                        mid,
                        self.arena@,
                        key,
                        first,
                        count,
                        blocks,
                        p,
                    ) {
                        &&& after.arena@[p] == SlotUse::Free(x)
                        &&& after.flash.ptes@[p]@ == blocks[p - first]@.subrange(0, 16)
                        &&& after.flash.fscb@[p]@ == spec_sealed_free_record(
                            key,
                            p as u32,
                            blocks[p - first]@.subrange(16, 28),
                        )
                    } else {
                        &&& after.flash.ptes@[p] == mid.ptes@[p]
                        &&& after.flash.fscb@[p] == mid.fscb@[p]
                        &&& self.arena@[p] == SlotUse::Opaque ==> if grantable(
                            mid,
                            self.arena@,
                            key,
                            p,
                        ) && !(first <= p < first + count && p - first < blocks.len()) {
                            after.arena@[p] == SlotUse::Opaque
                        } else {
                            owner_of(after.arena@[p]) == Some(x)
                        }
                    }
            },
            Err(e) => {
                &&& e == PddbError::OutOfSpace
                &&& after.bases@ == self.bases@
                &&& after.flash == self.flash
                &&& after.arena@ == self.arena@
            },
        }
    }

    /// Creates a basis under `key`, with the random bytes that the caller
    /// has drawn: mounts the key, and gives the basis the slots from `first`
    /// on, `count` of them at most, that exist and are left for the asking
    /// after the mount. The slot `first + i` spends block `i`; a slot with
    /// no block, and a slot whose noise decodes under the key, is not
    /// granted.
    pub fn create_under(
        &mut self,
        key: BasisKey,
        first: u32,
        count: u32,
        blocks: &[[u8; 64]],
    ) -> (handle: Result<BasisHandle, PddbError>)
        requires
            old(self).wf(),
        ensures
            final(self).wf(),
            final(self).bases@.len() == old(self).bases@.len() + (if handle is Ok {
                1int
            } else {
                0int
            }),
            forall|k: int|
                0 <= k < old(self).bases@.len() ==> #[trigger] final(self).bases@[k] == old(self).bases@[k],
            forall|k: int, a: u64|
                0 <= k < old(self).bases@.len() ==> #[trigger] final(self).spec_content(k, a)
                    == old(self).spec_content(k, a),
            final(self).arena@.len() == old(self).arena@.len(),
            forall|p: int|
                0 <= p < old(self).arena@.len() && old(self).arena@[p] != SlotUse::Opaque
                    ==> #[trigger] final(self).arena@[p] == old(self).arena@[p],
            exists|mid: Flash| #[trigger]
                old(self).is_created(*final(self), mid, key, first, count, blocks@, handle),
    {
        broadcast use vstd::std_specs::hash::group_hash_axioms;

        let h: usize = self.mount_overlay(key);
        let ghost mid = *self;
        let ghost a0 = old(self).arena@;
        let n: u32 = self.flash.pages();
        let start: u32 = if first < n {
            first
        } else {
            n
        };
        let end: u32 = if count < n - start {
            start + count
        } else {
            n
        };
        proof {
            assert(self.bases@.len() == self.bases.len());
            lemma_none_granted(mid.flash, a0, key, first, count, blocks@, 0, start as int);
            assert(self.bases@[h as int].free@ + Seq::<u32>::empty() =~= self.bases@[h as int].free@);
        }
        let mut p: u32 = start;
        while p < end
            invariant
                start <= p <= end <= n,
                start == (if first < n {
                    first
                } else {
                    n
                }),
                end == (if count < n - start {
                    start + count
                } else {
                    n as int
                }),
                n == old(self).arena@.len(),
                n == self.arena@.len(),
                a0 == old(self).arena@,
                h == old(self).bases@.len(),
                old(self).wf(),
                self.wf(),
                self.is_open(h as int),
                self.bases@.len() == h + 1,
                self.bases@[h as int].key == key,
                forall|k: int|
                    0 <= k < h ==> #[trigger] self.bases@[k] == old(self).bases@[k],
                forall|k: int, a: u64|
                    0 <= k < h ==> #[trigger] self.spec_content(k, a) == old(self).spec_content(
                        k,
                        a,
                    ),
                is_recovered(old(self).flash, mid.flash, a0, key),
                is_table_upto(self.bases@[h as int].map@, mid.flash, a0, key, n as int),
                self.bases@[h as int].free@ == free_candidates(mid.flash, a0, key, n as int)
                    + granted_upto(mid.flash, a0, key, first, count, blocks@, p as int),
                self.flash.pages == mid.flash.pages,
                self.flash.staging == mid.flash.staging,
                self.flash.ptes@.len() == mid.flash.ptes@.len(),
                self.flash.fscb@.len() == mid.flash.fscb@.len(),
                granted_upto(mid.flash, a0, key, first, count, blocks@, p as int).len() == 0
                    ==> self.flash == mid.flash,
                forall|q: int|
                    0 <= q < n ==> (#[trigger] a0[q] != SlotUse::Opaque ==> self.arena@[q]
                        == a0[q]),
                forall|q: int|
                    0 <= q < n && a0[q] == SlotUse::Opaque ==> #[trigger] self.arena@[q]
                        == SlotUse::Opaque || owner_of(self.arena@[q]) == Some(h),
                forall|q: int|
                    p <= q < n ==> (#[trigger] self.arena@[q] == SlotUse::Opaque <==> grantable(
                        mid.flash,
                        a0,
                        key,
                        q,
                    )),
                forall|q: int|
                    0 <= q < n && a0[q] == SlotUse::Opaque && !is_granted(
                        mid.flash,
                        a0,
                        key,
                        first,
                        count,
                        blocks@,
                        q,
                    ) ==> if grantable(mid.flash, a0, key, q) && !(start <= q < p && q - first
                        < blocks@.len()) {
                        #[trigger] self.arena@[q] == SlotUse::Opaque
                    } else {
                        owner_of(self.arena@[q]) == Some(h)
                    },
                forall|q: int|
                    0 <= q < n && !(start <= q < p) ==> #[trigger] self.flash.ptes@[q]
                        == mid.flash.ptes@[q] && self.flash.fscb@[q] == mid.flash.fscb@[q],
                forall|q: int|
                    start <= q < p ==> if #[trigger] is_granted(
                        mid.flash,
                        a0,
                        key,
                        first,
                        count,
                        blocks@,
                        q,
                    ) {
                        &&& self.arena@[q] == SlotUse::Free(h)
                        &&& self.flash.ptes@[q]@ == blocks@[q - first]@.subrange(0, 16)
                        &&& self.flash.fscb@[q]@ == spec_sealed_free_record(
                            key,
                            q as u32,
                            blocks@[q - first]@.subrange(16, 28),
                        )
                    } else {
                        &&& self.flash.ptes@[q] == mid.flash.ptes@[q]
                        &&& self.flash.fscb@[q] == mid.flash.fscb@[q]
                    },
            decreases end - p,
        {
            let ghost before = *self;
            let ghost queue = granted_upto(mid.flash, a0, key, first, count, blocks@, p as int);
            let i: usize = (p - first) as usize;
            if i < blocks.len() {
                let noise: [u8; 16] = take_array(blocks[i].as_slice(), 0);
                let nonce: [u8; 12] = take_array(blocks[i].as_slice(), 16);
                let granted: bool = self.grant_with(h, p, noise, &nonce);
                proof {
                    assert(granted == is_granted(mid.flash, a0, key, first, count, blocks@, p as int));
                    if granted {
                        assert(before.bases@[h as int].free@.push(p) =~= free_candidates(
                            mid.flash,
                            a0,
                            key,
                            n as int,
                        ) + queue.push(p));
                    }
                    before.lemma_same_maps_same_pages(*self, h as int);
                }
            }
            proof {
                assert forall|q: int| start <= q < p + 1 implies if #[trigger] is_granted(
                    mid.flash,
                    a0,
                    key,
                    first,
                    count,
                    blocks@,
                    q,
                ) {
                    &&& self.arena@[q] == SlotUse::Free(h)
                    &&& self.flash.ptes@[q]@ == blocks@[q - first]@.subrange(0, 16)
                    &&& self.flash.fscb@[q]@ == spec_sealed_free_record(
                        key,
                        q as u32,
                        blocks@[q - first]@.subrange(16, 28),
                    )
                } else {
                    &&& self.flash.ptes@[q] == mid.flash.ptes@[q]
                    &&& self.flash.fscb@[q] == mid.flash.fscb@[q]
                } by {
                    if q < p {
                        assert(self.arena@[q] == before.arena@[q]);
                        assert(self.flash.ptes@[q] == before.flash.ptes@[q]);
                        assert(self.flash.fscb@[q] == before.flash.fscb@[q]);
                    } else {
                        assert(q - first == i as int);
                        assert(before.flash.ptes@[q] == mid.flash.ptes@[q]);
                        assert(before.flash.fscb@[q] == mid.flash.fscb@[q]);
                        assert(before.arena@[q] == SlotUse::Opaque <==> grantable(
                            mid.flash,
                            a0,
                            key,
                            q,
                        ));
                        if i >= blocks@.len() {
                            assert(self.flash.ptes@[q] == before.flash.ptes@[q]);
                            assert(self.flash.fscb@[q] == before.flash.fscb@[q]);
                        }
                    }
                }
                assert forall|q: int| 0 <= q < n && !(start <= q < p + 1) implies #[trigger] self.flash.ptes@[q]
                    == mid.flash.ptes@[q] && self.flash.fscb@[q] == mid.flash.fscb@[q] by {
                    assert(self.flash.ptes@[q] == before.flash.ptes@[q]);
                    assert(self.flash.fscb@[q] == before.flash.fscb@[q]);
                }
                assert forall|q: int| p + 1 <= q < n implies (#[trigger] self.arena@[q]
                    == SlotUse::Opaque <==> grantable(mid.flash, a0, key, q)) by {
                    assert(self.arena@[q] == before.arena@[q]);
                }
                assert forall|q: int|
                    0 <= q < n && a0[q] == SlotUse::Opaque && !is_granted(
                        mid.flash,
                        a0,
                        key,
                        first,
                        count,
                        blocks@,
                        q,
                    ) implies if grantable(mid.flash, a0, key, q) && !(start <= q < p + 1 && q
                        - first < blocks@.len()) {
                        #[trigger] self.arena@[q] == SlotUse::Opaque
                    } else {
                        owner_of(self.arena@[q]) == Some(h)
                    } by {
                    if q != p {
                        assert(self.arena@[q] == before.arena@[q]);
                    } else {
                        assert(before.arena@[q] == SlotUse::Opaque <==> grantable(
                            mid.flash,
                            a0,
                            key,
                            q,
                        ));
                    }
                }
            }
            p += 1;
        }
        proof {
            lemma_none_granted(mid.flash, a0, key, first, count, blocks@, end as int, n as int);
        }
        if self.bases[h].map.is_empty() && self.bases[h].free.len() == 0 {
            proof {
                let map = self.bases@[h as int].map@;
                assert(map.len() == 0);
                assert forall|v: u64| !map.contains_key(v) by {
                    if map.contains_key(v) {
                        assert(map.dom().contains(v));
                        assert(map.dom() =~= Set::<u64>::empty());
                    }
                }
                assert forall|q: int| 0 <= q < n implies #[trigger] claimable_entry(
                    mid.flash,
                    a0,
                    key,
                    q,
                ) is None by {}
                if spec_adoptable(old(self).flash, a0, key) is Some {
                    let commit = spec_adoptable(old(self).flash, a0, key)->0;
                    assert(claimable_entry(mid.flash, a0, key, commit.0 as int) is Some);
                    assert(false);
                }
                assert(mid.flash == old(self).flash);
                assert forall|q: int| !is_granted(mid.flash, a0, key, first, count, blocks@, q) by {
                    if is_granted(mid.flash, a0, key, first, count, blocks@, q) {
                        lemma_granted_listed(mid.flash, a0, key, first, count, blocks@, n as int, q);
                    }
                }
                assert(!finds_a_page(mid.flash, a0, key, first, count, blocks@));
            }
            let ghost filled = *self;
            self.abandon(h);
            proof {
                assert forall|q: int| 0 <= q < n implies self.arena@[q] == old(self).arena@[q] by {
                    assert(old(self).slot_wf(q));
                    if a0[q] == SlotUse::Opaque {
                        assert(filled.arena@[q] == SlotUse::Opaque || owner_of(filled.arena@[q])
                            == Some(h));
                    } else {
                        assert(filled.arena@[q] == a0[q]);
                    }
                }
                assert(self.arena@ =~= old(self).arena@);
                assert(self.bases@ =~= old(self).bases@);
                assert forall|k: int, a: u64| 0 <= k < h implies #[trigger] self.spec_content(k, a)
                    == old(self).spec_content(k, a) by {
                    assert(self.bases@[k] == old(self).bases@[k]);
                }
                assert(old(self).is_created(
                    *self,
                    mid.flash,
                    key,
                    first,
                    count,
                    blocks@,
                    Err(PddbError::OutOfSpace),
                ));
            }
            return Err(PddbError::OutOfSpace);
        }
        proof {
            let map = self.bases@[h as int].map@;
            let freed = granted_upto(mid.flash, a0, key, first, count, blocks@, n as int);
            if free_candidates(mid.flash, a0, key, n as int).len() == 0 {
                if freed.len() == 0 {
                    assert(map.len() != 0);
                    if forall|v: u64| !map.contains_key(v) {
                        assert(map.dom() =~= Set::<u64>::empty());
                    }
                    let v = choose|v: u64| map.contains_key(v);
                    assert(claimable_entry(mid.flash, a0, key, map[v].phys as int) is Some);
                } else {
                    lemma_granted_exists(mid.flash, a0, key, first, count, blocks@, n as int);
                }
            }
            assert(finds_a_page(mid.flash, a0, key, first, count, blocks@));
            assert(old(self).is_created(*self, mid.flash, key, first, count, blocks@, Ok(h)));
        }
        Ok(h)
    }

    /// Creates the basis called `name` with `password`, with the random
    /// bytes that the caller has drawn: derives the keys and does what
    /// `create_under` does with them.
    pub fn create_with(
        &mut self,
        name: &[u8],
        password: &[u8],
        first: u32,
        count: u32,
        blocks: &[[u8; 64]],
    ) -> (handle: Result<BasisHandle, PddbError>)
        requires
            old(self).wf(),
        ensures
            final(self).wf(),
            final(self).bases@.len() == old(self).bases@.len() + (if handle is Ok {
                1int
            } else {
                0int
            }),
            forall|k: int|
                0 <= k < old(self).bases@.len() ==> #[trigger] final(self).bases@[k] == old(self).bases@[k],
            forall|k: int, a: u64|
                0 <= k < old(self).bases@.len() ==> #[trigger] final(self).spec_content(k, a)
                    == old(self).spec_content(k, a),
            final(self).arena@.len() == old(self).arena@.len(),
            forall|p: int|
                0 <= p < old(self).arena@.len() && old(self).arena@[p] != SlotUse::Opaque
                    ==> #[trigger] final(self).arena@[p] == old(self).arena@[p],
            exists|key: BasisKey, mid: Flash|
                is_derived_key(key, name@, password@) && #[trigger] old(self).is_created(
                    *final(self),
                    mid,
                    key,
                    first,
                    count,
                    blocks@,
                    handle,
                ),
    {
        let key: BasisKey = derive_key(name, password);
        self.create_under(key, first, count, blocks)
    }

    /// Opens the basis called `name` with `password` and gives it the slots
    /// from `first` on, `count` of them at most, that exist and are nobody's,
    /// under fresh random bytes. This is how a basis comes to be: a basis
    /// that has been given pages can be unlocked from then on. Slots that
    /// hold pages of a basis that is not open look like free ones, and
    /// handing them out overwrites them: which slots to give is for the
    /// caller to know.
    ///
    /// One block of random bytes is drawn for each slot of the range that
    /// exists; with them the function does what `create_with` does. When
    /// the random source gives nothing, it fails with `EntropyUnavailable`
    /// and nothing has changed; that cannot happen when the range holds no
    /// slot. It fails with `OutOfSpace`, nothing changed, when the basis has
    /// no page at the end.
    pub fn create(&mut self, name: &[u8], password: &[u8], first: u32, count: u32) -> (handle: Result<
        BasisHandle,
        PddbError,
    >)
        requires
            old(self).wf(),
        ensures
            final(self).wf(),
            final(self).bases@.len() == old(self).bases@.len() + (if handle is Ok {
                1int
            } else {
                0int
            }),
            forall|k: int|
                0 <= k < old(self).bases@.len() ==> #[trigger] final(self).bases@[k] == old(self).bases@[k],
            forall|k: int, a: u64|
                0 <= k < old(self).bases@.len() ==> #[trigger] final(self).spec_content(k, a)
                    == old(self).spec_content(k, a),
            final(self).arena@.len() == old(self).arena@.len(),
            forall|p: int|
                0 <= p < old(self).arena@.len() && old(self).arena@[p] != SlotUse::Opaque
                    ==> #[trigger] final(self).arena@[p] == old(self).arena@[p],
            if handle == Err::<BasisHandle, PddbError>(PddbError::EntropyUnavailable) {
                &&& *final(self) == *old(self)
                &&& slots_in_range(first, count, old(self).arena@.len()) > 0
            } else {
                exists|key: BasisKey, mid: Flash, blocks: Seq<[u8; 64]>|
                    {
                        &&& is_derived_key(key, name@, password@)
                        &&& blocks.len() == slots_in_range(first, count, old(self).arena@.len())
                        &&& #[trigger] old(self).is_created(
                            *final(self),
                            mid,
                            key,
                            first,
                            count,
                            blocks,
                            handle,
                        )
                    }
            },
    {
        let n: u32 = self.flash.pages();
        let wanted: u32 = if first >= n {
            0
        } else if count < n - first {
            count
        } else {
            n - first
        };
        let mut blocks: Vec<[u8; 64]> = Vec::new();
        while blocks.len() < wanted as usize
            invariant
                blocks@.len() <= wanted,
                *self == *old(self),
                old(self).wf(),
                wanted == slots_in_range(first, count, old(self).arena@.len()),
            decreases wanted - blocks@.len(),
        {
            match os_entropy() {
                None => {
                    return Err(PddbError::EntropyUnavailable);
                },
                Some(entropy) => {
                    blocks.push(entropy);
                },
            }
        }
        self.create_with(name, password, first, count, blocks.as_slice())
    }

    /// The pages of the bases that were open before an overlay was added
    /// hold what they held, as long as their overlays and the pages of the
    /// slots they own are untouched.
    pub proof fn lemma_open_overlay_frame(self, before: Pddb, recovered: Pddb, h: int)
        requires
            before.wf(),
            h == before.bases@.len(),
            self.bases@.len() >= h,
            forall|k: int| 0 <= k < h ==> #[trigger] self.bases@[k] == before.bases@[k],
            self.flash.pages == recovered.flash.pages,
            recovered.flash.pages@.len() == before.flash.pages@.len(),
            forall|q: int|
                0 <= q < before.arena@.len() && before.arena@[q] != SlotUse::Opaque
                    ==> #[trigger] recovered.flash.pages@[q] == before.flash.pages@[q],
        ensures
            forall|k: int, a: u64|
                0 <= k < h ==> #[trigger] self.spec_content(k, a) == before.spec_content(k, a),
    {
        assert forall|k: int, a: u64| 0 <= k < h implies #[trigger] self.spec_content(k, a)
            == before.spec_content(k, a) by {
            assert(self.bases@[k] == before.bases@[k]);
            if before.spec_resolve(k, a) is Some {
                assert(before.basis_wf(k));
                assert(before.mapping_wf(k, a));
                let q = before.bases@[k].map@[a].phys as int;
                assert(before.arena@[q] != SlotUse::Opaque);
                assert(recovered.flash.pages@[q] == before.flash.pages@[q]);
            }
        }
    }
}

} // verus!
