//! What a mount finds after a write was cut off.
//!
//! A write changes flash in a fixed order: the staging area, the page of the
//! new slot, the table entry of the new slot, and last the table entry and
//! the free record of the slot it replaces. Power may fail before, between
//! or in the middle of any of these. This module states which images of
//! flash that leaves, and proves that a mount of any of them finds, at the
//! address written, the page as it was before the write or the page as
//! written: the old one until the staging area is durable, the new one from
//! then on.

use vstd::prelude::*;
use crate::basis::claimable_entry;
use crate::basis::free_candidates;
use crate::basis::is_free_candidate;
use crate::basis::lemma_free_candidate_listed;
use crate::basis::is_recovered;
use crate::basis::is_table_upto;
use crate::basis::spec_adoptable;
use crate::engine::Pddb;
use crate::engine::ReversePte;
use crate::engine::SlotUse;
use crate::flash::decodes;
use crate::flash::entry_of;
use crate::flash::lemma_entry_parts;
use crate::flash::payload_of;
use crate::flash::Flash;
use crate::key::BasisKey;
use crate::mbbb::spec_open_staging;
use crate::mbbb::CommitState;

verus! {

/// The revision in a slot's mapping comes from its page alone: two table
/// entries before the same page give the same revision.
pub proof fn lemma_entry_rev(pte1: Seq<u8>, pte2: Seq<u8>, page: Seq<u8>, key: BasisKey, slot: u32)
    requires
        entry_of(pte1, page, key, slot) is Some,
        entry_of(pte2, page, key, slot) is Some,
    ensures
        match (entry_of(pte1, page, key, slot), entry_of(pte2, page, key, slot)) {
            (Some(a), Some(b)) => a.1 == b.1,
            _ => false,
        },
{
    reveal(entry_of);
}

/// A slot whose table entry does not decode holds no mapping, whatever its
/// page.
pub proof fn lemma_no_entry(pte: Seq<u8>, page: Seq<u8>, key: BasisKey, slot: u32)
    requires
        !decodes(pte, key, slot),
    ensures
        entry_of(pte, page, key, slot) is None,
{
    if entry_of(pte, page, key, slot) is Some {
        lemma_entry_parts(pte, page, key, slot);
    }
}

/// The table of a flash image is unique: two maps that are both its table
/// map the same addresses to the same slots at the same revisions.
pub proof fn lemma_table_unique(
    m1: Map<u64, ReversePte>,
    m2: Map<u64, ReversePte>,
    flash: Flash,
    arena: Seq<SlotUse>,
    key: BasisKey,
    limit: int,
    v: u64,
)
    requires
        is_table_upto(m1, flash, arena, key, limit),
        is_table_upto(m2, flash, arena, key, limit),
    ensures
        m1.contains_key(v) == m2.contains_key(v),
        m1.contains_key(v) ==> m1[v].phys == m2[v].phys && m1[v].rev == m2[v].rev,
{
    if m1.contains_key(v) {
        let slot1 = m1[v].phys as int;
        assert(claimable_entry(flash, arena, key, slot1) == Some((v, m1[v].rev)));
        assert(m2.contains_key(v));
        let slot2 = m2[v].phys as int;
        assert(claimable_entry(flash, arena, key, slot2) == Some((v, m2[v].rev)));
    }
    if m2.contains_key(v) {
        let slot2 = m2[v].phys as int;
        assert(claimable_entry(flash, arena, key, slot2) == Some((v, m2[v].rev)));
        assert(m1.contains_key(v));
    }
}

/// Recovery settles: once the staged copy has been adopted, a flash image
/// holds nothing more to adopt, and a second mount finds what the first
/// found.
pub proof fn lemma_recovery_settles(before: Flash, after: Flash, arena: Seq<SlotUse>, key: BasisKey)
    requires
        is_recovered(before, after, arena, key),
    ensures
        spec_adoptable(after, arena, key) is None,
        is_recovered(after, after, arena, key),
{
    if spec_adoptable(before, arena, key) is Some {
        let commit = spec_adoptable(before, arena, key)->0;
        assert(after.spec_slot_entry(key, commit.0 as int) == entry_of(
            commit.1,
            commit.2,
            key,
            commit.0,
        ));
    }
}

/// What address `v` holds under the table `map` of `flash`.
pub open spec fn table_content(map: Map<u64, ReversePte>, flash: Flash, key: BasisKey, v: u64) -> Option<
    Seq<u8>,
> {
    if map.contains_key(v) {
        flash.spec_payload(key, map[v].phys as int)
    } else {
        None
    }
}

/// True when `torn` is what a cut-off write of the commit `(slot, pte,
/// page)` can leave of `base`, the flash before the write, if power fails
/// while the write is in state `state`.
///
/// - `Clean`: the staging area is being written. It holds what it held, or
///   bytes that do not open. Nothing else has changed.
/// - `Staged`: the staging area is durable; the page of the new slot is
///   being written and may hold anything.
/// - `Adopting`: the page is durable; the table entry of the new slot is
///   being written. It holds the new entry, or bytes that do not decode.
/// - `Orphaned`: the new entry is durable; the slot `old_slot` that the
///   write replaces is being given up, and its table entry and free record
///   may hold anything.
pub open spec fn is_crash_image(
    base: Flash,
    torn: Flash,
    key: BasisKey,
    slot: int,
    pte: Seq<u8>,
    page: Seq<u8>,
    old_slot: Option<int>,
    state: CommitState,
) -> bool {
    &&& torn.ptes@.len() == base.ptes@.len()
    &&& torn.pages@.len() == base.pages@.len()
    &&& torn.fscb@.len() == base.fscb@.len()
    &&& forall|q: int|
        0 <= q < base.ptes@.len() && q != slot && Some(q) != old_slot ==> (
        #[trigger] torn.ptes@[q])@ == base.ptes@[q]@
    &&& forall|q: int|
        0 <= q < base.pages@.len() && q != slot ==> (#[trigger] torn.pages@[q])@
            == base.pages@[q]@
    &&& match state {
        CommitState::Clean => {
            &&& torn.staging@ == base.staging@ || spec_open_staging(torn.staging@, key) is None
            &&& torn.ptes@[slot]@ == base.ptes@[slot]@
            &&& torn.pages@[slot]@ == base.pages@[slot]@
            &&& old_slot is Some ==> torn.ptes@[old_slot->0]@ == base.ptes@[old_slot->0]@
        },
        CommitState::Staged => {
            &&& spec_open_staging(torn.staging@, key) == Some((slot as u32, pte, page))
            &&& torn.ptes@[slot]@ == base.ptes@[slot]@
            &&& old_slot is Some ==> torn.ptes@[old_slot->0]@ == base.ptes@[old_slot->0]@
        },
        CommitState::Adopting => {
            &&& spec_open_staging(torn.staging@, key) == Some((slot as u32, pte, page))
            &&& torn.pages@[slot]@ == page
            &&& torn.ptes@[slot]@ == pte || !decodes(torn.ptes@[slot]@, key, slot as u32)
            &&& old_slot is Some ==> torn.ptes@[old_slot->0]@ == base.ptes@[old_slot->0]@
        },
        CommitState::Orphaned => {
            &&& spec_open_staging(torn.staging@, key) == Some((slot as u32, pte, page))
            &&& torn.pages@[slot]@ == page
            &&& torn.ptes@[slot]@ == pte
        },
    }
}

/// Crash safety of a write.
///
/// Let `base` be a flash image whose table under `key` is `map0` and whose
/// staging area holds nothing to adopt, and let a write put `v` at revision
/// `rev`, higher than the one `map0` holds for `v`, into the free slot
/// `slot`. Let `torn` be what the write leaves of `base` when power fails
/// in any state, `recovered` what the mount makes of `torn` by adopting the
/// staged copy, and `map` the table of `recovered`. Then `v` is mapped in
/// `map` if it was in `map0` or the staging area had become durable, and it
/// holds the old content while the write was `Clean` and the new content
/// from `Staged` on. It never holds anything else.
pub proof fn lemma_crash_safe(
    base: Flash,
    torn: Flash,
    recovered: Flash,
    arena: Seq<SlotUse>,
    key: BasisKey,
    map0: Map<u64, ReversePte>,
    map: Map<u64, ReversePte>,
    v: u64,
    rev: u32,
    slot: int,
    pte: Seq<u8>,
    page: Seq<u8>,
    state: CommitState,
)
    requires
        base.wf(),
        arena.len() == base.page_count(),
        is_table_upto(map0, base, arena, key, arena.len() as int),
        spec_adoptable(base, arena, key) is None,
        0 <= slot < arena.len(),
        arena[slot] == SlotUse::Opaque,
        !decodes(base.ptes@[slot]@, key, slot as u32),
        entry_of(pte, page, key, slot as u32) == Some((v, rev)),
        map0.contains_key(v) ==> map0[v].rev < rev,
        is_crash_image(
            base,
            torn,
            key,
            slot,
            pte,
            page,
            if map0.contains_key(v) {
                Some(map0[v].phys as int)
            } else {
                None
            },
            state,
        ),
        is_recovered(torn, recovered, arena, key),
        is_table_upto(map, recovered, arena, key, arena.len() as int),
    ensures
        state == CommitState::Clean ==> table_content(map, recovered, key, v) == table_content(
            map0,
            base,
            key,
            v,
        ),
        state != CommitState::Clean ==> table_content(map, recovered, key, v) == payload_of(
            page,
            key,
            slot as u32,
        ),
        state != CommitState::Clean ==> map.contains_key(v) && map[v].phys == slot && map[v].rev
            == rev,
{
    let n = arena.len() as int;
    lemma_no_entry(base.ptes@[slot]@, base.pages@[slot]@, key, slot as u32);
    if state == CommitState::Clean {
        assert(spec_adoptable(torn, arena, key) is None);
        assert(recovered == torn);
        assert forall|p: int| 0 <= p < n implies #[trigger] claimable_entry(
            recovered,
            arena,
            key,
            p,
        ) == claimable_entry(base, arena, key, p) by {
            assert(torn.ptes@[p]@ == base.ptes@[p]@);
            assert(torn.pages@[p]@ == base.pages@[p]@);
        }
        lemma_tables_of_equal_entries(map0, map, base, recovered, arena, key, n, v);
        if map.contains_key(v) {
            let p = map[v].phys as int;
            assert(recovered.pages@[p]@ == base.pages@[p]@);
        }
    } else {
        // After recovery the new slot holds the staged copy.
        assert(recovered.ptes@[slot]@ == pte && recovered.pages@[slot]@ == page) by {
            if torn.ptes@[slot]@ == pte && torn.pages@[slot]@ == page {
                assert(torn.spec_slot_entry(key, slot) is Some);
                assert(spec_adoptable(torn, arena, key) is None);
            } else {
                lemma_no_entry(torn.ptes@[slot]@, torn.pages@[slot]@, key, slot as u32);
                assert(torn.spec_slot_entry(key, slot) is None);
                assert(spec_adoptable(torn, arena, key) == Some((slot as u32, pte, page)));
            }
        }
        assert(recovered.pages@.len() == base.pages@.len());
        assert(recovered.ptes@.len() == base.ptes@.len());
        assert forall|q: int| 0 <= q < n && q != slot implies (#[trigger] recovered.pages@[q])@
            == base.pages@[q]@ by {
            assert(torn.pages@[q]@ == base.pages@[q]@);
        }
        assert(claimable_entry(recovered, arena, key, slot) == Some((v, rev)));
        assert(map.contains_key(v));
        let p = map[v].phys as int;
        assert(claimable_entry(recovered, arena, key, p) == Some((v, map[v].rev)));
        if p != slot {
            // Any other slot that holds `v` held it before, at a lower revision.
            assert(recovered.pages@[p]@ == base.pages@[p]@);
            if map0.contains_key(v) && p == map0[v].phys {
                assert(claimable_entry(base, arena, key, p) == Some((v, map0[v].rev)));
                lemma_entry_rev(
                    recovered.ptes@[p]@,
                    base.ptes@[p]@,
                    base.pages@[p]@,
                    key,
                    p as u32,
                );
                assert(map[v].rev == map0[v].rev);
                assert(false);
            } else {
                assert(torn.ptes@[p]@ == base.ptes@[p]@);
                assert(recovered.ptes@[p]@ == base.ptes@[p]@);
                assert(claimable_entry(base, arena, key, p) == Some((v, map[v].rev)));
                assert(map0.contains_key(v) && map0[v].rev >= map[v].rev);
                assert(false);
            }
        }
        reveal(payload_of);
    }
}

/// Two flash images that hold the same mappings in every slot have the same
/// table.
pub proof fn lemma_tables_of_equal_entries(
    m1: Map<u64, ReversePte>,
    m2: Map<u64, ReversePte>,
    f1: Flash,
    f2: Flash,
    arena: Seq<SlotUse>,
    key: BasisKey,
    limit: int,
    v: u64,
)
    requires
        is_table_upto(m1, f1, arena, key, limit),
        is_table_upto(m2, f2, arena, key, limit),
        forall|p: int|
            0 <= p < limit ==> #[trigger] claimable_entry(f2, arena, key, p) == claimable_entry(
                f1,
                arena,
                key,
                p,
            ),
    ensures
        m1.contains_key(v) == m2.contains_key(v),
        m1.contains_key(v) ==> m1[v].phys == m2[v].phys && m1[v].rev == m2[v].rev,
{
    if m1.contains_key(v) {
        let slot1 = m1[v].phys as int;
        assert(claimable_entry(f1, arena, key, slot1) == Some((v, m1[v].rev)));
        assert(claimable_entry(f2, arena, key, slot1) == Some((v, m1[v].rev)));
        assert(m2.contains_key(v));
        let slot2 = m2[v].phys as int;
        assert(claimable_entry(f2, arena, key, slot2) == Some((v, m2[v].rev)));
        assert(claimable_entry(f1, arena, key, slot2) == Some((v, m2[v].rev)));
    }
    if m2.contains_key(v) {
        let slot2 = m2[v].phys as int;
        assert(claimable_entry(f2, arena, key, slot2) == Some((v, m2[v].rev)));
        assert(claimable_entry(f1, arena, key, slot2) == Some((v, m2[v].rev)));
        assert(m1.contains_key(v));
    }
}

/// Cross-basis isolation of a mount: an address is mapped in the table of a
/// key only if some slot decodes to that address and authenticates under
/// that key. What another basis wrote, and what does not authenticate under
/// this key, is never mapped, read or listed.
pub proof fn lemma_mapped_only_if_authentic(
    map: Map<u64, ReversePte>,
    flash: Flash,
    arena: Seq<SlotUse>,
    key: BasisKey,
    v: u64,
)
    requires
        is_table_upto(map, flash, arena, key, arena.len() as int),
        forall|p: int|
            0 <= p < arena.len() ==> match #[trigger] claimable_entry(flash, arena, key, p) {
                Some(entry) => entry.0 != v,
                None => true,
            },
    ensures
        !map.contains_key(v),
        table_content(map, flash, key, v) is None,
{
    if map.contains_key(v) {
        let p = map[v].phys as int;
        assert(claimable_entry(flash, arena, key, p) == Some((v, map[v].rev)));
        assert(false);
    }
}

/// The arena of a store that has just been started: every slot is nobody's.
pub open spec fn fresh_arena(pages: nat) -> Seq<SlotUse> {
    Seq::new(pages, |p: int| SlotUse::Opaque)
}

/// What a store holds outlasts the store: a page that is mapped, and a page
/// that is free, is found again by a mount of the same flash in a store that
/// has just been started. The page that is mapped is mapped again, at a
/// revision at least as high; the page that is free is in the free queue
/// again.
pub proof fn lemma_store_outlasts_itself(
    store: Pddb,
    handle: usize,
    map: Map<u64, ReversePte>,
    queue: Seq<u32>,
    v: u64,
    p: int,
)
    requires
        store.wf(),
        store.is_open(handle as int),
        is_table_upto(
            map,
            store.flash,
            fresh_arena(store.flash.page_count()),
            store.bases@[handle as int].key,
            store.flash.page_count() as int,
        ),
        queue == free_candidates(
            store.flash,
            fresh_arena(store.flash.page_count()),
            store.bases@[handle as int].key,
            store.flash.page_count() as int,
        ),
        0 <= p < store.arena@.len(),
    ensures
        store.bases@[handle as int].map@.contains_key(v) ==> map.contains_key(v) && map[v].rev
            >= store.bases@[handle as int].map@[v].rev,
        store.arena@[p] == SlotUse::Free(handle) ==> queue.contains(p as u32),
{
    let key = store.bases@[handle as int].key;
    let n = store.flash.page_count() as int;
    let arena = fresh_arena(store.flash.page_count());
    assert(store.basis_wf(handle as int));
    if store.bases@[handle as int].map@.contains_key(v) {
        assert(store.mapping_wf(handle as int, v));
        let q = store.bases@[handle as int].map@[v].phys as int;
        assert(claimable_entry(store.flash, arena, key, q) == Some(
            (v, store.bases@[handle as int].map@[v].rev),
        ));
    }
    if store.arena@[p] == SlotUse::Free(handle) {
        assert(store.slot_wf(p));
        assert(is_free_candidate(store.flash, arena, key, p));
        lemma_free_candidate_listed(store.flash, arena, key, n, p);
    }
}

/// Cross-basis isolation of a later mount: a mount maps no address to a
/// slot that an open basis owns. What a basis has written while it is open
/// is out of reach of every basis that is opened after it.
pub proof fn lemma_owned_slots_are_not_mapped(
    map: Map<u64, ReversePte>,
    flash: Flash,
    arena: Seq<SlotUse>,
    key: BasisKey,
    v: u64,
)
    requires
        is_table_upto(map, flash, arena, key, arena.len() as int),
        map.contains_key(v),
    ensures
        arena[map[v].phys as int] == SlotUse::Opaque,
{
    assert(claimable_entry(flash, arena, key, map[v].phys as int) is Some);
}

} // verus!
