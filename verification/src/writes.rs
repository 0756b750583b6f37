//! The writes of one page write, in the order in which they must reach
//! flash.
//!
//! The store works on an image of the flash region in memory. Whoever keeps
//! the region itself up to date must write what a page write has changed in
//! one order: the staging area, the page of the new slot, the table entry of
//! the new slot, and then the table entry and the free record of the slot
//! that was replaced. This module gives that list, and proves that after
//! any number of its writes, from none to all, flash holds one of the images
//! from which a mount finds the old page or the new one.

use vstd::prelude::*;
use crate::bytes::append_bytes;
use crate::engine::Pddb;
use crate::engine::SlotUse;
use crate::flash::decodes;
use crate::flash::Flash;
use crate::flash::STAGING_LEN;
use crate::mbbb::spec_open_staging;
use crate::mbbb::CommitState;
use crate::page::PAGE_SIZE;
use crate::recovery::is_crash_image;

verus! {

/// One write to a part of flash.
#[derive(Clone, Debug, PartialEq, Eq)]
pub enum FlashWrite {
    /// The whole staging area.
    Staging(Vec<u8>),
    /// The page of a slot.
    Page(u32, Vec<u8>),
    /// The table entry of a slot.
    Entry(u32, [u8; 16]),
    /// The free record of a slot.
    Record(u32, [u8; 32]),
}

/// The bytes that a flash image holds, part by part.
pub struct FlashView {
    pub ptes: Seq<Seq<u8>>,
    pub pages: Seq<Seq<u8>>,
    pub fscb: Seq<Seq<u8>>,
    pub staging: Seq<u8>,
}

/// The bytes that `flash` holds.
pub open spec fn flash_view(flash: Flash) -> FlashView {
    FlashView {
        ptes: Seq::new(flash.ptes@.len(), |i: int| flash.ptes@[i]@),
        pages: Seq::new(flash.pages@.len(), |i: int| flash.pages@[i]@),
        fscb: Seq::new(flash.fscb@.len(), |i: int| flash.fscb@[i]@),
        staging: flash.staging@,
    }
}

impl FlashWrite {
    /// True when the write fits the image: its slot exists, and a page or a
    /// staging area has the length that the layout fixes.
    pub open spec fn fits(self, image: FlashView) -> bool {
        match self {
            FlashWrite::Staging(bytes) => bytes@.len() == STAGING_LEN,
            FlashWrite::Page(slot, bytes) => slot < image.pages.len() && bytes@.len() == PAGE_SIZE,
            FlashWrite::Entry(slot, _) => slot < image.ptes.len(),
            FlashWrite::Record(slot, _) => slot < image.fscb.len(),
        }
    }

    /// The image after the write. A write that does not fit changes nothing.
    pub open spec fn applied(self, image: FlashView) -> FlashView {
        if !self.fits(image) {
            image
        } else {
            match self {
                FlashWrite::Staging(bytes) => FlashView { staging: bytes@, ..image },
                FlashWrite::Page(slot, bytes) => FlashView {
                    pages: image.pages.update(slot as int, bytes@),
                    ..image
                },
                FlashWrite::Entry(slot, entry) => FlashView {
                    ptes: image.ptes.update(slot as int, entry@),
                    ..image
                },
                FlashWrite::Record(slot, record) => FlashView {
                    fscb: image.fscb.update(slot as int, record@),
                    ..image
                },
            }
        }
    }
}

/// The image after the first `k` writes of `order`.
pub open spec fn applied_prefix(image: FlashView, order: Seq<FlashWrite>, k: int) -> FlashView
    decreases k,
{
    if k <= 0 {
        image
    } else {
        order[k - 1].applied(applied_prefix(image, order, k - 1))
    }
}

/// True when `order` lists the writes that lead to `after` for a page write
/// into `slot` that replaces `old_slot`: the staging area, the page of
/// `slot`, the table entry of `slot`, and, where a slot is replaced, its
/// table entry and its free record, each with the bytes that `after` holds.
pub open spec fn is_write_order(
    order: Seq<FlashWrite>,
    after: Flash,
    slot: u32,
    old_slot: Option<u32>,
) -> bool {
    &&& order.len() == (if old_slot is Some {
        5int
    } else {
        3int
    })
    &&& order[0] matches FlashWrite::Staging(bytes) && bytes@ == after.staging@
    &&& order[1] matches FlashWrite::Page(p, bytes) && p == slot && bytes@ == after.pages@[slot as int]@
    &&& order[2] matches FlashWrite::Entry(p, entry) && p == slot && entry@ == after.ptes@[slot as int]@
    &&& old_slot matches Some(old) ==> {
        &&& order[3] matches FlashWrite::Entry(p, entry) && p == old && entry@
            == after.ptes@[old as int]@
        &&& order[4] matches FlashWrite::Record(p, record) && p == old && record@
            == after.fscb@[old as int]@
    }
}

/// The state in which a page write is cut off after `k` of its writes.
pub open spec fn state_after(k: int) -> CommitState {
    if k <= 0 {
        CommitState::Clean
    } else if k == 1 {
        CommitState::Staged
    } else if k == 2 {
        CommitState::Adopting
    } else {
        CommitState::Orphaned
    }
}

fn copy_of(bytes: &Vec<u8>) -> (out: Vec<u8>)
    ensures
        out@ == bytes@,
{
    let mut out: Vec<u8> = Vec::with_capacity(bytes.len());
    append_bytes(&mut out, bytes.as_slice());
    assert(out@ =~= bytes@);
    out
}

impl Flash {
    /// Applies one write to the image. A write that does not fit changes
    /// nothing, and the result is `false`.
    pub fn apply(&mut self, write: &FlashWrite) -> (done: bool)
        requires
            old(self).wf(),
        ensures
            final(self).wf(),
            done == write.fits(flash_view(*old(self))),
            flash_view(*final(self)) == write.applied(flash_view(*old(self))),
    {
        let n: usize = self.ptes.len();
        let done: bool = match write {
            FlashWrite::Staging(bytes) => {
                if bytes.len() == STAGING_LEN {
                    self.staging = copy_of(bytes);
                    true
                } else {
                    false
                }
            },
            FlashWrite::Page(slot, bytes) => {
                if (*slot as usize) < n && bytes.len() == PAGE_SIZE {
                    self.pages[*slot as usize] = copy_of(bytes);
                    true
                } else {
                    false
                }
            },
            FlashWrite::Entry(slot, entry) => {
                if (*slot as usize) < n {
                    self.ptes[*slot as usize] = *entry;
                    true
                } else {
                    false
                }
            },
            FlashWrite::Record(slot, record) => {
                if (*slot as usize) < n {
                    self.fscb[*slot as usize] = *record;
                    true
                } else {
                    false
                }
            },
        };
        proof {
            let before = flash_view(*old(self));
            let after = flash_view(*self);
            let wanted = write.applied(before);
            assert(after.ptes =~= wanted.ptes);
            assert(after.pages =~= wanted.pages);
            assert(after.fscb =~= wanted.fscb);
        }
        done
    }
}

/// Lists the writes that lead to `after` for a page write into `slot` that
/// replaces `old_slot`, in the order in which they must reach flash. The
/// list is empty when a slot does not exist.
pub fn write_order(after: &Flash, slot: u32, old_slot: Option<u32>) -> (order: Vec<FlashWrite>)
    requires
        after.wf(),
    ensures
        if slot < after.page_count() && (old_slot is Some ==> old_slot->0 < after.page_count()) {
            is_write_order(order@, *after, slot, old_slot)
        } else {
            order@.len() == 0
        },
{
    let n: usize = after.ptes.len();
    let mut order: Vec<FlashWrite> = Vec::new();
    if slot as usize >= n {
        return order;
    }
    match old_slot {
        Some(old) => {
            if old as usize >= n {
                return order;
            }
        },
        None => {},
    }
    order.push(FlashWrite::Staging(copy_of(&after.staging)));
    order.push(FlashWrite::Page(slot, copy_of(&after.pages[slot as usize])));
    order.push(FlashWrite::Entry(slot, after.ptes[slot as usize]));
    match old_slot {
        Some(old) => {
            order.push(FlashWrite::Entry(old, after.ptes[old as usize]));
            order.push(FlashWrite::Record(old, after.fscb[old as usize]));
        },
        None => {},
    }
    order
}

/// Every prefix of the writes of a page write leaves a crash image.
///
/// Let `after` be what a write of `bytes` to `v` makes of the store
/// `before`, and `order` the list of its writes. An image that holds what
/// the flash of `before` holds after the first `k` writes of `order` is an
/// image that a cut-off write can leave in the state that goes with `k`:
/// clean before the first write, staged after it, adopting after the
/// second, orphaned from the third on. After all writes it holds what the
/// flash of `after` holds.
pub proof fn lemma_every_prefix_is_a_crash_image(
    before: Pddb,
    after: Pddb,
    handle: usize,
    v: u64,
    bytes: Seq<u8>,
    order: Seq<FlashWrite>,
    k: int,
    image: Flash,
)
    requires
        before.wf(),
        before.can_write(handle as int, v),
        after.flash.wf(),
        after.is_written_image(before, handle as int, v, bytes),
        is_write_order(
            order,
            after.flash,
            before.bases@[handle as int].free@[0],
            before.spec_resolve(handle as int, v),
        ),
        0 <= k <= order.len(),
        flash_view(image) == applied_prefix(flash_view(before.flash), order, k),
    ensures
        match spec_open_staging(after.flash.staging@, before.bases@[handle as int].key) {
            Some(commit) => is_crash_image(
                before.flash,
                image,
                before.bases@[handle as int].key,
                before.bases@[handle as int].free@[0] as int,
                commit.1,
                commit.2,
                match before.spec_resolve(handle as int, v) {
                    Some(p) => Some(p as int),
                    None => None,
                },
                state_after(k),
            ),
            None => false,
        },
        k == order.len() ==> flash_view(image) == flash_view(after.flash),
{
    let h = handle as int;
    let key = before.bases@[h].key;
    let slot = before.bases@[h].free@[0];
    let old_slot = before.spec_resolve(h, v);
    let v0 = flash_view(before.flash);
    let va = flash_view(after.flash);
    let vi = flash_view(image);
    assert(before.basis_wf(h));
    assert(before.arena@[slot as int] == SlotUse::Free(handle));
    assert(before.slot_wf(slot as int));
    if old_slot is Some {
        assert(before.mapping_wf(h, v));
    }
    let v1 = applied_prefix(v0, order, 1);
    let v2 = applied_prefix(v0, order, 2);
    let v3 = applied_prefix(v0, order, 3);
    assert(applied_prefix(v0, order, 0) == v0);
    assert(v1 == order[0].applied(v0));
    assert(v2 == order[1].applied(v1));
    assert(v3 == order[2].applied(v2));
    if old_slot is Some {
        let v4 = applied_prefix(v0, order, 4);
        let v5 = applied_prefix(v0, order, 5);
        assert(v4 == order[3].applied(v3));
        assert(v5 == order[4].applied(v4));
    }
    assert forall|q: int| 0 <= q < image.ptes@.len() implies image.ptes@[q]@ == vi.ptes[q] by {}
    assert forall|q: int| 0 <= q < image.pages@.len() implies image.pages@[q]@ == vi.pages[q] by {}
    assert forall|q: int| 0 <= q < before.flash.ptes@.len() implies before.flash.ptes@[q]@
        == v0.ptes[q] by {}
    assert forall|q: int| 0 <= q < before.flash.pages@.len() implies before.flash.pages@[q]@
        == v0.pages[q] by {}
    assert(vi.ptes.len() == image.ptes@.len());
    assert(vi.pages.len() == image.pages@.len());
    assert(vi.fscb.len() == image.fscb@.len());
    let commit = spec_open_staging(after.flash.staging@, key)->0;
    let old_int: Option<int> = match old_slot {
        Some(p) => Some(p as int),
        None => None,
    };
    assert(is_crash_image(
        before.flash,
        after.flash,
        key,
        slot as int,
        commit.1,
        commit.2,
        old_int,
        CommitState::Orphaned,
    ));
    assert(!decodes(before.flash.ptes@[slot as int]@, key, slot));
    assert(vi.staging == image.staging@);
    assert(order[0].fits(v0));
    assert(order[1].fits(v1));
    assert(order[2].fits(v2));
    let s = slot as int;
    assert(0 <= s < v0.pages.len() && s < v0.ptes.len());
    assert(v1.pages == v0.pages && v1.ptes == v0.ptes && v1.fscb == v0.fscb);
    assert(v2.pages == v0.pages.update(s, after.flash.pages@[s]@));
    assert(v2.ptes == v0.ptes && v2.staging == v1.staging);
    assert(v3.ptes == v0.ptes.update(s, after.flash.ptes@[s]@));
    assert(v3.pages == v2.pages && v3.staging == v1.staging);
    assert(after.flash.pages@[s]@ == commit.2);
    assert(after.flash.ptes@[s]@ == commit.1);
    assert(vi.pages.len() == v0.pages.len() && vi.ptes.len() == v0.ptes.len()) by {
        if old_slot is Some {
            let v4 = applied_prefix(v0, order, 4);
            let v5 = applied_prefix(v0, order, 5);
            assert(v4.pages == v3.pages && v5.pages == v3.pages);
            assert(v4.ptes.len() == v3.ptes.len() && v5.ptes.len() == v3.ptes.len());
        }
    }
    assert(image.pages@[s]@ == vi.pages[s]);
    assert(image.ptes@[s]@ == vi.ptes[s]);
    assert(before.flash.ptes@[s]@ == v0.ptes[s]);
    assert(before.flash.pages@[s]@ == v0.pages[s]);
    if k == 0 {
        assert(vi == v0);
        assert(image.staging@ == before.flash.staging@);
    } else if k == 1 {
        assert(vi == v1);
        assert(image.staging@ == after.flash.staging@);
    } else if k == 2 {
        assert(vi == v2);
        assert(image.staging@ == after.flash.staging@);
        assert(image.pages@[slot as int]@ == commit.2);
        assert(image.ptes@[slot as int]@ == before.flash.ptes@[slot as int]@);
    } else if k == 3 {
        assert(vi == v3);
    } else {
        let o = old_slot->0 as int;
        assert(o != s);
        let v4 = applied_prefix(v0, order, 4);
        let v5 = applied_prefix(v0, order, 5);
        assert(v4.ptes == v3.ptes.update(o, after.flash.ptes@[o]@));
        assert(v4.pages == v3.pages && v4.staging == v3.staging);
        assert(v5.ptes == v4.ptes && v5.pages == v4.pages && v5.staging == v4.staging);
        assert(vi == v4 || vi == v5);
        assert(image.staging@ == after.flash.staging@);
        assert(image.pages@[s]@ == commit.2);
        assert(image.ptes@[s]@ == commit.1);
    }
    assert forall|q: int|
        0 <= q < before.flash.ptes@.len() && q != s && Some(q) != old_int implies (
    #[trigger] image.ptes@[q])@ == before.flash.ptes@[q]@ by {
        assert(image.ptes@[q]@ == vi.ptes[q]);
        assert(before.flash.ptes@[q]@ == v0.ptes[q]);
    }
    assert forall|q: int| 0 <= q < before.flash.pages@.len() && q != s implies (
    #[trigger] image.pages@[q])@ == before.flash.pages@[q]@ by {
        assert(image.pages@[q]@ == vi.pages[q]);
        assert(before.flash.pages@[q]@ == v0.pages[q]);
    }
    if old_slot is Some && k <= 3 {
        let o = old_slot->0 as int;
        assert(o != s);
        assert(image.ptes@[o]@ == vi.ptes[o]);
        assert(before.flash.ptes@[o]@ == v0.ptes[o]);
    }
    assert(is_crash_image(
        before.flash,
        image,
        key,
        slot as int,
        commit.1,
        commit.2,
        old_int,
        state_after(k),
    ));
    if k == order.len() {
        assert forall|q: int| 0 <= q < after.flash.ptes@.len() implies vi.ptes[q] == va.ptes[q] by {
            assert(after.flash.ptes@[q]@ == va.ptes[q]);
        }
        assert forall|q: int| 0 <= q < after.flash.pages@.len() implies vi.pages[q]
            == va.pages[q] by {
            assert(after.flash.pages@[q]@ == va.pages[q]);
        }
        assert forall|q: int| 0 <= q < after.flash.fscb@.len() implies vi.fscb[q] == va.fscb[q] by {
            assert(after.flash.fscb@[q]@ == va.fscb[q]);
            assert(before.flash.fscb@[q]@ == v0.fscb[q]);
        }
        assert(vi.ptes =~= va.ptes);
        assert(vi.pages =~= va.pages);
        assert(vi.fscb =~= va.fscb);
    }
}

} // verus!
