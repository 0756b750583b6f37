//! The state of the store: the flash image, who owns which physical slot,
//! and one overlay per basis.
//!
//! The slots are an arena indexed by physical position. Each open basis has
//! an overlay of its own: the map from its virtual addresses to slots and
//! the queue of its free pages. A slot has at most one owner, so no two live
//! entries, of one basis or of two, share a physical page; and an operation
//! scoped to one basis reads and writes only slots that the arena gives to
//! that basis.

use vstd::prelude::*;
use std::collections::HashMap;
use crate::error::PddbError;
use crate::flags::PtFlags;
use crate::flags::PT_CLEAN;
use crate::flash::is_region_of;
use crate::flash::lemma_entry_parts;
use crate::flash::region_len;
use crate::flash::payload_of;
use crate::flash::Flash;
use crate::fscb::Fscb;
use crate::key::BasisKey;
use crate::page::decrypt_page;
use crate::page::REV_LIMIT;
use crate::pte::VIRT_LIMIT;

verus! {

/// Names an open basis: the position of its overlay.
pub type BasisHandle = usize;

/// What the store knows of one physical slot.
#[derive(Clone, Copy, Debug, PartialEq, Eq, Structural)]
pub enum SlotUse {
    /// Nothing: the slot is free, or belongs to a basis that is not open.
    /// The two cannot be told apart, and the slot is never allocated.
    Opaque,
    /// A free page of the basis.
    Free(usize),
    /// The page that backs a virtual address of the basis.
    Live(usize, u64),
    /// A page of the basis that is neither mapped nor free: superseded, or
    /// taken for a commit that is under way.
    Orphaned(usize),
}

/// What the store keeps of one virtual page: the slot that backs it, the
/// revision of the page there, and its flags. It is a cache built from flash
/// at mount time, never a source of truth of its own.
#[derive(Clone, Copy, Debug, PartialEq, Eq, Structural)]
pub struct ReversePte {
    /// The physical slot.
    pub phys: u32,
    /// The journal revision of the page in that slot.
    pub rev: u32,
    pub flags: PtFlags,
}

/// The overlay of one basis.
#[derive(Debug)]
pub struct Basis {
    /// False once the basis is locked; the overlay is then empty.
    pub open: bool,
    pub key: BasisKey,
    /// The forward map, from virtual address to slot.
    pub map: HashMap<u64, ReversePte>,
    /// The free pages.
    pub free: Fscb,
}

/// The store.
#[derive(Debug)]
pub struct Pddb {
    pub flash: Flash,
    /// The reverse map, from slot to owner.
    pub arena: Vec<SlotUse>,
    pub bases: Vec<Basis>,
}

impl Pddb {
    /// True when `h` names an open basis.
    pub open spec fn is_open(self, h: int) -> bool {
        0 <= h < self.bases@.len() && self.bases@[h].open
    }

    /// The slot that backs `v` in basis `h`.
    pub open spec fn spec_resolve(self, h: int, v: u64) -> Option<u32> {
        if self.is_open(h) && self.bases@[h].map@.contains_key(v) {
            Some(self.bases@[h].map@[v].phys)
        } else {
            None
        }
    }

    /// The journal revision of `v` in basis `h`.
    pub open spec fn spec_rev(self, h: int, v: u64) -> Option<u32> {
        if self.is_open(h) && self.bases@[h].map@.contains_key(v) {
            Some(self.bases@[h].map@[v].rev)
        } else {
            None
        }
    }

    /// What basis `h` holds at `v`: the payload of the page that backs it.
    pub open spec fn spec_content(self, h: int, v: u64) -> Option<Seq<u8>> {
        match self.spec_resolve(h, v) {
            Some(p) => self.flash.spec_payload(self.bases@[h].key, p as int),
            None => None,
        }
    }

    /// True when the entry of `v` in basis `h` agrees with arena and flash:
    /// the slot is owned for `v`, its table entry decodes to `v`, and its
    /// page authenticates at the recorded revision.
    pub open spec fn mapping_wf(self, h: int, v: u64) -> bool {
        let b = self.bases@[h];
        let m = b.map@[v];
        &&& v < VIRT_LIMIT
        &&& m.rev < REV_LIMIT
        &&& m.phys < self.flash.page_count()
        &&& m.flags == (PtFlags { bits: PT_CLEAN })
        &&& self.arena@[m.phys as int] == SlotUse::Live(h as usize, v)
        &&& self.flash.spec_slot_entry(b.key, m.phys as int) == Some((v, m.rev))
    }

    /// True when the overlay of basis `h` agrees with arena and flash.
    pub open spec fn basis_wf(self, h: int) -> bool {
        let b = self.bases@[h];
        &&& !b.open ==> b.free@.len() == 0 && forall|v: u64| !b.map@.contains_key(v)
        &&& forall|v: u64| #[trigger] b.map@.contains_key(v) ==> self.mapping_wf(h, v)
        &&& forall|i: int|
            0 <= i < b.free@.len() ==> (#[trigger] b.free@[i]) < self.flash.page_count()
                && self.arena@[b.free@[i] as int] == SlotUse::Free(h as usize)
        &&& b.free@.no_duplicates()
    }

    /// True when the owner that the arena names for slot `p` is open and
    /// knows of the slot, and a free slot is free on flash too: its table
    /// entry does not decode and the log lists it.
    pub open spec fn slot_wf(self, p: int) -> bool {
        match self.arena@[p] {
            SlotUse::Opaque => true,
            SlotUse::Free(h) => self.is_open(h as int) && !self.flash.spec_decodes(
                self.bases@[h as int].key,
                p,
            ) && self.flash.spec_listed_free(self.bases@[h as int].key, p),
            SlotUse::Orphaned(h) => self.is_open(h as int),
            SlotUse::Live(h, v) => self.is_open(h as int) && self.bases@[h as int].map@.contains_key(v)
                && self.bases@[h as int].map@[v].phys == p,
        }
    }

    /// The invariant of the store.
    pub open spec fn wf(self) -> bool {
        &&& self.flash.wf()
        &&& self.arena@.len() == self.flash.page_count()
        &&& forall|h: int| 0 <= h < self.bases@.len() ==> #[trigger] self.basis_wf(h)
        &&& forall|p: int| 0 <= p < self.arena@.len() ==> #[trigger] self.slot_wf(p)
    }

    /// True when slot `p` backs a virtual page of some open basis.
    pub open spec fn is_live(self, p: int) -> bool {
        0 <= p < self.arena@.len() && self.arena@[p] is Live
    }

    /// A store over `flash` with no basis open. `None` when the parts of
    /// `flash` do not have the sizes that the layout fixes.
    pub fn new(flash: Flash) -> (store: Option<Pddb>)
        ensures
            store is Some <==> flash.wf(),
            store is Some ==> store->0.wf() && store->0.flash == flash && store->0.bases@.len() == 0,
    {
        if !flash.check() {
            return None;
        }
        let n: usize = flash.ptes.len();
        let mut arena: Vec<SlotUse> = Vec::with_capacity(n);
        while arena.len() < n
            invariant
                arena@.len() <= n,
                forall|p: int| 0 <= p < arena@.len() ==> arena@[p] == SlotUse::Opaque,
            decreases n - arena@.len(),
        {
            arena.push(SlotUse::Opaque);
        }
        let store = Pddb { flash, arena, bases: Vec::new() };
        assert forall|p: int| 0 <= p < store.arena@.len() implies #[trigger] store.slot_wf(p) by {}
        Some(store)
    }

    /// A store over a fresh region of `pages` pages, all of it random, with
    /// no basis open. It fails as `Flash::noise` does.
    pub fn format(pages: u32) -> (store: Result<Pddb, PddbError>)
        ensures
            match store {
                Ok(s) => s.wf() && s.flash.page_count() == pages && s.bases@.len() == 0
                    && exists|bytes: Seq<u8>|
                    bytes.len() == region_len(pages as nat) && #[trigger] is_region_of(
                        s.flash,
                        pages as nat,
                        bytes,
                    ),
                Err(e) => e == PddbError::EntropyUnavailable || (e == PddbError::OutOfSpace
                    && region_len(pages as nat) > usize::MAX),
            },
            region_len(pages as nat) > usize::MAX ==> store is Err,
    {
        match Flash::noise(pages) {
            Err(e) => Err(e),
            Ok(flash) => match Pddb::new(flash) {
                Some(store) => Ok(store),
                None => {
                    proof {
                        assert(false);
                    }
                    Err(PddbError::EntropyUnavailable)
                },
            },
        }
    }

    /// True when `handle` names an open basis.
    pub fn is_mounted(&self, handle: BasisHandle) -> (open: bool)
        ensures
            open == self.is_open(handle as int),
    {
        handle < self.bases.len() && self.bases[handle].open
    }

    /// The physical slot that backs `virtual_addr` in the basis of `handle`.
    pub fn resolve(&self, handle: BasisHandle, virtual_addr: u64) -> (slot: Option<u32>)
        ensures
            slot == self.spec_resolve(handle as int, virtual_addr),
    {
        broadcast use vstd::std_specs::hash::group_hash_axioms;

        if !self.is_mounted(handle) {
            return None;
        }
        match self.bases[handle].map.get(&virtual_addr) {
            Some(m) => Some(m.phys),
            None => None,
        }
    }

    /// The journal revision of `virtual_addr` in the basis of `handle`.
    pub fn revision(&self, handle: BasisHandle, virtual_addr: u64) -> (rev: Option<u32>)
        ensures
            rev == self.spec_rev(handle as int, virtual_addr),
    {
        broadcast use vstd::std_specs::hash::group_hash_axioms;

        if !self.is_mounted(handle) {
            return None;
        }
        match self.bases[handle].map.get(&virtual_addr) {
            Some(m) => Some(m.rev),
            None => None,
        }
    }

    /// True when every address that an open basis maps points at a page
    /// that exists. This is all that a read needs; the invariant of the
    /// store says more.
    pub open spec fn readable(self) -> bool {
        forall|h: int, v: u64|
            self.is_open(h) && #[trigger] self.bases@[h].map@.contains_key(v)
                ==> self.bases@[h].map@[v].phys < self.flash.pages@.len()
    }

    /// Reads the page at `virtual_addr` of the basis of `handle`.
    ///
    /// The answer is `NotFound` when the handle is not open or the basis has
    /// no page there. A page that is mapped is authenticated on every read:
    /// when it authenticates, the answer is its payload; when it does not,
    /// the answer is `InconsistentCommit`. The invariant of the store says
    /// that every mapped page authenticates, so on a store that keeps it a
    /// read fails with `NotFound` only; the other error takes flash changed
    /// behind the store's back.
    pub fn read_page(&self, handle: BasisHandle, virtual_addr: u64) -> (bytes: Result<
        Vec<u8>,
        PddbError,
    >)
        requires
            self.wf() || self.readable(),
        ensures
            match bytes {
                Ok(b) => self.spec_content(handle as int, virtual_addr) == Some(b@),
                Err(e) => self.spec_content(handle as int, virtual_addr) is None && e == (
                if self.spec_resolve(handle as int, virtual_addr) is None {
                    PddbError::NotFound
                } else {
                    PddbError::InconsistentCommit
                }),
            },
            self.wf() && bytes is Err ==> self.spec_resolve(handle as int, virtual_addr) is None,
    {
        match self.resolve(handle, virtual_addr) {
            None => Err(PddbError::NotFound),
            Some(p) => {
                proof {
                    if self.wf() {
                        assert(self.basis_wf(handle as int));
                        assert(self.mapping_wf(handle as int, virtual_addr));
                        lemma_entry_parts(
                            self.flash.ptes@[p as int]@,
                            self.flash.pages@[p as int]@,
                            self.bases@[handle as int].key,
                            p,
                        );
                    } else {
                        assert(self.bases@[handle as int].map@.contains_key(virtual_addr));
                    }
                    reveal(payload_of);
                }
                match decrypt_page(self.flash.pages[p as usize].as_slice(), &self.bases[handle].key, p) {
                    Ok((payload, _)) => Ok(payload),
                    Err(_) => Err(PddbError::InconsistentCommit),
                }
            },
        }
    }

    /// Number of free pages of the basis of `handle`.
    pub fn free_pages(&self, handle: BasisHandle) -> (n: usize)
        ensures
            n == (if self.is_open(handle as int) {
                self.bases@[handle as int].free@.len()
            } else {
                0
            }),
    {
        if !self.is_mounted(handle) {
            return 0;
        }
        self.bases[handle].free.len()
    }
}

} // verus!
