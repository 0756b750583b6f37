use pddb::engine::{Pddb, SlotUse};
use pddb::error::PddbError;
use pddb::flash::Flash;
use pddb::key::derive_key;
use pddb::mbbb::{make_commit, seal_commit};
use pddb::page::{PAYLOAD_MAX, REV_LIMIT};

fn payload(len: usize, salt: u8) -> Vec<u8> {
    (0..len).map(|i| (i as u8).wrapping_mul(31).wrapping_add(salt)).collect()
}

fn store_with_work() -> (Pddb, usize) {
    let mut store = Pddb::format(16).expect("random source");
    let work = store.create(b"work", b"password one", 0, 8).expect("create work");
    (store, work)
}

#[test]
fn scenario_write_read_delete_reallocate() {
    let (mut store, work) = store_with_work();
    let personal = store.create(b"personal", b"password two", 8, 8).unwrap();
    let d1 = payload(4000, 1);
    store.write_page(work, 0x1000, &d1).unwrap();
    assert_eq!(store.read_page(work, 0x1000).unwrap(), d1);
    store.write_page(personal, 0x2000, &payload(10, 2)).unwrap();
    store.delete_page(work, 0x1000).unwrap();
    assert_eq!(store.read_page(work, 0x1000), Err(PddbError::NotFound));
    store.write_page(work, 0x3000, &payload(100, 3)).unwrap();
    let new_slot = store.resolve(work, 0x3000).unwrap();
    let other_slot = store.resolve(personal, 0x2000).unwrap();
    assert_ne!(new_slot, other_slot);
    assert_eq!(store.arena[other_slot as usize], SlotUse::Live(personal, 0x2000));
    assert_eq!(store.arena[new_slot as usize], SlotUse::Live(work, 0x3000));
    assert_eq!(store.read_page(personal, 0x2000).unwrap(), payload(10, 2));
}

#[test]
fn cross_basis_isolation() {
    let (mut store, work) = store_with_work();
    let d1 = payload(4000, 7);
    store.write_page(work, 0x1000, &d1).unwrap();
    let personal = store.create(b"personal", b"password two", 8, 8).unwrap();
    assert_eq!(store.read_page(personal, 0x1000), Err(PddbError::NotFound));
    assert_eq!(store.resolve(personal, 0x1000), None);
    store.write_page(personal, 0x1000, b"mine").unwrap();
    assert_eq!(store.read_page(work, 0x1000).unwrap(), d1);
    assert_eq!(store.read_page(personal, 0x1000).unwrap(), b"mine".to_vec());
    assert_ne!(store.resolve(work, 0x1000), store.resolve(personal, 0x1000));
}

#[test]
fn a_write_never_lands_on_the_slot_it_replaces() {
    let (mut store, work) = store_with_work();
    let mut last = None;
    for round in 0..20u8 {
        store.write_page(work, 0x1000, &payload(64, round)).unwrap();
        let slot = store.resolve(work, 0x1000);
        assert_ne!(slot, last);
        assert_eq!(store.revision(work, 0x1000), Some(round as u32));
        assert_eq!(store.read_page(work, 0x1000).unwrap(), payload(64, round));
        last = slot;
    }
    assert_eq!(store.free_pages(work), 7);
}

#[test]
fn freed_page_returns_after_the_pages_that_waited_before_it() {
    let (mut store, work) = store_with_work();
    store.write_page(work, 1, b"a").unwrap();
    let slot = store.resolve(work, 1).unwrap();
    store.delete_page(work, 1).unwrap();
    assert_eq!(store.arena[slot as usize], SlotUse::Free(work));
    let waiting = store.free_pages(work);
    assert_eq!(waiting, 8);
    let mut seen = Vec::new();
    for i in 0..waiting {
        store.write_page(work, 100 + i as u64, b"x").unwrap();
        seen.push(store.resolve(work, 100 + i as u64).unwrap());
    }
    assert_eq!(*seen.last().unwrap(), slot);
    assert!(!seen[..seen.len() - 1].contains(&slot));
}

#[test]
fn out_of_space_when_the_free_queue_is_empty() {
    let mut store = Pddb::format(4).unwrap();
    let work = store.create(b"work", b"pw", 0, 2).unwrap();
    store.write_page(work, 1, b"one").unwrap();
    store.write_page(work, 2, b"two").unwrap();
    assert_eq!(store.write_page(work, 3, b"three"), Err(PddbError::OutOfSpace));
    assert_eq!(store.write_page(work, 1, b"again"), Err(PddbError::OutOfSpace));
    assert_eq!(store.read_page(work, 1).unwrap(), b"one".to_vec());
    assert_eq!(store.read_page(work, 3), Err(PddbError::NotFound));
    store.delete_page(work, 2).unwrap();
    store.write_page(work, 3, b"three").unwrap();
    assert_eq!(store.read_page(work, 3).unwrap(), b"three".to_vec());
}

#[test]
fn closed_or_unknown_handle_is_not_found() {
    let (mut store, work) = store_with_work();
    store.write_page(work, 5, b"data").unwrap();
    assert_eq!(store.write_page(99, 5, b"data"), Err(PddbError::NotFound));
    assert_eq!(store.delete_page(work, 6), Err(PddbError::NotFound));
    store.lock(work);
    assert!(!store.is_mounted(work));
    assert_eq!(store.read_page(work, 5), Err(PddbError::NotFound));
    assert_eq!(store.write_page(work, 5, b"data"), Err(PddbError::NotFound));
    assert!(store.arena.iter().all(|slot| *slot == SlotUse::Opaque));
}

#[test]
fn lock_and_unlock_keep_the_pages() {
    let (mut store, work) = store_with_work();
    let big = payload(PAYLOAD_MAX, 9);
    store.write_page(work, 0x1000, &big).unwrap();
    store.write_page(work, 0x2000, b"").unwrap();
    store.write_page(work, 0x1000, &payload(17, 4)).unwrap();
    store.lock(work);
    let flash: Flash = store.flash.clone();
    let mut again = Pddb::new(flash).unwrap();
    assert_eq!(again.unlock(b"work", b"wrong password"), Err(PddbError::WrongPassword));
    assert_eq!(again.unlock(b"other", b"password one"), Err(PddbError::WrongPassword));
    let work = again.unlock(b"work", b"password one").unwrap();
    assert_eq!(again.read_page(work, 0x1000).unwrap(), payload(17, 4));
    assert_eq!(again.revision(work, 0x1000), Some(1));
    assert_eq!(again.read_page(work, 0x2000).unwrap(), Vec::<u8>::new());
    assert_eq!(again.free_pages(work), 6);
    again.write_page(work, 0x1000, &big).unwrap();
    assert_eq!(again.read_page(work, 0x1000).unwrap(), big);
}

#[test]
fn a_basis_cannot_be_opened_twice() {
    let (mut store, work) = store_with_work();
    store.write_page(work, 1, b"a").unwrap();
    let open_before = store.bases.len();
    assert_eq!(store.unlock(b"work", b"password one"), Err(PddbError::WrongPassword));
    assert_eq!(store.bases.len(), open_before);
    assert_eq!(store.read_page(work, 1).unwrap(), b"a".to_vec());
}

#[test]
fn deleted_page_stays_deleted_after_remount() {
    let (mut store, work) = store_with_work();
    store.write_page(work, 0x1000, b"gone").unwrap();
    store.write_page(work, 0x2000, b"kept").unwrap();
    store.delete_page(work, 0x1000).unwrap();
    let mut again = Pddb::new(store.flash.clone()).unwrap();
    let work = again.unlock(b"work", b"password one").unwrap();
    assert_eq!(again.read_page(work, 0x1000), Err(PddbError::NotFound));
    assert_eq!(again.read_page(work, 0x2000).unwrap(), b"kept".to_vec());
}

fn remount_and_read(flash: &Flash, addr: u64) -> Result<Vec<u8>, PddbError> {
    let mut store = Pddb::new(flash.clone()).unwrap();
    let work = store.unlock(b"work", b"password one")?;
    store.read_page(work, addr)
}

#[test]
fn power_loss_at_every_point_gives_old_or_new() {
    let (mut store, work) = store_with_work();
    let old = payload(300, 1);
    let new = payload(4000, 2);
    store.write_page(work, 0x1000, &old).unwrap();
    store.write_page(work, 0x2000, b"bystander").unwrap();
    let key = derive_key(b"work", b"password one");
    let old_slot = store.resolve(work, 0x1000).unwrap() as usize;
    let slot = store.bases[work].free.queue[0];
    let rev = store.revision(work, 0x1000).unwrap() + 1;
    let commit = make_commit(&new, &key, slot, 0x1000, rev, &[3u8; 12], 77);
    let staged = seal_commit(&commit, &key, &[4u8; 12]);
    let base = store.flash.clone();

    let mut images: Vec<(Flash, bool)> = Vec::new();
    // the staging area is cut off half way
    let mut f = base.clone();
    f.staging[..2000].copy_from_slice(&staged[..2000]);
    images.push((f, false));
    // the staging area is durable
    let mut f = base.clone();
    f.staging = staged.clone();
    images.push((f.clone(), true));
    // the page is cut off half way, then durable
    let mut g = f.clone();
    g.pages[slot as usize][..1000].copy_from_slice(&commit.page[..1000]);
    images.push((g, true));
    f.pages[slot as usize] = commit.page.clone();
    images.push((f.clone(), true));
    // the entry is cut off half way, then durable
    let mut g = f.clone();
    g.ptes[slot as usize][..8].copy_from_slice(&commit.pte[..8]);
    images.push((g, true));
    f.ptes[slot as usize] = commit.pte;
    images.push((f.clone(), true));
    // the old entry is overwritten with noise
    f.ptes[old_slot] = [0x5a; 16];
    images.push((f.clone(), true));

    for (image, staged_durable) in images.iter() {
        let found = remount_and_read(image, 0x1000).unwrap();
        if *staged_durable {
            assert_eq!(found, new);
        } else {
            assert_eq!(found, old);
        }
        assert_eq!(remount_and_read(image, 0x2000).unwrap(), b"bystander".to_vec());
    }
}

#[test]
fn the_engine_walks_through_the_same_images() {
    let (mut store, work) = store_with_work();
    store.write_page(work, 0x1000, b"old").unwrap();
    store.write_page_with(work, 0x1000, b"new", &[8u8; 64]).unwrap();
    assert_eq!(remount_and_read(&store.flash, 0x1000).unwrap(), b"new".to_vec());
    let mut again = Pddb::new(store.flash.clone()).unwrap();
    let work = again.unlock(b"work", b"password one").unwrap();
    assert_eq!(again.revision(work, 0x1000), Some(1));
    assert_eq!(again.free_pages(work), 7);
}

#[test]
fn journal_revision_has_a_limit() {
    let mut store = Pddb::format(8).unwrap();
    let key = derive_key(b"work", b"password one");
    let commit = make_commit(b"last", &key, 0, 0x1000, REV_LIMIT - 1, &[1u8; 12], 5);
    store.flash.pages[0] = commit.page.clone();
    store.flash.ptes[0] = commit.pte;
    let work = store.create(b"work", b"password one", 1, 4).unwrap();
    assert_eq!(store.revision(work, 0x1000), Some(REV_LIMIT - 1));
    assert_eq!(store.read_page(work, 0x1000).unwrap(), b"last".to_vec());
    assert_eq!(store.write_page(work, 0x1000, b"more"), Err(PddbError::JournalExhausted));
    assert_eq!(store.read_page(work, 0x1000).unwrap(), b"last".to_vec());
}

#[test]
fn of_two_copies_the_higher_revision_is_mapped() {
    let mut store = Pddb::format(8).unwrap();
    let key = derive_key(b"work", b"password one");
    let low = make_commit(b"low", &key, 2, 0x1000, 4, &[1u8; 12], 5);
    let high = make_commit(b"high", &key, 5, 0x1000, 9, &[2u8; 12], 6);
    store.flash.pages[2] = low.page.clone();
    store.flash.ptes[2] = low.pte;
    store.flash.pages[5] = high.page.clone();
    store.flash.ptes[5] = high.pte;
    let work = store.unlock(b"work", b"password one").unwrap();
    assert_eq!(store.resolve(work, 0x1000), Some(5));
    assert_eq!(store.read_page(work, 0x1000).unwrap(), b"high".to_vec());
    assert_eq!(store.arena[2], SlotUse::Orphaned(work));
}

#[test]
fn new_store_wants_a_well_formed_flash() {
    let mut flash = Flash::noise(4).unwrap();
    assert!(flash.check());
    flash.pages[1].pop();
    assert!(!flash.check());
    assert!(Pddb::new(flash).is_none());
}

#[test]
fn power_loss_during_delete_gives_the_page_or_nothing() {
    let (mut store, work) = store_with_work();
    store.write_page(work, 0x1000, b"last written").unwrap();
    let slot = store.resolve(work, 0x1000).unwrap() as usize;
    let before = store.flash.clone();
    store.delete_page_with(work, 0x1000, &[0x33u8; 64]).unwrap();
    let after = store.flash.clone();
    assert_eq!(store.arena[slot], SlotUse::Free(work));

    // the staging area is voided first
    let mut image = before.clone();
    assert_eq!(remount_and_read(&image, 0x1000).unwrap(), b"last written".to_vec());
    image.staging = after.staging.clone();
    assert_eq!(remount_and_read(&image, 0x1000).unwrap(), b"last written".to_vec());
    // then the table entry goes, and the page is gone for good
    image.ptes[slot] = after.ptes[slot];
    assert_eq!(remount_and_read(&image, 0x1000), Err(PddbError::NotFound));
    image.fscb[slot] = after.fscb[slot];
    assert_eq!(remount_and_read(&image, 0x1000), Err(PddbError::NotFound));
    assert_eq!(image.ptes, after.ptes);
    assert_eq!(image.pages, after.pages);
    assert_eq!(remount_and_read(&after, 0x1000), Err(PddbError::NotFound));
}

#[test]
fn release_wants_noise_that_does_not_decode() {
    let (mut store, work) = store_with_work();
    store.write_page(work, 0x1000, b"kept").unwrap();
    let slot = store.resolve(work, 0x1000).unwrap();
    let entry = store.flash.ptes[slot as usize];
    assert_eq!(
        store.release(work, 0x1000, entry, &[1u8; 12]),
        Err(PddbError::EntropyUnavailable)
    );
    assert_eq!(store.read_page(work, 0x1000).unwrap(), b"kept".to_vec());
    assert_eq!(store.release(work, 0x2000, [9u8; 16], &[1u8; 12]), Err(PddbError::NotFound));
    assert_eq!(store.release(work, 0x1000, [9u8; 16], &[1u8; 12]), Ok(slot));
    assert_eq!(store.flash.ptes[slot as usize], [9u8; 16]);
    assert_eq!(store.read_page(work, 0x1000), Err(PddbError::NotFound));
}

#[test]
fn compaction_frees_the_slots_that_lost_at_mount() {
    let mut store = Pddb::format(8).unwrap();
    let key = derive_key(b"work", b"password one");
    let low = make_commit(b"low", &key, 2, 0x1000, 4, &[1u8; 12], 5);
    let high = make_commit(b"high", &key, 5, 0x1000, 9, &[2u8; 12], 6);
    store.flash.pages[2] = low.page.clone();
    store.flash.ptes[2] = low.pte;
    store.flash.pages[5] = high.page.clone();
    store.flash.ptes[5] = high.pte;
    let work = store.unlock(b"work", b"password one").unwrap();
    assert_eq!(store.free_pages(work), 0);
    assert_eq!(store.write_page(work, 0x1000, b"next"), Err(PddbError::OutOfSpace));
    assert_eq!(store.compact(work), Ok(1));
    assert_eq!(store.arena[2], SlotUse::Free(work));
    assert_eq!(store.compact(work), Ok(0));
    assert_eq!(store.compact(42), Ok(0));
    store.write_page(work, 0x1000, b"next").unwrap();
    assert_eq!(store.resolve(work, 0x1000), Some(2));
    assert_eq!(store.revision(work, 0x1000), Some(10));
    assert_eq!(remount_and_read(&store.flash, 0x1000).unwrap(), b"next".to_vec());
}

#[test]
fn grant_gives_only_slots_that_are_nobodys() {
    let (mut store, work) = store_with_work();
    assert!(!store.grant_with(work, 3, [1u8; 16], &[2u8; 12]));
    assert!(!store.grant_with(work, 16, [1u8; 16], &[2u8; 12]));
    assert!(!store.grant_with(7, 9, [1u8; 16], &[2u8; 12]));
    assert!(store.grant_with(work, 9, [1u8; 16], &[2u8; 12]));
    assert_eq!(store.arena[9], SlotUse::Free(work));
    assert_eq!(store.free_pages(work), 9);
}

#[test]
fn a_page_damaged_behind_the_stores_back_is_an_inconsistent_commit() {
    let (mut store, work) = store_with_work();
    store.write_page(work, 0x1000, b"intact").unwrap();
    let slot = store.resolve(work, 0x1000).unwrap() as usize;
    store.flash.pages[slot][2000] ^= 0x01;
    assert_eq!(store.read_page(work, 0x1000), Err(PddbError::InconsistentCommit));
    store.flash.pages[slot][2000] ^= 0x01;
    assert_eq!(store.read_page(work, 0x1000).unwrap(), b"intact".to_vec());
}

#[test]
fn probe_tells_filter_rejects_from_failed_authentication() {
    let flash = Flash {
        ptes: vec![[0u8; 16]; 4],
        pages: vec![vec![0u8; 4096]; 4],
        fscb: vec![[0u8; 32]; 4],
        staging: vec![0u8; 4144],
    };
    let key = derive_key(b"work", b"password one");
    assert_eq!(flash.probe_slot(&key, 1), Err(PddbError::ChecksumPreFilterReject));
    let mut flash = flash;
    let commit = make_commit(b"page", &key, 1, 0x1000, 0, &[1u8; 12], 5);
    flash.ptes[1] = commit.pte;
    assert_eq!(flash.probe_slot(&key, 1), Err(PddbError::AuthenticationFailure));
    flash.pages[1] = commit.page.clone();
    assert_eq!(flash.probe_slot(&key, 1), Ok((0x1000, 0)));
    flash.pages[2] = commit.page.clone();
    flash.ptes[2] = commit.pte;
    assert_eq!(flash.probe_slot(&key, 2), Err(PddbError::ChecksumPreFilterReject));
}

#[test]
fn compaction_seals_the_free_records_anew() {
    let (mut store, work) = store_with_work();
    store.write_page(work, 0x1000, b"stays").unwrap();
    let key = derive_key(b"work", b"password one");
    let before = store.flash.clone();
    assert_eq!(store.compact(work), Ok(0));
    let mut free = 0;
    for slot in 0..16usize {
        if store.arena[slot] == SlotUse::Free(work) {
            free += 1;
            assert_ne!(store.flash.fscb[slot], before.fscb[slot]);
            assert!(pddb::fscb::free_record_opens(&store.flash.fscb[slot], &key, slot as u32));
        } else {
            assert_eq!(store.flash.fscb[slot], before.fscb[slot]);
        }
    }
    assert_eq!(free, 7);
    assert_eq!(store.flash.ptes, before.ptes);
    assert_eq!(store.flash.pages, before.pages);
    let mut again = Pddb::new(store.flash.clone()).unwrap();
    let work = again.unlock(b"work", b"password one").unwrap();
    assert_eq!(again.free_pages(work), 7);
    assert_eq!(again.read_page(work, 0x1000).unwrap(), b"stays".to_vec());
}

#[test]
fn compaction_spends_one_block_per_slot_in_rising_order() {
    let mut store = Pddb::format(8).unwrap();
    let key = derive_key(b"work", b"password one");
    let low = make_commit(b"low", &key, 2, 0x1000, 4, &[1u8; 12], 5);
    let high = make_commit(b"high", &key, 5, 0x1000, 9, &[2u8; 12], 6);
    store.flash.pages[2] = low.page.clone();
    store.flash.ptes[2] = low.pte;
    store.flash.pages[5] = high.page.clone();
    store.flash.ptes[5] = high.pte;
    let work = store.unlock(b"work", b"password one").unwrap();
    assert!(store.grant_with(work, 0, [7u8; 16], &[7u8; 12]));
    assert!(store.grant_with(work, 6, [7u8; 16], &[7u8; 12]));
    // slots 0 and 6 are free, slot 2 is orphaned, slot 5 is live
    let before = store.flash.clone();
    let mut first = [0x11u8; 64];
    first[16..28].copy_from_slice(&[0xa1; 12]);
    let mut second = [0x22u8; 64];
    second[16..28].copy_from_slice(&[0xa2; 12]);
    assert_eq!(store.compact_with(work, &[first, second]), 1);
    // slot 0 takes the first block: its record is sealed anew
    assert_eq!(store.flash.fscb[0], pddb::fscb::seal_free_record(&key, 0, &[0xa1; 12]));
    assert_eq!(store.flash.ptes[0], before.ptes[0]);
    // slot 2 takes the second block: it is freed
    assert_eq!(store.flash.ptes[2], [0x22u8; 16]);
    assert_eq!(store.flash.fscb[2], pddb::fscb::seal_free_record(&key, 2, &[0xa2; 12]));
    assert_eq!(store.arena[2], SlotUse::Free(work));
    // no block is left for slot 6
    assert_eq!(store.flash.fscb[6], before.fscb[6]);
    assert_eq!(store.arena[6], SlotUse::Free(work));
    assert_eq!(store.flash.ptes[5], before.ptes[5]);
    assert_eq!(store.flash.pages, before.pages);
    assert_eq!(store.flash.staging, before.staging);
    let queue: Vec<u32> = store.bases[work].free.queue.iter().copied().collect();
    assert_eq!(queue, vec![0, 6, 2]);
    assert_eq!(store.read_page(work, 0x1000).unwrap(), b"high".to_vec());
    // nothing to do without blocks, and nothing for a handle that is not open
    let unchanged = store.flash.clone();
    assert_eq!(store.compact_with(work, &[]), 0);
    assert_eq!(store.compact_with(9, &[first]), 0);
    assert_eq!(store.flash.fscb, unchanged.fscb);
    assert_eq!(store.flash.ptes, unchanged.ptes);
}

#[test]
fn compaction_leaves_a_slot_orphaned_when_its_noise_decodes() {
    let mut store = Pddb::format(8).unwrap();
    let key = derive_key(b"work", b"password one");
    let low = make_commit(b"low", &key, 2, 0x1000, 4, &[1u8; 12], 5);
    let high = make_commit(b"high", &key, 5, 0x1000, 9, &[2u8; 12], 6);
    store.flash.pages[2] = low.page.clone();
    store.flash.ptes[2] = low.pte;
    store.flash.pages[5] = high.page.clone();
    store.flash.ptes[5] = high.pte;
    let work = store.unlock(b"work", b"password one").unwrap();
    let before = store.flash.clone();
    let mut block = [0u8; 64];
    block[..16].copy_from_slice(&low.pte);
    assert_eq!(store.compact_with(work, &[block]), 0);
    assert_eq!(store.arena[2], SlotUse::Orphaned(work));
    assert_eq!(store.flash.ptes, before.ptes);
    assert_eq!(store.flash.fscb, before.fscb);
    assert_eq!(store.free_pages(work), 0);
}

#[test]
fn allocate_for_maps_the_address_to_a_slot_that_is_not_live() {
    let (mut store, work) = store_with_work();
    let personal = store.create(b"personal", b"password two", 8, 8).unwrap();
    store.write_page(personal, 0x2000, b"other").unwrap();
    store.write_page(work, 0x1000, b"first").unwrap();
    store.delete_page(work, 0x1000).unwrap();
    let live: Vec<usize> = (0..16).filter(|p| matches!(store.arena[*p], SlotUse::Live(_, _))).collect();
    let expected = store.bases[work].free.queue[0];
    let slot = store.allocate_for(work, 0x3000).unwrap();
    assert_eq!(slot, expected);
    assert!(!live.contains(&(slot as usize)));
    assert_eq!(store.resolve(work, 0x3000), Some(slot));
    assert_eq!(store.read_page(work, 0x3000).unwrap(), Vec::<u8>::new());
    assert_eq!(store.resolve(work, 0x1000), None);
    assert_eq!(store.read_page(personal, 0x2000).unwrap(), b"other".to_vec());
    // a second slot for the same address is never the one it has
    let next = store.allocate_for_with(work, 0x3000, &[5u8; 64]).unwrap();
    assert_ne!(next, slot);
    assert_eq!(store.resolve(work, 0x3000), Some(next));
    assert_eq!(store.revision(work, 0x3000), Some(1));
    assert_eq!(store.allocate_for(7, 0x3000), Err(PddbError::NotFound));
    assert_eq!(remount_and_read(&store.flash, 0x3000).unwrap(), Vec::<u8>::new());
}

#[test]
fn allocate_for_fails_as_a_write_does() {
    let mut store = Pddb::format(4).unwrap();
    let work = store.create(b"work", b"password one", 0, 1).unwrap();
    assert_eq!(store.allocate_for(work, 1), Ok(0));
    assert_eq!(store.allocate_for(work, 2), Err(PddbError::OutOfSpace));
    assert_eq!(store.allocate_for_with(work, 2, &[1u8; 64]), Err(PddbError::OutOfSpace));
    assert_eq!(store.resolve(work, 2), None);
}

fn block(noise: u8, nonce: u8) -> [u8; 64] {
    let mut b = [noise; 64];
    b[16..28].copy_from_slice(&[nonce; 12]);
    b
}

#[test]
fn creation_grants_the_slots_of_the_range_with_their_blocks() {
    let mut store = Pddb::format(6).unwrap();
    let key = derive_key(b"work", b"password one");
    let taken = make_commit(b"there", &key, 3, 0x1000, 0, &[1u8; 12], 5);
    store.flash.pages[3] = taken.page.clone();
    store.flash.ptes[3] = taken.pte;
    let before = store.flash.clone();
    // slots 2, 3, 4 are asked for; slot 3 holds a page of the basis already,
    // and the noise for slot 4 decodes
    let mut decoding = block(0, 0xc3);
    decoding[..16].copy_from_slice(&pddb::pte::encode(0x9000, pddb::flags::PtFlags::clean(), 1, &key, 4));
    let blocks = [block(0x21, 0xc1), block(0x22, 0xc2), decoding];
    let work = store.create_with(b"work", b"password one", 2, 3, &blocks).unwrap();
    assert_eq!(store.arena[2], SlotUse::Free(work));
    assert_eq!(store.flash.ptes[2], [0x21u8; 16]);
    assert_eq!(store.flash.fscb[2], pddb::fscb::seal_free_record(&key, 2, &[0xc1; 12]));
    assert_eq!(store.arena[3], SlotUse::Live(work, 0x1000));
    assert_eq!(store.flash.ptes[3], before.ptes[3]);
    assert_eq!(store.flash.fscb[3], before.fscb[3]);
    assert_eq!(store.arena[4], SlotUse::Orphaned(work));
    assert_eq!(store.flash.ptes[4], before.ptes[4]);
    assert_eq!(store.flash.fscb[4], before.fscb[4]);
    assert_eq!(store.arena[5], SlotUse::Opaque);
    assert_eq!(store.flash.pages, before.pages);
    let queue: Vec<u32> = store.bases[work].free.queue.iter().copied().collect();
    assert_eq!(queue, vec![2]);
    assert_eq!(store.read_page(work, 0x1000).unwrap(), b"there".to_vec());
}

#[test]
fn creation_without_a_page_is_out_of_space_and_leaves_no_trace() {
    let mut store = Pddb::format(4).unwrap();
    let before = store.flash.clone();
    assert_eq!(store.create(b"work", b"pw", 4, 3), Err(PddbError::OutOfSpace));
    assert_eq!(store.create(b"work", b"pw", 0, 0), Err(PddbError::OutOfSpace));
    assert_eq!(store.create_with(b"work", b"pw", 1, 2, &[]), Err(PddbError::OutOfSpace));
    let key = derive_key(b"work", b"pw");
    let mut decoding = [0u8; 64];
    decoding[..16].copy_from_slice(&pddb::pte::encode(0x9000, pddb::flags::PtFlags::clean(), 1, &key, 1));
    assert_eq!(store.create_under(key, 1, 1, &[decoding]), Err(PddbError::OutOfSpace));
    assert_eq!(store.bases.len(), 0);
    assert!(store.arena.iter().all(|slot| *slot == SlotUse::Opaque));
    assert_eq!(store.flash.ptes, before.ptes);
    assert_eq!(store.flash.fscb, before.fscb);
    assert_eq!(store.flash.pages, before.pages);
    assert_eq!(store.flash.staging, before.staging);
    // a range that reaches past the end is cut at the end
    let work = store.create(b"work", b"pw", 2, 100).unwrap();
    assert_eq!(store.free_pages(work), 2);
}

#[test]
fn every_prefix_of_the_writes_of_a_write_remounts_to_old_or_new() {
    let (mut store, work) = store_with_work();
    store.write_page(work, 0x1000, b"old").unwrap();
    store.write_page(work, 0x2000, b"bystander").unwrap();
    let before = store.flash.clone();
    let old_slot = store.resolve(work, 0x1000);
    store.write_page_with(work, 0x1000, b"new", &[0x42u8; 64]).unwrap();
    let slot = store.resolve(work, 0x1000).unwrap();
    let order = pddb::writes::write_order(&store.flash, slot, old_slot);
    assert_eq!(order.len(), 5);
    assert!(matches!(order[0], pddb::writes::FlashWrite::Staging(_)));
    assert_eq!(order[1], pddb::writes::FlashWrite::Page(slot, store.flash.pages[slot as usize].clone()));
    assert_eq!(order[2], pddb::writes::FlashWrite::Entry(slot, store.flash.ptes[slot as usize]));
    assert_eq!(order[3], pddb::writes::FlashWrite::Entry(old_slot.unwrap(), [0x42u8; 16]));
    assert!(matches!(order[4], pddb::writes::FlashWrite::Record(p, _) if Some(p) == old_slot));
    let mut image = before.clone();
    assert_eq!(remount_and_read(&image, 0x1000).unwrap(), b"old".to_vec());
    for write in order.iter() {
        assert!(image.apply(write));
        assert_eq!(remount_and_read(&image, 0x1000).unwrap(), b"new".to_vec());
        assert_eq!(remount_and_read(&image, 0x2000).unwrap(), b"bystander".to_vec());
    }
    assert_eq!(image.ptes, store.flash.ptes);
    assert_eq!(image.pages, store.flash.pages);
    assert_eq!(image.fscb, store.flash.fscb);
    assert_eq!(image.staging, store.flash.staging);
    // a first write of an address replaces no slot
    store.write_page(work, 0x5000, b"fresh").unwrap();
    let slot = store.resolve(work, 0x5000).unwrap();
    assert_eq!(pddb::writes::write_order(&store.flash, slot, None).len(), 3);
    assert!(pddb::writes::write_order(&store.flash, 99, None).is_empty());
    assert!(!image.apply(&pddb::writes::FlashWrite::Entry(99, [0u8; 16])));
    assert!(!image.apply(&pddb::writes::FlashWrite::Page(0, vec![0u8; 10])));
}

#[test]
fn a_write_takes_the_front_of_the_queue_and_gives_the_old_slot_to_the_back() {
    let (mut store, work) = store_with_work();
    store.write_page(work, 0x1000, b"one").unwrap();
    let old_slot = store.resolve(work, 0x1000).unwrap();
    let queue: Vec<u32> = store.bases[work].free.queue.iter().copied().collect();
    let arena = store.arena.clone();
    store.write_page_with(work, 0x1000, b"two", &[0x37u8; 64]).unwrap();
    let slot = store.resolve(work, 0x1000).unwrap();
    assert_eq!(slot, queue[0]);
    let mut expected: Vec<u32> = queue[1..].to_vec();
    expected.push(old_slot);
    let after: Vec<u32> = store.bases[work].free.queue.iter().copied().collect();
    assert_eq!(after, expected);
    for p in 0..16usize {
        if p == slot as usize {
            assert_eq!(store.arena[p], SlotUse::Live(work, 0x1000));
        } else if p == old_slot as usize {
            assert_eq!(store.arena[p], SlotUse::Free(work));
        } else {
            assert_eq!(store.arena[p], arena[p]);
        }
    }
    assert_eq!(store.flash.ptes[old_slot as usize], [0x37u8; 16]);
    let key = derive_key(b"work", b"password one");
    assert_eq!(
        store.flash.fscb[old_slot as usize],
        pddb::fscb::seal_free_record(&key, old_slot, &[0x37u8; 12])
    );
}

#[test]
fn a_delete_gives_the_slot_to_the_back_of_the_queue() {
    let (mut store, work) = store_with_work();
    store.write_page(work, 0x1000, b"one").unwrap();
    let slot = store.resolve(work, 0x1000).unwrap();
    let queue: Vec<u32> = store.bases[work].free.queue.iter().copied().collect();
    let before = store.flash.clone();
    let mut entropy = [0x44u8; 64];
    entropy[16..28].copy_from_slice(&[0x55u8; 12]);
    store.delete_page_with(work, 0x1000, &entropy).unwrap();
    let mut expected = queue.clone();
    expected.push(slot);
    let after: Vec<u32> = store.bases[work].free.queue.iter().copied().collect();
    assert_eq!(after, expected);
    let key = derive_key(b"work", b"password one");
    for p in 0..16usize {
        if p == slot as usize {
            assert_eq!(store.flash.ptes[p], [0x44u8; 16]);
            assert_eq!(store.flash.fscb[p], pddb::fscb::seal_free_record(&key, slot, &[0x55u8; 12]));
        } else {
            assert_eq!(store.flash.ptes[p], before.ptes[p]);
            assert_eq!(store.flash.fscb[p], before.fscb[p]);
        }
    }
    assert_eq!(store.flash.pages, before.pages);
    assert_eq!(pddb::mbbb::open_staging(&store.flash.staging, &key).unwrap().slot, u32::MAX);
}

#[test]
fn a_mount_leaves_the_slots_it_cannot_open_to_nobody() {
    let (mut store, work) = store_with_work();
    store.write_page(work, 0x1000, b"one").unwrap();
    store.lock(work);
    let mut again = Pddb::new(store.flash.clone()).unwrap();
    let work = again.unlock(b"work", b"password one").unwrap();
    for p in 0..8usize {
        assert!(again.arena[p] != SlotUse::Opaque);
    }
    for p in 8..16usize {
        assert_eq!(again.arena[p], SlotUse::Opaque);
    }
    assert_eq!(again.free_pages(work), 7);
}
