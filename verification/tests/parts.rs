use pddb::bytes::{bytes_equal, u32_from_le, u32_to_le, u48_from_le, u48_to_le};
use pddb::carton::{carton_size, Carton, Envelope, MemoryMessage, MemoryRange, Message};
use pddb::checksum::weak_checksum;
use pddb::error::PddbError;
use pddb::flags::PtFlags;
use pddb::fscb::{free_record_opens, seal_free_record, Fscb};
use pddb::key::derive_key;
use pddb::mbbb::{open_staging, read_staged, seal_commit, seal_void_commit, StagedCommit};
use pddb::page::{frame, unframe, PAGE_SIZE};
use pddb::pte::{pack, unpack, Pte};

#[test]
fn checksum_is_murmur3_of_three_words() {
    assert_eq!(weak_checksum(0, 0, 0, 0), 0xd941_144b);
    assert_eq!(weak_checksum(0x6c6c_6548, 0x7720_2c6f, 0x646c_726f, 0), 0x6a72_8c54);
    assert_eq!(weak_checksum(0x6c6c_6548, 0x7720_2c6f, 0x646c_726f, 42), 0x170b_bbe7);
}

#[test]
fn flipping_one_bit_of_an_entry_changes_its_checksum() {
    let pte = Pte { addr: 0x1000, flags: PtFlags::clean(), nonce: 0xdead_beef };
    let block = pack(&pte, 42);
    assert_eq!(&block[12..], &0xc262_7d29u32.to_le_bytes());
    for bit in 0..96 {
        let mut flipped = block;
        flipped[bit / 8] ^= 1 << (bit % 8);
        assert_eq!(unpack(&flipped, 42), None);
    }
    assert_eq!(unpack(&block, 42), Some(pte));
    assert_eq!(unpack(&block, 41), None);
}

#[test]
fn packed_entry_has_the_fixed_layout() {
    let pte = Pte { addr: 0x0000_a1b2_c3d4_e5f6, flags: PtFlags::clean(), nonce: 0x0102_0304 };
    let block = pack(&pte, 0);
    assert_eq!(&block[..12], &[0xf6, 0xe5, 0xd4, 0xc3, 0xb2, 0xa1, 1, 0, 4, 3, 2, 1]);
}

#[test]
fn little_endian_fields() {
    assert_eq!(u32_to_le(0x0403_0201), [1, 2, 3, 4]);
    assert_eq!(u32_from_le(1, 2, 3, 4), 0x0403_0201);
    assert_eq!(u48_to_le(0x0000_0605_0403_0201), [1, 2, 3, 4, 5, 6]);
    assert_eq!(u48_from_le(1, 2, 3, 4, 5, 6), 0x0000_0605_0403_0201);
    assert_eq!(u32_from_le(0xff, 0xff, 0xff, 0xff), u32::MAX);
    assert!(bytes_equal(b"abc", b"abc"));
    assert!(!bytes_equal(b"abc", b"abd"));
    assert!(!bytes_equal(b"abc", b"ab"));
}

#[test]
fn frame_header_holds_revision_and_length() {
    let framed = frame(b"hello", 3);
    assert_eq!(framed.len(), PAGE_SIZE - 28);
    assert_eq!(&framed[..4], &[0x05, 0x30, 0x00, 0x00]);
    assert_eq!(&framed[4..9], b"hello");
    assert!(framed[9..].iter().all(|b| *b == 0));
    assert_eq!(unframe(&framed), Some((b"hello".to_vec(), 3)));
    let mut long = framed.clone();
    long[0] = 0xff;
    long[1] = 0x3f;
    assert_eq!(unframe(&long), None);
    assert_eq!(unframe(&framed[1..]), None);
}

#[test]
fn flags_behave_as_bit_sets() {
    let mut flags = PtFlags::default();
    assert_eq!(flags, PtFlags::uninitialized());
    assert!(!flags.is_clean());
    flags.insert(PtFlags::clean());
    assert_eq!(flags.bits(), 0b11);
    assert!(flags.contains(PtFlags::clean()));
    assert!(flags.contains(PtFlags::locked()));
    flags.remove(PtFlags::uninitialized());
    assert_eq!(flags, PtFlags::clean());
    assert!(flags.is_clean());
    assert_eq!(PtFlags::from_bits(0b11), Some(PtFlags::all()));
    assert_eq!(PtFlags::from_bits(0b100), None);
    assert_eq!(PtFlags::from_bits_truncate(0b101), PtFlags::clean());
    assert!(PtFlags::empty().is_empty());
    assert_eq!(PtFlags::locked(), PtFlags::empty());
}

#[test]
fn free_queue_is_first_in_first_out() {
    let mut fscb = Fscb::new();
    assert_eq!(fscb.allocate(), Err(PddbError::OutOfSpace));
    fscb.free(3);
    fscb.free(1);
    fscb.free(2);
    assert_eq!(fscb.len(), 3);
    assert!(fscb.contains(1));
    assert!(!fscb.contains(7));
    assert_eq!(fscb.allocate(), Ok(3));
    fscb.free(3);
    assert_eq!(fscb.allocate(), Ok(1));
    assert_eq!(fscb.allocate(), Ok(2));
    assert_eq!(fscb.allocate(), Ok(3));
    assert_eq!(fscb.allocate(), Err(PddbError::OutOfSpace));
}

#[test]
fn free_record_is_bound_to_key_and_slot() {
    let key = derive_key(b"work", b"pw");
    let other = derive_key(b"personal", b"pw");
    let record = seal_free_record(&key, 9, &[7u8; 12]);
    assert_eq!(&record[..12], &[7u8; 12]);
    assert!(free_record_opens(&record, &key, 9));
    assert!(!free_record_opens(&record, &key, 10));
    assert!(!free_record_opens(&record, &other, 9));
    assert!(!free_record_opens(&[0u8; 32], &key, 9));
}

#[test]
fn staged_commit_reads_back_under_its_key_only() {
    let key = derive_key(b"work", b"pw");
    let other = derive_key(b"personal", b"pw");
    let commit = pddb::mbbb::make_commit(b"payload", &key, 3, 0x1000, 2, &[1u8; 12], 9);
    let staged = seal_commit(&commit, &key, &[2u8; 12]);
    assert_eq!(staged.len(), 4144);
    let (copy, addr, rev) = read_staged(&staged, &key).unwrap();
    assert_eq!((copy.slot, addr, rev), (3, 0x1000, 2));
    assert_eq!(copy.page, commit.page);
    assert_eq!(copy.pte, commit.pte);
    assert!(read_staged(&staged, &other).is_none());
    assert!(open_staging(&staged[1..], &key).is_none());
    let mut torn = staged.clone();
    torn[100] ^= 1;
    assert!(open_staging(&torn, &key).is_none());
    let void = seal_void_commit(&key, &[3u8; 12]);
    assert_eq!(open_staging(&void, &key).unwrap().slot, u32::MAX);
    assert!(read_staged(&void, &key).is_none());
    let moved = StagedCommit { slot: 4, pte: commit.pte, page: commit.page.clone() };
    assert!(read_staged(&seal_commit(&moved, &key, &[2u8; 12]), &key).is_none());
}

#[test]
fn key_derivation_depends_on_name_and_password() {
    let a = derive_key(b"work", b"pw");
    let b = derive_key(b"work", b"pw");
    let c = derive_key(b"work", b"pW");
    let d = derive_key(b"Work", b"pw");
    assert_eq!((a.table, a.data), (b.table, b.data));
    assert_ne!(a.table, c.table);
    assert_ne!(a.data, d.data);
    assert_ne!(a.table, a.data);
}

#[test]
fn error_messages() {
    assert_eq!(PddbError::OutOfSpace.message(), "out of space");
    assert_eq!(PddbError::AuthenticationFailure.message(), "authentication failure");
    assert_eq!(PddbError::WrongPassword.message(), "wrong password");
}

#[test]
fn carton_size_rounds_up_to_the_next_granule() {
    assert_eq!(carton_size(1), 4096);
    assert_eq!(carton_size(4095), 4096);
    assert_eq!(carton_size(4096), 8192);
    assert_eq!(carton_size(5000), 8192);
    assert_eq!(carton_size(0), 4096);
}

#[test]
fn carton_messages_pass_the_valid_range() {
    let mut carton = Carton::from_bytes(b"hello", 0x4000_0000);
    assert_eq!(carton.range, MemoryRange { addr: 0x4000_0000, size: 4096 });
    assert_eq!(*carton.valid_range(), MemoryRange { addr: 0x4000_0000, size: 5 });
    assert_eq!(carton.as_bytes(), b"hello");
    let msg = MemoryMessage {
        id: 7,
        buf: MemoryRange { addr: 0x4000_0000, size: 5 },
        offset: None,
        valid: None,
    };
    assert_eq!(carton.lend(2, 7), Envelope { connection: 2, message: Message::Borrow(msg) });
    assert_eq!(
        carton.lend_mut(3, 7),
        Envelope { connection: 3, message: Message::MutableBorrow(msg) }
    );
    assert_eq!(carton.into_message(7), msg);
}

#[test]
fn a_region_is_laid_out_table_pages_log_staging() {
    let pages = 3usize;
    let len = pages * 4144 + 4144;
    let bytes: Vec<u8> = (0..len).map(|i| (i % 253) as u8).collect();
    let flash = pddb::flash::Flash::from_bytes(3, &bytes).unwrap();
    assert!(flash.check());
    assert_eq!(flash.ptes.len(), 3);
    assert_eq!(&flash.ptes[1][..], &bytes[16..32]);
    assert_eq!(&flash.pages[0][..], &bytes[48..48 + 4096]);
    assert_eq!(&flash.pages[2][..], &bytes[48 + 2 * 4096..48 + 3 * 4096]);
    assert_eq!(&flash.fscb[0][..], &bytes[3 * 4112..3 * 4112 + 32]);
    assert_eq!(&flash.fscb[2][..], &bytes[3 * 4112 + 64..3 * 4112 + 96]);
    assert_eq!(&flash.staging[..], &bytes[3 * 4144..]);
    assert!(pddb::flash::Flash::from_bytes(2, &bytes).is_none());
    assert!(pddb::flash::Flash::from_bytes(3, &bytes[1..]).is_none());
    let empty = pddb::flash::Flash::from_bytes(0, &bytes[..4144]).unwrap();
    assert_eq!(empty.ptes.len(), 0);
    assert_eq!(empty.staging.len(), 4144);
}

#[test]
fn a_fresh_region_is_not_constant() {
    let flash = pddb::flash::Flash::noise(2).unwrap();
    assert!(flash.check());
    assert_ne!(flash.pages[0], flash.pages[1]);
    assert_ne!(flash.ptes[0], flash.ptes[1]);
    assert_ne!(flash.pages[0], vec![0u8; 4096]);
    assert_ne!(pddb::flash::random_bytes(100).unwrap(), vec![0u8; 100]);
    assert_eq!(pddb::flash::random_bytes(0).unwrap().len(), 0);
    assert_eq!(pddb::flash::random_bytes(65).unwrap().len(), 65);
}
