use pddb::flags::PtFlags;
use pddb::key::derive_key;
use pddb::page::{decrypt, encrypt, encrypt_with_nonce, EncryptedPageRecord, PAGE_SIZE};
use pddb::pte::{decode, encode, fast_classify, pack, Pte};

#[test]
fn page_round_trip_returns_plaintext_and_revision() {
    let key = derive_key(b"work", b"correct horse");
    let plaintext: Vec<u8> = (0..4000u32).map(|i| (i % 251) as u8).collect();
    let record = encrypt(&plaintext, &key, 7, 3).unwrap();
    let (payload, rev) = decrypt(&record, &key, 7).unwrap();
    assert_eq!(payload, plaintext);
    assert_eq!(rev, 3);
}

#[test]
fn page_record_fills_a_page() {
    let key = derive_key(b"work", b"correct horse");
    let record = encrypt_with_nonce(b"abc", &key, 1, 0, &[9u8; 12]);
    let bytes = record.to_bytes();
    assert_eq!(bytes.len(), PAGE_SIZE);
    assert_ne!(&bytes[16..19], b"abc");
    let again = EncryptedPageRecord::from_bytes(&bytes).unwrap();
    let (payload, rev) = decrypt(&again, &key, 1).unwrap();
    assert_eq!(payload, b"abc".to_vec());
    assert_eq!(rev, 0);
}

#[test]
fn page_does_not_open_in_another_slot_or_under_another_key() {
    let key = derive_key(b"work", b"correct horse");
    let other = derive_key(b"personal", b"battery staple");
    let record = encrypt_with_nonce(b"secret", &key, 5, 1, &[1u8; 12]);
    assert!(decrypt(&record, &key, 6).is_err());
    assert!(decrypt(&record, &other, 5).is_err());
    assert!(decrypt(&record, &key, 5).is_ok());
}

#[test]
fn pte_round_trip_preserves_address_and_flags() {
    let key = derive_key(b"work", b"correct horse");
    let block = encode(0x1000, PtFlags::clean(), 0xdead_beef, &key, 42);
    assert!(fast_classify(&block, &key, 42));
    assert_eq!(
        decode(&block, &key, 42),
        Some(Pte { addr: 0x1000, flags: PtFlags::clean(), nonce: 0xdead_beef })
    );
    assert_eq!(decode(&block, &key, 43), None);
    let other = derive_key(b"personal", b"battery staple");
    assert_eq!(decode(&block, &other, 42), None);
}

#[test]
fn encoded_entry_is_not_the_packed_entry() {
    let key = derive_key(b"work", b"correct horse");
    let pte = Pte { addr: 0x1000, flags: PtFlags::clean(), nonce: 1 };
    let block = encode(pte.addr, pte.flags, pte.nonce, &key, 3);
    assert_ne!(block, pack(&pte, 3));
    assert_ne!(block, encode(pte.addr, pte.flags, 2, &key, 3));
    assert_eq!(block, encode(pte.addr, pte.flags, 1, &key, 3));
}

#[test]
fn key_derivation_is_pbkdf2_with_hmac_sha256() {
    let key = derive_key(b"salt", b"password");
    let expected: [u8; 32] = [
        0xc5, 0xe4, 0x78, 0xd5, 0x92, 0x88, 0xc8, 0x41, 0xaa, 0x53, 0x0d, 0xb6, 0x84, 0x5c, 0x4c,
        0x8d, 0x96, 0x28, 0x93, 0xa0, 0x01, 0xce, 0x4e, 0x11, 0xa4, 0x96, 0x38, 0x73, 0xaa, 0x98,
        0x13, 0x4a,
    ];
    assert_eq!(key.table, expected);
    assert_ne!(key.data, expected);
}

#[test]
fn random_noise_does_not_open() {
    let key = derive_key(b"work", b"correct horse");
    let flash = pddb::flash::Flash::noise(8).unwrap();
    for slot in 0..8u32 {
        assert!(pddb::page::decrypt_page(&flash.pages[slot as usize], &key, slot).is_err());
        assert!(flash.probe_slot(&key, slot).is_err());
        assert_eq!(decode(&flash.ptes[slot as usize], &key, slot), None);
    }
    assert!(pddb::mbbb::open_staging(&flash.staging, &key).is_none());
}

#[test]
fn ten_thousand_random_records_do_not_authenticate() {
    let key = derive_key(b"work", b"correct horse");
    let noise = pddb::flash::random_bytes(10_000 * 48).unwrap();
    for (i, chunk) in noise.chunks(48).enumerate() {
        let slot = (i % 64) as u32;
        let record: [u8; 32] = chunk[..32].try_into().unwrap();
        let block: [u8; 16] = chunk[32..].try_into().unwrap();
        assert!(!pddb::fscb::free_record_opens(&record, &key, slot));
        assert_eq!(decode(&block, &key, slot), None);
    }
}
