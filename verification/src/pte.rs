//! The page table entry and its codec.
//!
//! An entry is sixteen bytes, one cipher block: six of virtual address, one
//! of flags, one reserved and zero, four of nonce, four of weak checksum. The
//! checksum covers the twelve bytes before it and is seeded with the index of
//! the slot, so an entry copied to another slot no longer matches. Each slot
//! is encrypted by itself: a slot that holds noise, or an entry of another
//! basis, decrypts to noise.

use vstd::prelude::*;
use crate::bytes::le_u32;
use crate::bytes::le_u48;
use crate::bytes::lemma_le_u32_round_trip;
use crate::bytes::lemma_le_u48_round_trip;
use crate::bytes::lemma_u32_le_round_trip;
use crate::bytes::lemma_u48_le_round_trip;
use crate::bytes::u32_from_le;
use crate::bytes::u32_le;
use crate::bytes::u32_to_le;
use crate::bytes::u48_from_le;
use crate::bytes::u48_le;
use crate::bytes::u48_to_le;
use crate::checksum::lemma_checksum_detects_single_change;
use crate::checksum::spec_weak_checksum;
use crate::checksum::weak_checksum;
use crate::cipher::aes256_decrypt_block;
use crate::cipher::aes256_decrypted;
use crate::cipher::aes256_encrypt_block;
use crate::cipher::aes256_encrypted;
use crate::flags::PtFlags;
use crate::key::BasisKey;

verus! {

/// Length in bytes of an entry, packed or encrypted.
pub const PTE_LEN: usize = 16;

/// One more than the largest virtual address.
pub const VIRT_LIMIT: u64 = 0x1_0000_0000_0000;

/// A page table entry: the address map of one physical page.
#[derive(Clone, Copy, Debug, PartialEq, Eq, Structural)]
pub struct Pte {
    /// The virtual address, 48 bits long.
    pub addr: u64,
    pub flags: PtFlags,
    /// Keeps two entries with the same address and flags from encrypting to
    /// the same block.
    pub nonce: u32,
}

impl Pte {
    /// True when the entry fits its packed form.
    pub open spec fn wf(self) -> bool {
        &&& self.addr < VIRT_LIMIT
        &&& PtFlags::valid_bits(self.flags.bits)
    }
}

/// The checksum of the first twelve bytes of `block`, seeded with `slot`.
pub open spec fn block_checksum(block: Seq<u8>, slot: u32) -> u32 {
    spec_weak_checksum(
        le_u32(block[0], block[1], block[2], block[3]),
        le_u32(block[4], block[5], block[6], block[7]),
        le_u32(block[8], block[9], block[10], block[11]),
        slot,
    )
}

/// The checksum that `block` carries in its last four bytes.
pub open spec fn stored_checksum(block: Seq<u8>) -> u32 {
    le_u32(block[12], block[13], block[14], block[15])
}

/// True when `block` carries the checksum of its first twelve bytes.
pub open spec fn checksum_matches(block: Seq<u8>, slot: u32) -> bool {
    stored_checksum(block) == block_checksum(block, slot)
}

/// The twelve bytes that the checksum covers.
pub open spec fn spec_pack_fields(pte: Pte) -> Seq<u8> {
    u48_le(pte.addr) + seq![pte.flags.bits, 0u8] + u32_le(pte.nonce)
}

/// The sixteen bytes of `pte` in slot `slot`.
#[verifier::opaque]
pub open spec fn spec_pack(pte: Pte, slot: u32) -> Seq<u8> {
    spec_pack_fields(pte) + u32_le(block_checksum(spec_pack_fields(pte), slot))
}

/// The entry that sixteen bytes spell in slot `slot`, if the checksum
/// matches, the reserved byte is zero and the flags are known.
#[verifier::opaque]
pub open spec fn spec_unpack(block: Seq<u8>, slot: u32) -> Option<Pte> {
    if checksum_matches(block, slot) && block[7] == 0 && PtFlags::valid_bits(block[6]) {
        Some(
            Pte {
                addr: le_u48(block[0], block[1], block[2], block[3], block[4], block[5]),
                flags: PtFlags { bits: block[6] },
                nonce: le_u32(block[8], block[9], block[10], block[11]),
            },
        )
    } else {
        None
    }
}

/// The encrypted slot of `pte` under `key`.
pub open spec fn spec_encode(pte: Pte, key: BasisKey, slot: u32) -> Seq<u8> {
    aes256_encrypted(key.table@, spec_pack(pte, slot))
}

/// The entry that an encrypted slot holds for `key`, if any.
pub open spec fn spec_decode(ciphertext: Seq<u8>, key: BasisKey, slot: u32) -> Option<Pte> {
    spec_unpack(aes256_decrypted(key.table@, ciphertext), slot)
}

/// True when the slot passes the checksum filter for `key`.
pub open spec fn spec_fast_classify(ciphertext: Seq<u8>, key: BasisKey, slot: u32) -> bool {
    checksum_matches(aes256_decrypted(key.table@, ciphertext), slot)
}

/// Unpacking what was packed gives the entry back.
pub proof fn lemma_pack_unpack(pte: Pte, slot: u32)
    requires
        pte.wf(),
    ensures
        spec_pack(pte, slot).len() == PTE_LEN,
        spec_unpack(spec_pack(pte, slot), slot) == Some(pte),
{
    reveal(spec_pack);
    reveal(spec_unpack);
    let fields = spec_pack_fields(pte);
    let sum = block_checksum(fields, slot);
    let block = spec_pack(pte, slot);
    lemma_u48_le_round_trip(pte.addr);
    lemma_u32_le_round_trip(pte.nonce);
    lemma_u32_le_round_trip(sum);
    assert(fields.len() == 12);
    assert forall|i: int| 0 <= i < 12 implies block[i] == fields[i] by {}
    assert(block[0] == u48_le(pte.addr)[0] && block[1] == u48_le(pte.addr)[1] && block[2]
        == u48_le(pte.addr)[2] && block[3] == u48_le(pte.addr)[3] && block[4] == u48_le(
        pte.addr,
    )[4] && block[5] == u48_le(pte.addr)[5]);
    assert(block[6] == pte.flags.bits && block[7] == 0);
    assert(block[8] == u32_le(pte.nonce)[0] && block[9] == u32_le(pte.nonce)[1] && block[10]
        == u32_le(pte.nonce)[2] && block[11] == u32_le(pte.nonce)[3]);
    assert(block[12] == u32_le(sum)[0] && block[13] == u32_le(sum)[1] && block[14] == u32_le(
        sum,
    )[2] && block[15] == u32_le(sum)[3]);
    assert(block_checksum(block, slot) == sum);
}

/// Only one block unpacks to a given entry: the one that packing it gives.
pub proof fn lemma_unpack_pack(block: Seq<u8>, slot: u32)
    requires
        block.len() == PTE_LEN,
        spec_unpack(block, slot) is Some,
    ensures
        spec_unpack(block, slot)->0.wf(),
        spec_pack(spec_unpack(block, slot)->0, slot) == block,
{
    reveal(spec_pack);
    reveal(spec_unpack);
    let pte = spec_unpack(block, slot)->0;
    lemma_le_u48_round_trip(block[0], block[1], block[2], block[3], block[4], block[5]);
    lemma_le_u32_round_trip(block[8], block[9], block[10], block[11]);
    lemma_le_u32_round_trip(block[12], block[13], block[14], block[15]);
    let fields = spec_pack_fields(pte);
    assert(fields =~= block.subrange(0, 12));
    assert(block_checksum(fields, slot) == block_checksum(block, slot));
    assert(spec_pack(pte, slot) =~= block);
}

/// Whatever decodes also passes the checksum filter: the filter never
/// rejects an entry that a full decode would accept.
pub proof fn lemma_filter_has_no_false_negative(ciphertext: Seq<u8>, key: BasisKey, slot: u32)
    requires
        spec_decode(ciphertext, key, slot) is Some,
    ensures
        spec_fast_classify(ciphertext, key, slot),
{
    reveal(spec_unpack);
}

/// Four bytes that spell the same number are the same bytes.
pub proof fn lemma_le_u32_injective(a: Seq<u8>, b: Seq<u8>)
    requires
        a.len() == 4,
        b.len() == 4,
        le_u32(a[0], a[1], a[2], a[3]) == le_u32(b[0], b[1], b[2], b[3]),
    ensures
        a == b,
{
    lemma_le_u32_round_trip(a[0], a[1], a[2], a[3]);
    lemma_le_u32_round_trip(b[0], b[1], b[2], b[3]);
    assert(a =~= seq![a[0], a[1], a[2], a[3]]);
    assert(b =~= seq![b[0], b[1], b[2], b[3]]);
}

/// An entry that is moved to a slot with another index no longer carries
/// the right checksum.
pub proof fn lemma_moved_entry_is_rejected(block: Seq<u8>, slot: u32, other: u32)
    requires
        checksum_matches(block, slot),
        slot != other,
    ensures
        !checksum_matches(block, other),
        spec_unpack(block, other) is None,
{
    reveal(spec_unpack);
    lemma_checksum_detects_single_change(
        le_u32(block[0], block[1], block[2], block[3]),
        le_u32(block[4], block[5], block[6], block[7]),
        le_u32(block[8], block[9], block[10], block[11]),
        slot,
        le_u32(block[0], block[1], block[2], block[3]),
        le_u32(block[4], block[5], block[6], block[7]),
        le_u32(block[8], block[9], block[10], block[11]),
        other,
    );
}

/// An entry of which one word of the twelve covered bytes has changed, by
/// one bit or by more, no longer carries the right checksum. `word` says
/// which of the three words holds the change.
pub proof fn lemma_changed_entry_is_rejected(block: Seq<u8>, changed: Seq<u8>, slot: u32, word: int)
    requires
        block.len() == PTE_LEN,
        changed.len() == PTE_LEN,
        checksum_matches(block, slot),
        0 <= word < 3,
        forall|i: int|
            0 <= i < PTE_LEN && !(4 * word <= i < 4 * word + 4) ==> changed[i] == block[i],
        changed != block,
    ensures
        !checksum_matches(changed, slot),
        spec_unpack(changed, slot) is None,
{
    reveal(spec_unpack);
    let w = |b: Seq<u8>, k: int| le_u32(b[4 * k], b[4 * k + 1], b[4 * k + 2], b[4 * k + 3]);
    if w(block, word) == w(changed, word) {
        lemma_le_u32_injective(
            block.subrange(4 * word, 4 * word + 4),
            changed.subrange(4 * word, 4 * word + 4),
        );
        assert forall|i: int| 0 <= i < PTE_LEN implies changed[i] == block[i] by {
            if 4 * word <= i < 4 * word + 4 {
                assert(block.subrange(4 * word, 4 * word + 4)[i - 4 * word] == block[i]);
                assert(changed.subrange(4 * word, 4 * word + 4)[i - 4 * word] == changed[i]);
            }
        }
        assert(changed =~= block);
    }
    lemma_checksum_detects_single_change(
        w(block, 0),
        w(block, 1),
        w(block, 2),
        slot,
        w(changed, 0),
        w(changed, 1),
        w(changed, 2),
        slot,
    );
}

/// Packs `pte` for slot `slot`.
pub fn pack(pte: &Pte, slot: u32) -> (block: [u8; 16])
    requires
        pte.wf(),
    ensures
        block@ == spec_pack(*pte, slot),
        spec_unpack(block@, slot) == Some(*pte),
{
    let a: [u8; 6] = u48_to_le(pte.addr);
    let n: [u8; 4] = u32_to_le(pte.nonce);
    let w0: u32 = u32_from_le(a[0], a[1], a[2], a[3]);
    let w1: u32 = u32_from_le(a[4], a[5], pte.flags.bits, 0);
    let w2: u32 = u32_from_le(n[0], n[1], n[2], n[3]);
    let sum: u32 = weak_checksum(w0, w1, w2, slot);
    let c: [u8; 4] = u32_to_le(sum);
    let block: [u8; 16] = [
        a[0],
        a[1],
        a[2],
        a[3],
        a[4],
        a[5],
        pte.flags.bits,
        0,
        n[0],
        n[1],
        n[2],
        n[3],
        c[0],
        c[1],
        c[2],
        c[3],
    ];
    proof {
        reveal(spec_pack);
        let fields = spec_pack_fields(*pte);
        assert(fields =~= block@.subrange(0, 12));
        assert(block_checksum(fields, slot) == sum);
        assert(block@ =~= spec_pack(*pte, slot));
        lemma_pack_unpack(*pte, slot);
    }
    block
}

/// Checks whether `block` carries the checksum of its first twelve bytes.
pub fn checksum_ok(block: &[u8; 16], slot: u32) -> (ok: bool)
    ensures
        ok == checksum_matches(block@, slot),
{
    let w0: u32 = u32_from_le(block[0], block[1], block[2], block[3]);
    let w1: u32 = u32_from_le(block[4], block[5], block[6], block[7]);
    let w2: u32 = u32_from_le(block[8], block[9], block[10], block[11]);
    let stored: u32 = u32_from_le(block[12], block[13], block[14], block[15]);
    stored == weak_checksum(w0, w1, w2, slot)
}

/// Unpacks the entry that `block` spells in slot `slot`.
pub fn unpack(block: &[u8; 16], slot: u32) -> (pte: Option<Pte>)
    ensures
        pte == spec_unpack(block@, slot),
        pte is Some ==> pte->0.wf(),
{
    proof {
        reveal(spec_unpack);
    }
    if !checksum_ok(block, slot) || block[7] != 0 {
        return None;
    }
    match PtFlags::from_bits(block[6]) {
        None => None,
        Some(flags) => {
            proof {
                lemma_le_u48_round_trip(block[0], block[1], block[2], block[3], block[4], block[5]);
            }
            Some(
                Pte {
                    addr: u48_from_le(block[0], block[1], block[2], block[3], block[4], block[5]),
                    flags,
                    nonce: u32_from_le(block[8], block[9], block[10], block[11]),
                },
            )
        },
    }
}

/// Encodes an entry for slot `slot`: packs the fields, computes the checksum
/// over them and encrypts the block under the table key of the basis.
/// Decoding the result under the same key and slot gives the entry back.
pub fn encode(virtual_addr: u64, flags: PtFlags, nonce: u32, key: &BasisKey, slot: u32) -> (ciphertext:
    [u8; 16])
    requires
        virtual_addr < VIRT_LIMIT,
        PtFlags::valid_bits(flags.bits),
    ensures
        ciphertext@ == spec_encode(Pte { addr: virtual_addr, flags, nonce }, *key, slot),
        spec_decode(ciphertext@, *key, slot) == Some(Pte { addr: virtual_addr, flags, nonce }),
        spec_fast_classify(ciphertext@, *key, slot),
{
    let pte = Pte { addr: virtual_addr, flags, nonce };
    let block: [u8; 16] = pack(&pte, slot);
    let ciphertext: [u8; 16] = aes256_encrypt_block(&key.table, &block);
    proof {
        lemma_filter_has_no_false_negative(ciphertext@, *key, slot);
    }
    ciphertext
}

/// Decodes the slot under a candidate key. `None` says only that the slot
/// holds no entry for this key: a wrong key, a free slot and an entry of
/// another basis cannot be told apart.
pub fn decode(ciphertext: &[u8; 16], candidate_key: &BasisKey, slot: u32) -> (pte: Option<Pte>)
    ensures
        pte == spec_decode(ciphertext@, *candidate_key, slot),
        pte is Some ==> pte->0.wf(),
        pte is Some ==> spec_encode(pte->0, *candidate_key, slot) == ciphertext@,
{
    let block: [u8; 16] = aes256_decrypt_block(&candidate_key.table, ciphertext);
    let pte = unpack(&block, slot);
    proof {
        if pte is Some {
            lemma_unpack_pack(block@, slot);
        }
    }
    pte
}

/// The cheap filter of a table scan: decrypts the block and compares the
/// checksum, nothing else. It may accept a slot that does not decode; it
/// never rejects one that does.
pub fn fast_classify(ciphertext: &[u8; 16], key: &BasisKey, slot: u32) -> (candidate: bool)
    ensures
        candidate == spec_fast_classify(ciphertext@, *key, slot),
        spec_decode(ciphertext@, *key, slot) is Some ==> candidate,
{
    let block: [u8; 16] = aes256_decrypt_block(&key.table, ciphertext);
    proof {
        if spec_decode(ciphertext@, *key, slot) is Some {
            lemma_filter_has_no_false_negative(ciphertext@, *key, slot);
        }
    }
    checksum_ok(&block, slot)
}

} // verus!
