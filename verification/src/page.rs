//! The codec of one physical page.
//!
//! A page on flash is a record of exactly [`PAGE_SIZE`] bytes: a nonce in the
//! clear, then the journal revision and the payload, sealed together, then
//! the authentication tag. The tag is bound to the nonce and, as associated
//! data, to the index of the physical slot, so a page copied to another slot
//! does not open there.
//!
//! What is sealed is a frame of fixed length: a header word that holds the
//! journal revision and the length of the payload, the payload, and zeros up
//! to the end. Every record is therefore as long as every other.

use vstd::prelude::*;
use vstd::slice::slice_subrange;
use crate::bytes::append_bytes;
use crate::bytes::append_zeros;
use crate::bytes::le_u32;
use crate::bytes::lemma_u32_le_round_trip;
use crate::bytes::take_array;
use crate::bytes::u32_from_le;
use crate::bytes::u32_le;
use crate::bytes::u32_to_le;
use crate::cipher::gcm_siv_open;
use crate::cipher::gcm_siv_opened;
use crate::cipher::gcm_siv_seal;
use crate::cipher::gcm_siv_sealed;
use crate::cipher::os_entropy;
use crate::cipher::NONCE_LEN;
use crate::error::PddbError;
use crate::key::BasisKey;

verus! {

/// Size in bytes of one physical page of flash.
pub const PAGE_SIZE: usize = 4096;

/// Longest payload of a page: a page less nonce, tag and header.
pub const PAYLOAD_MAX: usize = 4064;

/// Length of the sealed frame: header and payload area.
pub const FRAME_LEN: usize = 4068;

/// Length of what follows the nonce in a record: frame and tag.
pub const SEALED_LEN: usize = 4084;

/// One more than the largest journal revision. The record is exactly one
/// page and the payload may fill all of it but nonce, tag and header, so the
/// length of the payload has to share the four bytes of the header with the
/// revision: twelve bits for the length, twenty for the revision. A page
/// can be rewritten 2^20 times; the write after that fails with
/// `JournalExhausted`.
pub const REV_LIMIT: u32 = 0x10_0000;

/// How many lengths the low part of the header word can tell apart.
pub const HEADER_STEP: u32 = 4096;

/// One page's payload, encrypted: the nonce, in the clear, and what was
/// sealed under it.
#[derive(Debug)]
pub struct EncryptedPageRecord {
    pub nonce: [u8; 12],
    pub sealed: Vec<u8>,
}

/// The associated data of slot `slot`: its index, in four bytes.
pub open spec fn slot_aad(slot: u32) -> Seq<u8> {
    u32_le(slot)
}

/// The header word of a frame.
pub open spec fn spec_header(len: nat, journal_rev: u32) -> u32 {
    (journal_rev * HEADER_STEP + len) as u32
}

/// The frame that holds `plaintext` at revision `journal_rev`.
#[verifier::opaque]
pub open spec fn spec_frame(plaintext: Seq<u8>, journal_rev: u32) -> Seq<u8> {
    u32_le(spec_header(plaintext.len(), journal_rev)) + plaintext + Seq::new(
        (PAYLOAD_MAX - plaintext.len()) as nat,
        |i: int| 0u8,
    )
}

/// Payload and revision of a frame, if its header gives a length that fits.
#[verifier::opaque]
pub open spec fn spec_unframe(frame: Seq<u8>) -> Option<(Seq<u8>, u32)> {
    let header = le_u32(frame[0], frame[1], frame[2], frame[3]);
    let len = header % HEADER_STEP;
    if frame.len() == FRAME_LEN && len <= PAYLOAD_MAX {
        Some((frame.subrange(4, 4 + len), header / HEADER_STEP))
    } else {
        None
    }
}

/// What opening `sealed` under `nonce` for slot `slot` gives: payload and
/// journal revision, or the one error there is.
pub open spec fn spec_open_page(nonce: Seq<u8>, sealed: Seq<u8>, key: BasisKey, slot: u32) -> Result<
    (Seq<u8>, u32),
    PddbError,
> {
    match gcm_siv_opened(key.data@, nonce, slot_aad(slot), sealed) {
        Some(frame) => match spec_unframe(frame) {
            Some(content) => Ok(content),
            None => Err(PddbError::AuthenticationFailure),
        },
        None => Err(PddbError::AuthenticationFailure),
    }
}

/// What the bytes of a flash page hold for `key` in slot `slot`.
pub open spec fn spec_decrypt_page(page: Seq<u8>, key: BasisKey, slot: u32) -> Result<
    (Seq<u8>, u32),
    PddbError,
> {
    if page.len() == PAGE_SIZE {
        spec_open_page(
            page.subrange(0, NONCE_LEN as int),
            page.subrange(NONCE_LEN as int, PAGE_SIZE as int),
            key,
            slot,
        )
    } else {
        Err(PddbError::AuthenticationFailure)
    }
}

impl EncryptedPageRecord {
    /// True when the record fills a page exactly.
    pub open spec fn wf(self) -> bool {
        self.sealed@.len() == SEALED_LEN
    }

    /// The bytes of the record on flash.
    pub open spec fn spec_bytes(self) -> Seq<u8> {
        self.nonce@ + self.sealed@
    }

    /// What the record holds for `key` in slot `slot`.
    pub open spec fn spec_decrypt(self, key: BasisKey, slot: u32) -> Result<(Seq<u8>, u32), PddbError> {
        spec_open_page(self.nonce@, self.sealed@, key, slot)
    }

    /// True when the record is what sealing `plaintext` at `journal_rev`
    /// under `nonce` for slot `slot` gives.
    pub open spec fn is_sealing_of(
        self,
        plaintext: Seq<u8>,
        key: BasisKey,
        slot: u32,
        journal_rev: u32,
        nonce: Seq<u8>,
    ) -> bool {
        &&& self.nonce@ == nonce
        &&& gcm_siv_sealed(key.data@, nonce, slot_aad(slot), spec_frame(plaintext, journal_rev))
            == Some(self.sealed@)
    }

    /// The record as the bytes of one flash page.
    pub fn to_bytes(&self) -> (page: Vec<u8>)
        requires
            self.wf(),
        ensures
            page@ == self.spec_bytes(),
            page@.len() == PAGE_SIZE,
    {
        let mut page: Vec<u8> = Vec::with_capacity(PAGE_SIZE);
        append_bytes(&mut page, self.nonce.as_slice());
        append_bytes(&mut page, self.sealed.as_slice());
        page
    }

    /// The record that the bytes of one flash page spell. Any page-sized
    /// buffer is a record; whether it opens is for `decrypt` to say.
    pub fn from_bytes(page: &[u8]) -> (record: Option<EncryptedPageRecord>)
        ensures
            record is Some <==> page@.len() == PAGE_SIZE,
            record is Some ==> record->0.wf() && record->0.spec_bytes() == page@,
    {
        if page.len() != PAGE_SIZE {
            return None;
        }
        let nonce: [u8; 12] = take_array(page, 0);
        let mut sealed: Vec<u8> = Vec::with_capacity(SEALED_LEN);
        append_bytes(&mut sealed, slice_subrange(page, NONCE_LEN, PAGE_SIZE));
        let record = EncryptedPageRecord { nonce, sealed };
        assert(record.spec_bytes() =~= page@);
        Some(record)
    }
}

/// The header word falls apart into revision and length.
pub proof fn lemma_header_split(len: nat, journal_rev: u32)
    requires
        len <= PAYLOAD_MAX,
        journal_rev < REV_LIMIT,
    ensures
        journal_rev * HEADER_STEP + len <= u32::MAX,
        spec_header(len, journal_rev) % HEADER_STEP == len,
        spec_header(len, journal_rev) / HEADER_STEP == journal_rev,
{
    let h: int = journal_rev * 4096 + len;
    assert(h <= u32::MAX);
    assert(h % 4096 == len as int);
    assert(h / 4096 == journal_rev as int);
}

/// Unframing a frame gives payload and revision back.
pub proof fn lemma_frame_unframe(plaintext: Seq<u8>, journal_rev: u32)
    requires
        plaintext.len() <= PAYLOAD_MAX,
        journal_rev < REV_LIMIT,
    ensures
        spec_frame(plaintext, journal_rev).len() == FRAME_LEN,
        spec_unframe(spec_frame(plaintext, journal_rev)) == Some((plaintext, journal_rev)),
{
    reveal(spec_frame);
    reveal(spec_unframe);
    let header = spec_header(plaintext.len(), journal_rev);
    let head = u32_le(header);
    let frame = spec_frame(plaintext, journal_rev);
    lemma_header_split(plaintext.len(), journal_rev);
    lemma_u32_le_round_trip(header);
    assert(head.len() == 4);
    assert(frame.len() == FRAME_LEN);
    assert(frame[0] == head[0] && frame[1] == head[1] && frame[2] == head[2] && frame[3]
        == head[3]);
    assert(le_u32(frame[0], frame[1], frame[2], frame[3]) == header);
    assert(frame.subrange(4, 4 + plaintext.len() as int) =~= plaintext);
}

/// Builds the frame that holds `plaintext` at revision `journal_rev`.
pub fn frame(plaintext: &[u8], journal_rev: u32) -> (out: Vec<u8>)
    requires
        plaintext@.len() <= PAYLOAD_MAX,
        journal_rev < REV_LIMIT,
    ensures
        out@ == spec_frame(plaintext@, journal_rev),
        out@.len() == FRAME_LEN,
        spec_unframe(out@) == Some((plaintext@, journal_rev)),
{
    proof {
        reveal(spec_frame);
    }
    let len: usize = plaintext.len();
    let header: u32 = journal_rev * HEADER_STEP + len as u32;
    let head: [u8; 4] = u32_to_le(header);
    let mut out: Vec<u8> = Vec::with_capacity(FRAME_LEN);
    append_bytes(&mut out, head.as_slice());
    append_bytes(&mut out, plaintext);
    append_zeros(&mut out, PAYLOAD_MAX - len);
    proof {
        lemma_frame_unframe(plaintext@, journal_rev);
    }
    out
}

/// Takes payload and revision out of a frame.
pub fn unframe(frame: &[u8]) -> (content: Option<(Vec<u8>, u32)>)
    ensures
        match content {
            Some((payload, journal_rev)) => spec_unframe(frame@) == Some((payload@, journal_rev)),
            None => spec_unframe(frame@) is None,
        },
{
    proof {
        reveal(spec_unframe);
    }
    if frame.len() != FRAME_LEN {
        return None;
    }
    let header: u32 = u32_from_le(frame[0], frame[1], frame[2], frame[3]);
    let len: usize = (header % HEADER_STEP) as usize;
    if len > PAYLOAD_MAX {
        return None;
    }
    let mut payload: Vec<u8> = Vec::with_capacity(len);
    append_bytes(&mut payload, slice_subrange(frame, 4, 4 + len));
    assert(payload@ =~= frame@.subrange(4, 4 + len));
    Some((payload, header / HEADER_STEP))
}

/// Opens what follows the nonce of a record.
pub fn open_page(nonce: &[u8; 12], sealed: &[u8], key: &BasisKey, slot: u32) -> (content: Result<
    (Vec<u8>, u32),
    PddbError,
>)
    ensures
        match content {
            Ok((payload, journal_rev)) => spec_open_page(nonce@, sealed@, *key, slot) == Ok::<
                (Seq<u8>, u32),
                PddbError,
            >((payload@, journal_rev)),
            Err(e) => e == PddbError::AuthenticationFailure && spec_open_page(
                nonce@,
                sealed@,
                *key,
                slot,
            ) is Err,
        },
{
    let aad: [u8; 4] = u32_to_le(slot);
    match gcm_siv_open(&key.data, nonce, aad.as_slice(), sealed) {
        None => Err(PddbError::AuthenticationFailure),
        Some(frame) => match unframe(frame.as_slice()) {
            None => Err(PddbError::AuthenticationFailure),
            Some(content) => Ok(content),
        },
    }
}

/// Seals `plaintext` at revision `journal_rev` for slot `slot_index`, under
/// a nonce that the caller has drawn. Decrypting the record with the same
/// key and slot gives `plaintext` and `journal_rev` back.
pub fn encrypt_with_nonce(
    plaintext: &[u8],
    key: &BasisKey,
    slot_index: u32,
    journal_rev: u32,
    nonce: &[u8; 12],
) -> (record: EncryptedPageRecord)
    requires
        plaintext@.len() <= PAYLOAD_MAX,
        journal_rev < REV_LIMIT,
    ensures
        record.wf(),
        record.is_sealing_of(plaintext@, *key, slot_index, journal_rev, nonce@),
        record.spec_decrypt(*key, slot_index) == Ok::<(Seq<u8>, u32), PddbError>(
            (plaintext@, journal_rev),
        ),
{
    let framed: Vec<u8> = frame(plaintext, journal_rev);
    let aad: [u8; 4] = u32_to_le(slot_index);
    match gcm_siv_seal(&key.data, nonce, aad.as_slice(), framed.as_slice()) {
        Some(sealed) => EncryptedPageRecord { nonce: *nonce, sealed },
        None => {
            proof {
                assert(false);
            }
            EncryptedPageRecord { nonce: *nonce, sealed: Vec::new() }
        },
    }
}

/// Seals `plaintext` at revision `journal_rev` for slot `slot_index` under a
/// fresh random nonce. Fails only when the random source does.
pub fn encrypt(plaintext: &[u8], key: &BasisKey, slot_index: u32, journal_rev: u32) -> (record:
    Result<EncryptedPageRecord, PddbError>)
    requires
        plaintext@.len() <= PAYLOAD_MAX,
        journal_rev < REV_LIMIT,
    ensures
        match record {
            Ok(r) => r.wf() && r.is_sealing_of(plaintext@, *key, slot_index, journal_rev, r.nonce@)
                && r.spec_decrypt(*key, slot_index) == Ok::<(Seq<u8>, u32), PddbError>(
                (plaintext@, journal_rev),
            ),
            Err(e) => e == PddbError::EntropyUnavailable,
        },
{
    match os_entropy() {
        None => Err(PddbError::EntropyUnavailable),
        Some(entropy) => {
            let nonce: [u8; 12] = take_array(entropy.as_slice(), 0);
            Ok(encrypt_with_nonce(plaintext, key, slot_index, journal_rev, &nonce))
        },
    }
}

/// Opens a record for slot `slot_index`. The error is the same whether the
/// key is wrong, the slot is free or the bytes are damaged.
pub fn decrypt(record: &EncryptedPageRecord, key: &BasisKey, slot_index: u32) -> (content: Result<
    (Vec<u8>, u32),
    PddbError,
>)
    ensures
        match content {
            Ok((payload, journal_rev)) => record.spec_decrypt(*key, slot_index) == Ok::<
                (Seq<u8>, u32),
                PddbError,
            >((payload@, journal_rev)),
            Err(e) => e == PddbError::AuthenticationFailure && record.spec_decrypt(*key, slot_index)
                is Err,
        },
{
    open_page(&record.nonce, record.sealed.as_slice(), key, slot_index)
}

/// Opens the bytes of one flash page for slot `slot_index`.
pub fn decrypt_page(page: &[u8], key: &BasisKey, slot_index: u32) -> (content: Result<
    (Vec<u8>, u32),
    PddbError,
>)
    ensures
        match content {
            Ok((payload, journal_rev)) => spec_decrypt_page(page@, *key, slot_index) == Ok::<
                (Seq<u8>, u32),
                PddbError,
            >((payload@, journal_rev)),
            Err(e) => e == PddbError::AuthenticationFailure && spec_decrypt_page(
                page@,
                *key,
                slot_index,
            ) is Err,
        },
{
    if page.len() != PAGE_SIZE {
        return Err(PddbError::AuthenticationFailure);
    }
    let nonce: [u8; 12] = take_array(page, 0);
    open_page(&nonce, slice_subrange(page, NONCE_LEN, PAGE_SIZE), key, slot_index)
}

/// A page that opens gives a revision below the limit and a payload that
/// fits.
pub proof fn lemma_revision_bound(page: Seq<u8>, key: BasisKey, slot: u32)
    requires
        spec_decrypt_page(page, key, slot) is Ok,
    ensures
        spec_decrypt_page(page, key, slot)->Ok_0.1 < REV_LIMIT,
        spec_decrypt_page(page, key, slot)->Ok_0.0.len() <= PAYLOAD_MAX,
{
    reveal(spec_unframe);
}

/// A record on flash opens to what the record opens to.
pub proof fn lemma_bytes_decrypt(record: EncryptedPageRecord, key: BasisKey, slot: u32)
    requires
        record.wf(),
    ensures
        spec_decrypt_page(record.spec_bytes(), key, slot) == record.spec_decrypt(key, slot),
{
    let page = record.spec_bytes();
    assert(page.subrange(0, NONCE_LEN as int) =~= record.nonce@);
    assert(page.subrange(NONCE_LEN as int, PAGE_SIZE as int) =~= record.sealed@);
}

} // verus!
