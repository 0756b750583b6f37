//! The keys of a basis and how they come from its name and password.

use vstd::prelude::*;
use crate::bytes::take_array;
use crate::cipher::pbkdf2_sha256;
use crate::cipher::pbkdf2_sha256_derived;

verus! {

/// Rounds of PBKDF2 spent on a password.
pub const KDF_ROUNDS: u32 = 4096;

/// The two keys of a basis: one for the entries of the page table, one for
/// pages and every other sealed record.
#[derive(Clone, Copy, Debug)]
pub struct BasisKey {
    pub table: [u8; 32],
    pub data: [u8; 32],
}

/// The key that name and password give: the derived bytes, the first half
/// for the page table, the second for the data.
pub open spec fn spec_derive_key(name: Seq<u8>, password: Seq<u8>) -> (Seq<u8>, Seq<u8>) {
    let derived = pbkdf2_sha256_derived(password, name, KDF_ROUNDS);
    (derived.subrange(0, 32), derived.subrange(32, 64))
}

/// Splits derived bytes into the two keys of a basis.
pub fn split_key(derived: &[u8; 64]) -> (key: BasisKey)
    ensures
        key.table@ == derived@.subrange(0, 32),
        key.data@ == derived@.subrange(32, 64),
{
    let table: [u8; 32] = take_array(derived.as_slice(), 0);
    let data: [u8; 32] = take_array(derived.as_slice(), 32);
    BasisKey { table, data }
}

/// Derives the keys of the basis called `name` from its password. The name
/// salts the derivation, so that one password gives unrelated keys to two
/// bases.
pub fn derive_key(name: &[u8], password: &[u8]) -> (key: BasisKey)
    ensures
        (key.table@, key.data@) == spec_derive_key(name@, password@),
{
    let derived: [u8; 64] = pbkdf2_sha256(password, name, KDF_ROUNDS);
    split_key(&derived)
}

} // verus!
