//! The rules by which a published package is held against its local source.
//!
//! Reading directories and files is left to the caller. Here stand the
//! decisions: where the local source of a package lives, which directory of
//! the registry cache holds downloaded sources, what each entry of a source
//! tree is compared with, and when two files count as the same.

use vstd::prelude::*;
use crate::bytes::append_bytes;
use crate::bytes::bytes_equal;

verus! {

/// Why a package could not be verified.
#[derive(Clone, Copy, Debug, PartialEq, Eq, Structural)]
pub enum VerifyError {
    /// The package does not come from the registry.
    NotFromRegistry,
    /// The registry cache has no directory of downloaded sources.
    NoRegistrySource,
    /// The downloaded package differs from the local source.
    Mismatch,
    /// A file or directory could not be read.
    Access,
}

/// What kind of entry a directory holds.
#[derive(Clone, Copy, Debug, PartialEq, Eq, Structural)]
pub enum EntryKind {
    File,
    Directory,
    Other,
}

/// What to do with an entry of the local source tree.
#[derive(Debug, PartialEq, Eq)]
pub enum CompareStep {
    /// Compare the file with the file of this name on the other side.
    CompareWith(Vec<u8>),
    /// Compare the directory with the directory of the same name.
    Descend,
    /// Leave the entry out.
    Skip,
}

/// True when `needle` occurs in `haystack` at position `at`.
pub open spec fn occurs_at(haystack: Seq<u8>, needle: Seq<u8>, at: int) -> bool {
    0 <= at && at + needle.len() <= haystack.len() && haystack.subrange(
        at,
        at + needle.len(),
    ) == needle
}

/// True when `needle` occurs somewhere in `haystack`.
pub open spec fn spec_contains(haystack: Seq<u8>, needle: Seq<u8>) -> bool {
    exists|at: int| occurs_at(haystack, needle, at)
}

/// The bytes of `Cargo.toml`.
pub open spec fn manifest_name() -> Seq<u8> {
    seq![0x43u8, 0x61u8, 0x72u8, 0x67u8, 0x6fu8, 0x2eu8, 0x74u8, 0x6fu8, 0x6du8, 0x6cu8]
}

/// The bytes of `.orig`.
pub open spec fn orig_suffix() -> Seq<u8> {
    seq![0x2eu8, 0x6fu8, 0x72u8, 0x69u8, 0x67u8]
}

/// The bytes of `target`.
pub open spec fn target_name() -> Seq<u8> {
    seq![0x74u8, 0x61u8, 0x72u8, 0x67u8, 0x65u8, 0x74u8]
}

/// The bytes of `-api-`.
pub open spec fn api_marker() -> Seq<u8> {
    seq![0x2du8, 0x61u8, 0x70u8, 0x69u8, 0x2du8]
}

/// The bytes of `git`.
pub open spec fn git_marker() -> Seq<u8> {
    seq![0x67u8, 0x69u8, 0x74u8]
}

/// The bytes of `api`.
pub open spec fn api_dir() -> Seq<u8> {
    seq![0x61u8, 0x70u8, 0x69u8]
}

/// The bytes of `services`.
pub open spec fn services_dir() -> Seq<u8> {
    seq![0x73u8, 0x65u8, 0x72u8, 0x76u8, 0x69u8, 0x63u8, 0x65u8, 0x73u8]
}

/// The directory under which the local source of package `name` lives:
/// `api` for a package with `-api-` in its name, `services` for any other.
pub open spec fn spec_source_subdir(name: Seq<u8>) -> Seq<u8> {
    if spec_contains(name, api_marker()) {
        api_dir()
    } else {
        services_dir()
    }
}

/// The path of the local source of package `name`: `./`, the directory,
/// `/`, the name, `/`.
pub open spec fn spec_local_source_path(name: Seq<u8>) -> Seq<u8> {
    seq![0x2eu8, 0x2fu8] + spec_source_subdir(name) + seq![0x2fu8] + name + seq![0x2fu8]
}

/// The directory of a downloaded package: name, `-`, version.
pub open spec fn spec_package_dir(name: Seq<u8>, version: Seq<u8>) -> Seq<u8> {
    name + seq![0x2du8] + version
}

/// What is done with the entry `name` of kind `kind`. The manifest is
/// compared with the copy that the registry keeps beside the one it
/// rewrote; build output is left out.
pub open spec fn spec_plan_entry(name: Seq<u8>, kind: EntryKind) -> (int, Seq<u8>) {
    match kind {
        EntryKind::File => if name == manifest_name() {
            (0, manifest_name() + orig_suffix())
        } else {
            (0, name)
        },
        EntryKind::Directory => if name == target_name() {
            (2, Seq::empty())
        } else {
            (1, Seq::empty())
        },
        EntryKind::Other => (2, Seq::empty()),
    }
}

impl CompareStep {
    /// The step as a number and a name: 0 with the name to compare with, 1
    /// to descend, 2 to skip.
    pub open spec fn view_pair(self) -> (int, Seq<u8>) {
        match self {
            CompareStep::CompareWith(other) => (0, other@),
            CompareStep::Descend => (1, Seq::empty()),
            CompareStep::Skip => (2, Seq::empty()),
        }
    }
}

/// Tells whether `needle` occurs in `haystack`.
pub fn contains(haystack: &[u8], needle: &[u8]) -> (found: bool)
    ensures
        found == spec_contains(haystack@, needle@),
{
    if needle.len() > haystack.len() {
        assert forall|at: int| !occurs_at(haystack@, needle@, at) by {}
        return false;
    }
    let last: usize = haystack.len() - needle.len();
    let mut at: usize = 0;
    while at < last
        invariant
            0 <= at <= last,
            last + needle.len() == haystack.len(),
            forall|k: int| 0 <= k < at ==> !occurs_at(haystack@, needle@, k),
        decreases last - at,
    {
        if bytes_equal(vstd::slice::slice_subrange(haystack, at, at + needle.len()), needle) {
            assert(occurs_at(haystack@, needle@, at as int));
            return true;
        }
        at += 1;
    }
    if bytes_equal(vstd::slice::slice_subrange(haystack, last, last + needle.len()), needle) {
        assert(occurs_at(haystack@, needle@, last as int));
        return true;
    }
    assert forall|k: int| !occurs_at(haystack@, needle@, k) by {}
    false
}

/// The directory under which the local source of package `name` lives.
pub fn source_subdir(name: &[u8]) -> (dir: Vec<u8>)
    ensures
        dir@ == spec_source_subdir(name@),
{
    let marker: [u8; 5] = [0x2d, 0x61, 0x70, 0x69, 0x2d];
    assert(marker@ =~= api_marker());
    let mut dir: Vec<u8> = Vec::new();
    if contains(name, marker.as_slice()) {
        let api: [u8; 3] = [0x61, 0x70, 0x69];
        append_bytes(&mut dir, api.as_slice());
        assert(dir@ =~= api_dir());
    } else {
        let services: [u8; 8] = [0x73, 0x65, 0x72, 0x76, 0x69, 0x63, 0x65, 0x73];
        append_bytes(&mut dir, services.as_slice());
        assert(dir@ =~= services_dir());
    }
    dir
}

/// The path of the local source of package `name`.
pub fn local_source_path(name: &[u8]) -> (path: Vec<u8>)
    ensures
        path@ == spec_local_source_path(name@),
{
    let dir: Vec<u8> = source_subdir(name);
    let mut path: Vec<u8> = Vec::new();
    path.push(0x2e);
    path.push(0x2f);
    assert(path@ =~= seq![0x2eu8, 0x2fu8]);
    append_bytes(&mut path, dir.as_slice());
    path.push(0x2f);
    append_bytes(&mut path, name);
    path.push(0x2f);
    assert(path@ =~= spec_local_source_path(name@));
    path
}

/// The directory of a downloaded package.
pub fn package_dir(name: &[u8], version: &[u8]) -> (dir: Vec<u8>)
    ensures
        dir@ == spec_package_dir(name@, version@),
{
    let mut dir: Vec<u8> = Vec::new();
    append_bytes(&mut dir, name);
    dir.push(0x2d);
    append_bytes(&mut dir, version);
    assert(dir@ =~= spec_package_dir(name@, version@));
    dir
}

/// Tells whether a directory of the registry cache holds downloaded
/// sources: its name has `git` in it.
pub fn is_registry_source(dir_name: &[u8]) -> (yes: bool)
    ensures
        yes == spec_contains(dir_name@, git_marker()),
{
    let marker: [u8; 3] = [0x67, 0x69, 0x74];
    assert(marker@ =~= git_marker());
    contains(dir_name, marker.as_slice())
}

/// Decides what is done with the entry `name` of kind `kind`.
pub fn plan_entry(name: &[u8], kind: EntryKind) -> (step: CompareStep)
    ensures
        step.view_pair() == spec_plan_entry(name@, kind),
{
    match kind {
        EntryKind::File => {
            let manifest: [u8; 10] = [0x43, 0x61, 0x72, 0x67, 0x6f, 0x2e, 0x74, 0x6f, 0x6d, 0x6c];
            assert(manifest@ =~= manifest_name());
            let mut other: Vec<u8> = Vec::new();
            append_bytes(&mut other, name);
            if bytes_equal(name, manifest.as_slice()) {
                let suffix: [u8; 5] = [0x2e, 0x6f, 0x72, 0x69, 0x67];
                assert(suffix@ =~= orig_suffix());
                append_bytes(&mut other, suffix.as_slice());
            }
            assert(other@ =~= spec_plan_entry(name@, kind).1);
            CompareStep::CompareWith(other)
        },
        EntryKind::Directory => {
            let target: [u8; 6] = [0x74, 0x61, 0x72, 0x67, 0x65, 0x74];
            assert(target@ =~= target_name());
            if bytes_equal(name, target.as_slice()) {
                CompareStep::Skip
            } else {
                CompareStep::Descend
            }
        },
        EntryKind::Other => CompareStep::Skip,
    }
}

/// Tells whether two files are the same: of one length and equal byte for
/// byte.
pub fn files_match(a: &[u8], b: &[u8]) -> (same: bool)
    ensures
        same == (a@ == b@),
{
    bytes_equal(a, b)
}

/// What the walk through a source tree does after an entry.
#[derive(Clone, Copy, Debug, PartialEq, Eq, Structural)]
pub enum WalkStep {
    /// Go on with the next entry.
    Continue,
    /// Stop: the trees differ.
    Differ,
    /// Stop: something could not be read.
    Fail,
}

/// Decides how the walk goes on after an entry was compared: `Some(true)`
/// when the entry is the same on both sides, `Some(false)` when it differs,
/// `None` when it could not be read. The walk stops at the first entry that
/// differs or cannot be read.
pub fn after_entry(compared: Option<bool>) -> (step: WalkStep)
    ensures
        step == (match compared {
            Some(true) => WalkStep::Continue,
            Some(false) => WalkStep::Differ,
            None => WalkStep::Fail,
        }),
{
    match compared {
        Some(true) => WalkStep::Continue,
        Some(false) => WalkStep::Differ,
        None => WalkStep::Fail,
    }
}

/// The outcome of a verification, from the outcome of comparing the two
/// trees: `Some(true)` when they are the same, `Some(false)` when they
/// differ, `None` when something could not be read.
pub fn verdict(compared: Option<bool>) -> (outcome: Result<(), VerifyError>)
    ensures
        outcome == (match compared {
            Some(true) => Ok::<(), VerifyError>(()),
            Some(false) => Err::<(), VerifyError>(VerifyError::Mismatch),
            None => Err::<(), VerifyError>(VerifyError::Access),
        }),
{
    match compared {
        Some(true) => Ok(()),
        Some(false) => Err(VerifyError::Mismatch),
        None => Err(VerifyError::Access),
    }
}

impl VerifyError {
    /// The message that goes with the error.
    pub fn message(&self) -> (text: &'static str)
        ensures
            text@ == (match *self {
                VerifyError::NotFromRegistry => "Can't verify crates that aren't from crates.io"@,
                VerifyError::NoRegistrySource => "Can't find expected registry source location"@,
                VerifyError::Mismatch => "Crates.io downloaded data does not match local source"@,
                VerifyError::Access => "Error matching local source to crates.io cache files"@,
            }),
    {
        match self {
            VerifyError::NotFromRegistry => "Can't verify crates that aren't from crates.io",
            VerifyError::NoRegistrySource => "Can't find expected registry source location",
            VerifyError::Mismatch => "Crates.io downloaded data does not match local source",
            VerifyError::Access => "Error matching local source to crates.io cache files",
        }
    }
}

} // verus!
