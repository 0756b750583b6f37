//! The version of the system, as the ticktimer reports it.

use vstd::prelude::*;
use vstd::string::StringSliceAdditionalSpecFns;
use crate::bytes::append_bytes;

verus! {

/// When the system was built.
pub const TIMESTAMP: &'static str = "Wed, 05 Oct 2022 18:25:35 +0800";

/// The version of the system.
pub const SEMVER: &'static str = "v0.9.9-441-g113d4c2d";

/// The text of the version report: the version, and on a line of its own
/// the time of the build, unless it is left out.
pub open spec fn spec_version_text(with_timestamp: bool) -> Seq<u8> {
    if with_timestamp {
        SEMVER.spec_bytes() + seq![0x0au8] + TIMESTAMP.spec_bytes()
    } else {
        SEMVER.spec_bytes()
    }
}

/// Builds the text of the version report, as UTF-8.
pub fn get_version(with_timestamp: bool) -> (text: Vec<u8>)
    ensures
        text@ == spec_version_text(with_timestamp),
{
    let mut text: Vec<u8> = Vec::new();
    append_bytes(&mut text, SEMVER.as_bytes());
    if with_timestamp {
        text.push(0x0a);
        append_bytes(&mut text, TIMESTAMP.as_bytes());
    }
    assert(text@ =~= spec_version_text(with_timestamp));
    text
}

} // verus!
