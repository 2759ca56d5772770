//! The dangling-path check used by the `clean` subcommand: a record is
//! dangling only when the filesystem definitely says its location does
//! not exist. A check that itself fails keeps the record, so that a
//! transient error never deletes data.

use vstd::prelude::*;

verus! {

/// Relies on `std::path::Path::try_exists`: queries the filesystem;
/// `Some` carries a definite answer, `None` means the check itself
/// failed. Nothing more can be promised of the result.
#[verifier::external_body]
fn try_path_exists(location: &str) -> Option<bool> {
    match std::path::Path::new(location).try_exists() {
        Ok(found) => Some(found),
        Err(_) => None,
    }
}

/// The fail-safe verdict on an existence probe: only a definite
/// "does not exist" marks a record as dangling.
pub open spec fn dangling_verdict(probe: Option<bool>) -> bool {
    probe == Some(false)
}

/// Decides from an existence probe whether a record counts as dangling.
pub fn decide_dangling(probe: Option<bool>) -> (r: bool)
    ensures
        r == dangling_verdict(probe),
{
    match probe {
        Some(found) => !found,
        None => false,
    }
}

/// Whether the location should be treated as dangling right now. The
/// answer depends on the filesystem; whatever the probe said, the
/// fail-safe verdict is applied to it.
pub fn matches_on_all_non_existing_paths(location: &str) -> bool {
    let probe = try_path_exists(location);
    decide_dangling(probe)
}

} // verus!
