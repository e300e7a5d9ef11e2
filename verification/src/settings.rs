//! What the service is started with, and what is made of it.

use vstd::prelude::*;
use vstd::string::StringExecFns;

verus! {

/// The resolution at which sketches are compared: the k-mer size and the sampling
/// rate. It is fixed when the service starts.
#[derive(Debug, Clone, Copy, PartialEq, Eq, Structural)]
pub struct SelectionParameters {
    pub ksize: u32,
    pub scaled: u32,
}

/// The low 32 bits of a sampling rate.
pub open spec fn low_word(scaled: nat) -> nat {
    scaled % 0x1_0000_0000
}

/// The comparison resolution for the k-mer size and the sampling rate that the service
/// was given. Of the sampling rate the comparison takes the low 32 bits.
pub fn selection_parameters(ksize: u8, scaled: usize) -> (selection: SelectionParameters)
    ensures
        selection.ksize == ksize,
        selection.scaled == low_word(scaled as nat),
{
    let low: u64 = (scaled as u64) % 0x1_0000_0000u64;
    SelectionParameters { ksize: ksize as u32, scaled: low as u32 }
}

/// The smallest intersection, in sketch elements, that an index reports for a cut-off
/// of `threshold_bp` base pairs at sampling rate `scaled`: the quotient of the two,
/// rounded down.
pub open spec fn threshold_units(threshold_bp: nat, scaled: nat) -> nat
    recommends
        scaled > 0,
{
    threshold_bp / scaled
}

/// Derives the per-index threshold from the cut-off in base pairs and the sampling
/// rate.
pub fn derive_threshold(threshold_bp: usize, scaled: usize) -> (threshold: usize)
    requires
        scaled > 0,
    ensures
        threshold == threshold_units(threshold_bp as nat, scaled as nat),
{
    threshold_bp / scaled
}

/// The location of the signal data as the indices are told it: the path, marked as an
/// archive or as a directory.
pub open spec fn location_of(path: Seq<char>, archive: bool) -> Seq<char> {
    if archive {
        "zip://"@ + path
    } else {
        "fs://"@ + path
    }
}

/// Marks the path of the signal data as an archive or as a directory.
pub fn mark_location(path: &str, archive: bool) -> (location: String)
    ensures
        location@ == location_of(path@, archive),
{
    if archive {
        "zip://".to_owned().concat(path)
    } else {
        "fs://".to_owned().concat(path)
    }
}

/// Calls `camino::Utf8Path::ends_with`, which compares whole path components and
/// splits the path as the platform does. Nothing is claimed of the answer.
#[verifier::external_body]
fn path_ends_with(path: &str, child: &str) -> bool {
    camino::Utf8Path::new(path).ends_with(child)
}

/// The location of the signal data at `path`. The path is taken for an archive where
/// its last component is `.zip`, and for a directory everywhere else.
pub fn signal_location(path: &str) -> (location: String)
    ensures
        location@ == location_of(path@, true) || location@ == location_of(path@, false),
{
    let archive = path_ends_with(path, ".zip");
    mark_location(path, archive)
}

/// What the liveness check reports.
#[derive(Debug, Clone, Copy, PartialEq, Eq)]
pub struct Health {
    pub status: &'static str,
    pub db_count: usize,
}

/// The liveness report of a service with `pool_size` indices loaded.
pub fn health(pool_size: usize) -> (report: Health)
    ensures
        report.status@ == "ok"@,
        report.db_count == pool_size,
{
    Health { status: "ok", db_count: pool_size }
}

} // verus!
