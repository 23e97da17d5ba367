//! Play-duration bookkeeping for stored audio files.
//!
//! Probing an uploaded file — opening it and decoding its MP3 frames —
//! is an edge concern: the outcome depends on what is on disk, and a
//! malformed or crafted file can make a decoder fail. The service probes
//! at its boundary, contains any fault there, and hands this module the
//! outcome as a plain value. Here the sentinel convention is fixed once:
//! a probe that failed, for whatever reason, counts as zero seconds, and
//! zero means "duration unknown". Ingestion rejects a track whose probe
//! came back as the sentinel.

use vstd::prelude::*;

verus! {

/// The sentinel convention: a probe that failed counts as zero seconds.
pub open spec fn duration_or_zero_spec(probe: Option<u64>) -> u64 {
    match probe {
        Some(secs) => secs,
        None => 0,
    }
}

/// Collapses a probe outcome to the caller-visible duration, with zero
/// for a failed probe.
pub fn duration_or_zero(probe: Option<u64>) -> (d: u64)
    ensures
        d == duration_or_zero_spec(probe),
{
    match probe {
        Some(secs) => secs,
        None => 0,
    }
}

} // verus!
