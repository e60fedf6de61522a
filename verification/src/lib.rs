//! Verified core of an AccurateRip checker for ripped CD audio.
//!
//! The library computes the three-part disc identity of a CD from its
//! per-track frame lengths, computes the two AccurateRip checksum variants
//! over a track's raw PCM samples (sequentially or in parallel chunks),
//! decodes the binary lookup records returned by the AccurateRip database,
//! and decides which tracks of a rip are confirmed by those records.
//!
//! File discovery, audio decoding and the HTTP fetch are left to callers;
//! the library works on plain byte buffers and numbers.

use vstd::prelude::*;

pub mod util;
pub mod offset;
pub mod crc;
pub mod fetch;
pub mod validate;

verus! {

/// The failure conditions the library and its callers distinguish.
#[derive(Clone, Copy, Debug, PartialEq, Eq, Structural)]
pub enum ArError {
    /// An empty track list was given to the disc identifier.
    InvalidInput,
    /// A track's raw sample byte count is not a multiple of the sample size.
    MalformedAudio,
    /// A lookup buffer ended in the middle of a declared record.
    TruncatedData,
    /// The remote database has no entry for this disc.
    NotFound,
    /// The fetch failed for any reason other than a missing entry.
    TransportError,
    /// The external audio decoder failed.
    DecodeError,
}

} // verus!
