//! The error taxonomy of the album preparation pipeline.
//!
//! Every error is unrecoverable at the point it is detected: the caller is
//! expected to abort the whole run, with no partial-success mode and no
//! rollback of work already committed.

use vstd::prelude::*;

verus! {

/// One fatal condition detected while preparing an album.
#[derive(Debug)]
pub enum Error {
    /// A metadata value was neither a bare string nor a list of strings.
    /// Carries the offending key.
    Schema { key: String },
    /// Exactly one value was required for a field, but zero or more than one
    /// were present.  Carries the field name.
    AmbiguousField { key: String },
    /// A `tracknumber` field did not parse as a positive integer.
    /// Carries the raw text that failed to parse.
    InvalidTrackNumber { raw: String },
    /// The set of discovered track numbers was not exactly `{1, ..., N}`:
    /// either a duplicate or a gap.
    TrackNumberMismatch,
    /// The number of track metadata blocks differs from the number of
    /// discovered tracks.
    CountMismatch { tracks: usize, blocks: usize },
    /// The decoded audio did not have exactly two channels.
    UnsupportedChannelLayout { channels: usize },
    /// The external loudness-normalization tool exited with a nonzero status.
    ExternalTool,
}

} // verus!
