//! Core logic for preparing a directory of single-track audio files into a
//! uniformly tagged, loudness-normalized album.
//!
//! The library covers the pure, verifiable parts of the pipeline: the metadata
//! value model and its scalar/list normalization, track discovery validation,
//! metadata merging with track-wins precedence, output file naming, and the
//! gated loudness measurement over fixed-point window powers.  File, tag-store
//! and process I/O, audio decoding, and floating-point conversions live in the
//! surrounding application, which hands this library plain values.

pub mod block;
pub mod discovery;
pub mod error;
pub mod helpers;
pub mod loudness;
pub mod merge;
pub mod metadata;
pub mod process;
pub mod tagmap;
pub mod text;
