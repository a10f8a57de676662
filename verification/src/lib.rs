//! A verified core for a personal video-archival pipeline.
//!
//! The library contains the pure logic of the pipeline: the cursor-based
//! pagination protocol, the mapping of raw API records into stable domain
//! entities, the selection and ordering of playlists, and the snapshot
//! codec that renders collections to JSON text and reads them back.
//! All network and file I/O stays outside, in an unverified shell that
//! hands the library plain values and writes out what it returns.

use vstd::prelude::*;

pub mod domain;
pub mod json;
pub mod mapper;
pub mod orchestrator;
pub mod paginate;
pub mod playlist_store;
pub mod raw;
pub mod select;
pub mod text;
pub mod video_store;

verus! {

/// The error taxonomy of the pipeline. Every failure is terminal for the
/// run: a stage either completes fully or the whole run fails.
#[derive(Clone, Copy, Debug, PartialEq, Eq, Structural)]
pub enum PipelineError {
    /// A network, auth or quota failure during a page fetch.
    Transport,
    /// A required field was absent from an otherwise well-formed API record.
    MalformedRecord,
    /// Cached-read mode found no snapshot file.
    MissingSnapshot,
    /// Cached-read mode found a snapshot that does not parse.
    CorruptSnapshot,
    /// The pagination cursor loop exceeded its defensive bound.
    ProtocolViolation,
}

} // verus!
