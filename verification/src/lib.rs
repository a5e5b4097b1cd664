//! Verified core of a file-integrity checker.
//!
//! The library fingerprints file contents with a streaming BLAKE3 digest,
//! keeps a snapshot map from path to fingerprint record, builds an inverted
//! digest index for move detection, and reconciles a freshly computed
//! snapshot against a stored reference, classifying every current file as
//! matched, mismatched, skipped (stale metadata), moved, or extra.

pub mod assoc;
pub mod meta;
pub mod digest;
pub mod snapshot;
pub mod index;
pub mod reconcile;
pub mod laws;
pub mod scan;
pub mod codec;
pub mod codec_laws;
