//! The fingerprint record attached to every scanned file, and the verdict a
//! reconciliation run attaches to every current file.

use vstd::prelude::*;

verus! {

/// Fingerprint of one file: its content digest as a lowercase hex string,
/// its modification time in whole seconds since the Unix epoch, and its
/// size in bytes.
pub struct FileMeta {
    pub hash: String,
    pub modified: u64,
    pub size: i64,
}

/// Mathematical value of a [`FileMeta`].
pub struct MetaView {
    pub hash: Seq<char>,
    pub modified: u64,
    pub size: i64,
}

impl View for FileMeta {
    type V = MetaView;

    open spec fn view(&self) -> MetaView {
        MetaView { hash: self.hash@, modified: self.modified, size: self.size }
    }
}

impl Clone for FileMeta {
    fn clone(&self) -> (r: Self)
        ensures
            r@ == self@,
    {
        FileMeta { hash: self.hash.clone(), modified: self.modified, size: self.size }
    }
}

/// The five ways a current file can relate to the reference snapshot.
#[derive(Clone, Copy, Debug, PartialEq, Eq, Structural)]
pub enum VerdictKind {
    Matched,
    Mismatched,
    SkippedStaleMetadata,
    Moved,
    Extra,
}

/// A classification verdict for one current file, with its evidence: the
/// digests in play for a mismatch, the prior paths for a move.
pub enum Verdict {
    Matched,
    Mismatched { expected: String, found: String },
    SkippedStaleMetadata,
    Moved { prior: Vec<String> },
    Extra,
}

impl Verdict {
    pub open spec fn kind(self) -> VerdictKind {
        match self {
            Verdict::Matched => VerdictKind::Matched,
            Verdict::Mismatched { .. } => VerdictKind::Mismatched,
            Verdict::SkippedStaleMetadata => VerdictKind::SkippedStaleMetadata,
            Verdict::Moved { .. } => VerdictKind::Moved,
            Verdict::Extra => VerdictKind::Extra,
        }
    }
}

/// Totals of a reconciliation run. `has_mismatch` is true exactly when at
/// least one file was classified mismatched.
pub struct Summary {
    pub matched: usize,
    pub mismatched: usize,
    pub skipped: usize,
    pub moved: usize,
    pub extra: usize,
    pub has_mismatch: bool,
}

} // verus!
