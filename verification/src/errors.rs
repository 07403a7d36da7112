//! Error kinds of the engine.
//!
//! Every error carries the file path or store key it occurred on, so a run
//! over many files stays diagnosable. No error is silently swallowed: a run
//! either completes with a full report or aborts on the first error.

use vstd::prelude::*;

verus! {

/// One failure kind of a snapshot or reconcile run.
///
/// The payload is the relative path, store key, or version name the failure
/// occurred on, except for `ParseError`, whose payload describes the first
/// offending part of the document.
#[derive(Debug, Clone)]
pub enum EngineError {
    /// A local filesystem read, write, or metadata probe failed.
    IoError(String),
    /// An existence check, upload, or fetch against the backing store failed.
    StoreError(String),
    /// Compression or decompression failed on the named path or key.
    CodecError(String),
    /// The named compression algorithm is not registered.
    UnsupportedAlgorithm(String),
    /// A manifest document could not be decoded.
    ParseError(String),
    /// The store holds no manifest under the requested name.
    VersionNotFound(String),
    /// The store holds no blob under the dedup key a record demands.
    BlobNotFound(String),
    /// A path cannot be used: it is occupied by a non-regular entry,
    /// or it cannot be represented relative to the root.
    PathError(String),
}

impl EngineError {
    /// The path, key, or description the error was annotated with.
    pub fn context(&self) -> (r: &String)
        ensures
            r@ == self.context_view(),
    {
        match self {
            EngineError::IoError(s) => s,
            EngineError::StoreError(s) => s,
            EngineError::CodecError(s) => s,
            EngineError::UnsupportedAlgorithm(s) => s,
            EngineError::ParseError(s) => s,
            EngineError::VersionNotFound(s) => s,
            EngineError::BlobNotFound(s) => s,
            EngineError::PathError(s) => s,
        }
    }

    /// The annotation as a sequence of characters.
    pub open spec fn context_view(&self) -> Seq<char> {
        match self {
            EngineError::IoError(s) => s@,
            EngineError::StoreError(s) => s@,
            EngineError::CodecError(s) => s@,
            EngineError::UnsupportedAlgorithm(s) => s@,
            EngineError::ParseError(s) => s@,
            EngineError::VersionNotFound(s) => s@,
            EngineError::BlobNotFound(s) => s@,
            EngineError::PathError(s) => s@,
        }
    }
}

} // verus!
