//! The manifest model: the versioned schema describing one snapshot.
//!
//! A manifest is immutable once published. Its `version` field is a closed
//! enumeration; a document carrying any other schema version is rejected at
//! decode time rather than reinterpreted.

use vstd::prelude::*;

verus! {

/// The manifest schema versions. Exactly one value exists today; forward
/// compatibility is handled by adding values here, never by ignoring fields.
#[derive(Debug, Clone, Copy, PartialEq, Eq, Structural)]
pub enum DefinitionVersion {
    /// The first and only schema version.
    Version1,
}

/// One file of a snapshot: its path, its uncompressed identity, and the
/// identity of the compressed blob that stores its content.
#[derive(Debug, Clone)]
pub struct FileDefinition {
    /// Slash-normalized path relative to the snapshot root.
    pub r_path: String,
    /// Byte length of the uncompressed file.
    pub u_len: u32,
    /// Lowercase-hex SHA-256 of the uncompressed bytes: the dedup key.
    pub u_sha256: String,
    /// Name of the codec used for the stored blob.
    pub c_algo: String,
    /// Byte length of the stored, compressed blob.
    pub c_len: u32,
    /// Lowercase-hex SHA-256 of the compressed bytes.
    pub c_sha256: String,
}

/// The mathematical value of a file record.
pub struct FileRecordView {
    pub r_path: Seq<char>,
    pub u_len: u32,
    pub u_sha256: Seq<char>,
    pub c_algo: Seq<char>,
    pub c_len: u32,
    pub c_sha256: Seq<char>,
}

impl View for FileDefinition {
    type V = FileRecordView;

    open spec fn view(&self) -> FileRecordView {
        FileRecordView {
            r_path: self.r_path@,
            u_len: self.u_len,
            u_sha256: self.u_sha256@,
            c_algo: self.c_algo@,
            c_len: self.c_len,
            c_sha256: self.c_sha256@,
        }
    }
}

/// The definition of one version: a manifest.
#[derive(Debug, Clone)]
pub struct VersionDefinition {
    /// The schema version of this document.
    pub version: DefinitionVersion,
    /// Cosmetic display name; never used for identity or comparison.
    pub display_version: Option<String>,
    /// The file records, in traversal order. The order carries no meaning.
    pub files: Vec<FileDefinition>,
}

/// The mathematical value of a manifest.
pub struct ManifestView {
    pub version: DefinitionVersion,
    pub display_version: Option<Seq<char>>,
    pub files: Seq<FileRecordView>,
}

impl View for VersionDefinition {
    type V = ManifestView;

    open spec fn view(&self) -> ManifestView {
        ManifestView {
            version: self.version,
            display_version: match self.display_version {
                Some(s) => Some(s@),
                None => None,
            },
            files: self.files@.map_values(|f: FileDefinition| f@),
        }
    }
}

impl ManifestView {
    /// No two records name the same path. The decoder does not enforce
    /// this; the engines' laws take it as a premise where they need it.
    pub open spec fn distinct_paths(self) -> bool {
        forall|i: int, j: int| 0 <= i < j < self.files.len()
            ==> self.files[i].r_path != self.files[j].r_path
    }
}

} // verus!
