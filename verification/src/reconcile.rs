//! The reconciler: make a directory match a named manifest, fetching
//! only what differs.
//!
//! Each record's local file is classified in three steps: missing, then
//! a cheap size check, then the digest comparison. Only files that fail
//! classification are fetched and rewritten; nothing the manifest does
//! not name is ever touched, and a failed fetch leaves the file as it
//! was.

use vstd::prelude::*;
use crate::errors::EngineError;
use crate::manifest::{FileDefinition, FileRecordView, VersionDefinition, ManifestView};
use crate::localdir::{LocalDir, EntryKind, EntryView};
use crate::store::{MemStore, ObjView, blob_key, blob_key_view, version_key, version_key_view};
use crate::content::{sha256_of, sha256_hex, unbrotli_of, decompress, string_eq_lit};
use crate::codec::{decode_manifest, spec_parse};
use crate::report::SwitchReport;

verus! {

// //////////////// //
// The run's model  //
// //////////////// //

/// How one record's local file classifies.
#[derive(Debug, Clone, Copy, PartialEq, Eq, Structural)]
pub enum FileClass {
    /// No entry at the path.
    Missing,
    /// A regular file is there but its size or digest differs.
    Changed,
    /// A regular file is there with matching size and digest.
    Unchanged,
    /// Something other than a regular file occupies the path.
    NotAFile,
}

/// Classify a record against a directory: missing, changed (by the cheap
/// size check or by the digest), unchanged, or blocked by a non-file.
pub open spec fn classify(rec: FileRecordView, dir: Map<Seq<char>, EntryView>) -> FileClass {
    if !dir.contains_key(rec.r_path) {
        FileClass::Missing
    } else {
        match dir[rec.r_path] {
            EntryView::Other => FileClass::NotAFile,
            EntryView::File(b) => if b.len() != rec.u_len {
                FileClass::Changed
            } else if sha256_of(b) != rec.u_sha256 {
                FileClass::Changed
            } else {
                FileClass::Unchanged
            },
        }
    }
}

/// The error a failed per-record step produces.
pub enum StepErr {
    /// The blob a record demands is absent; holds the blob key.
    NoBlob(Seq<char>),
    /// The record names an unregistered algorithm; holds that name.
    BadAlgo(Seq<char>),
    /// The blob's bytes cannot be decoded; holds the record's path.
    BadData(Seq<char>),
    /// A non-regular entry occupies the path; holds the path.
    NotFile(Seq<char>),
}

/// Fetch and decode the blob a record points at.
pub open spec fn fetch_model(
    rec: FileRecordView,
    blobs: Map<Seq<char>, ObjView>,
    prefix: Seq<char>,
) -> Result<Seq<u8>, StepErr> {
    let k = blob_key_view(prefix, rec.u_sha256);
    if !blobs.contains_key(k) {
        Err(StepErr::NoBlob(k))
    } else if rec.c_algo != "brotli"@ {
        Err(StepErr::BadAlgo(rec.c_algo))
    } else {
        match unbrotli_of(blobs[k].data) {
            Some(b) => Ok(b),
            None => Err(StepErr::BadData(rec.r_path)),
        }
    }
}

/// Per-record counters.
pub struct Counts {
    pub unchanged: int,
    pub changed: int,
    pub missing: int,
}

impl Counts {
    pub open spec fn zero() -> Counts {
        Counts { unchanged: 0, changed: 0, missing: 0 }
    }

    pub open spec fn add(self, o: Counts) -> Counts {
        Counts {
            unchanged: self.unchanged + o.unchanged,
            changed: self.changed + o.changed,
            missing: self.missing + o.missing,
        }
    }
}

/// One record's step: classify, and fetch and write where needed.
pub open spec fn step_model(
    rec: FileRecordView,
    dir: Map<Seq<char>, EntryView>,
    blobs: Map<Seq<char>, ObjView>,
    prefix: Seq<char>,
) -> Result<(Map<Seq<char>, EntryView>, Counts), StepErr> {
    match classify(rec, dir) {
        FileClass::NotAFile => Err(StepErr::NotFile(rec.r_path)),
        FileClass::Unchanged => Ok((
            dir,
            Counts { unchanged: 1, changed: 0, missing: 0 },
        )),
        FileClass::Missing => match fetch_model(rec, blobs, prefix) {
            Ok(b) => Ok((
                dir.insert(rec.r_path, EntryView::File(b)),
                Counts { unchanged: 0, changed: 0, missing: 1 },
            )),
            Err(e) => Err(e),
        },
        FileClass::Changed => match fetch_model(rec, blobs, prefix) {
            Ok(b) => Ok((
                dir.insert(rec.r_path, EntryView::File(b)),
                Counts { unchanged: 0, changed: 1, missing: 0 },
            )),
            Err(e) => Err(e),
        },
    }
}

/// The whole run over a record list: records in order, first error wins,
/// and the error carries the directory as it stood when the run stopped.
pub open spec fn reconcile_model(
    recs: Seq<FileRecordView>,
    dir: Map<Seq<char>, EntryView>,
    blobs: Map<Seq<char>, ObjView>,
    prefix: Seq<char>,
) -> Result<(Map<Seq<char>, EntryView>, Counts), (StepErr, Map<Seq<char>, EntryView>)>
    decreases recs.len(),
{
    if recs.len() == 0 {
        Ok((dir, Counts::zero()))
    } else {
        match step_model(recs[0], dir, blobs, prefix) {
            Err(e) => Err((e, dir)),
            Ok((d1, c1)) => match reconcile_model(recs.drop_first(), d1, blobs, prefix) {
                Err(e) => Err(e),
                Ok((d2, c2)) => Ok((d2, c1.add(c2))),
            },
        }
    }
}

/// Whether an engine error is the step error's image: same kind, same
/// annotation.
pub open spec fn err_matches(e: EngineError, m: StepErr) -> bool {
    match m {
        StepErr::NoBlob(k) => e matches EngineError::BlobNotFound(s) && s@ == k,
        StepErr::BadAlgo(a) => e matches EngineError::UnsupportedAlgorithm(s) && s@ == a,
        StepErr::BadData(p) => e matches EngineError::CodecError(s) && s@ == p,
        StepErr::NotFile(p) => e matches EngineError::PathError(s) && s@ == p,
    }
}

// //////////////////// //
// The executable steps //
// //////////////////// //

/// What a cheap filesystem probe saw at a record's path.
pub enum LocalProbe {
    /// Nothing at the path.
    Absent,
    /// Something that is not a regular file.
    NotRegular,
    /// A regular file of this byte length.
    Regular(u64),
}

/// What to do after the size check alone.
#[derive(Debug, Clone, Copy, PartialEq, Eq, Structural)]
pub enum SizeCheck {
    /// No local file: fetch and count as restored.
    FetchMissing,
    /// Size differs: fetch and count as changed, no digest needed.
    FetchChanged,
    /// Size matches: only the digest can decide.
    CompareDigest,
    /// A non-regular entry occupies the path: hard error.
    Blocked,
}

/// The size-check decision for one record.
pub open spec fn spec_size_check(rec: FileRecordView, probe: LocalProbe) -> SizeCheck {
    match probe {
        LocalProbe::Absent => SizeCheck::FetchMissing,
        LocalProbe::NotRegular => SizeCheck::Blocked,
        LocalProbe::Regular(len) => if len != rec.u_len {
            SizeCheck::FetchChanged
        } else {
            SizeCheck::CompareDigest
        },
    }
}

/// Decide one record from the cheap probe alone. A driver working on a
/// real filesystem probes, calls this, and computes a digest only when
/// told to.
pub fn classify_by_size(rec: &FileDefinition, probe: &LocalProbe) -> (r: SizeCheck)
    ensures
        r == spec_size_check(rec@, *probe),
{
    match probe {
        LocalProbe::Absent => SizeCheck::FetchMissing,
        LocalProbe::NotRegular => SizeCheck::Blocked,
        LocalProbe::Regular(len) => {
            if *len != rec.u_len as u64 {
                SizeCheck::FetchChanged
            } else {
                SizeCheck::CompareDigest
            }
        },
    }
}

/// Whether a computed local digest differs from the record's.
pub fn digest_differs(rec: &FileDefinition, digest: &String) -> (r: bool)
    ensures
        r == (digest@ != rec@.u_sha256),
{
    !string_eq_lit(&rec.u_sha256, digest.as_str())
}

/// Classify one record against the directory. The digest is computed
/// only when the cheap size check cannot already decide.
pub fn classify_record(rec: &FileDefinition, dir: &LocalDir) -> (r: FileClass)
    requires
        dir.wf(),
    ensures
        r == classify(rec@, dir.dir_view()),
{
    match dir.probe(&rec.r_path) {
        Option::None => FileClass::Missing,
        Option::Some(e) => match e {
            EntryKind::Other => FileClass::NotAFile,
            EntryKind::RegularFile(b) => {
                if b.len() != rec.u_len as usize {
                    FileClass::Changed
                } else {
                    let local_digest = sha256_hex(b);
                    if !string_eq_lit(&rec.u_sha256, local_digest.as_str()) {
                        FileClass::Changed
                    } else {
                        FileClass::Unchanged
                    }
                }
            },
        },
    }
}

/// Fetch the blob a record points at and decompress it with the record's
/// algorithm.
pub fn fetch_blob(rec: &FileDefinition, store: &MemStore, prefix: &String)
    -> (r: Result<Vec<u8>, EngineError>)
    requires
        store.wf(),
    ensures
        match r {
            Ok(b) => fetch_model(rec@, store.blobs_view(), prefix@) == Ok::<_, StepErr>(b@),
            Err(e) => (fetch_model(rec@, store.blobs_view(), prefix@) matches Err(m)
                && err_matches(e, m)),
        },
{
    let key = blob_key(prefix, &rec.u_sha256);
    let obj = match store.get_blob(&key) {
        Option::Some(o) => o,
        Option::None => {
            return Err(EngineError::BlobNotFound(key));
        },
    };
    match decompress(&rec.c_algo, &obj.data) {
        Result::Ok(b) => Ok(b),
        Result::Err(e) => match e {
            EngineError::UnsupportedAlgorithm(a) => Err(EngineError::UnsupportedAlgorithm(a)),
            _ => Err(EngineError::CodecError(rec.r_path.clone())),
        },
    }
}

/// Apply a decoded manifest to the directory.
///
/// The result is exactly `reconcile_model`: untouched paths keep their
/// entries, and the counters report how every record classified.
#[verifier::rlimit(100)]
#[verifier::spinoff_prover]
pub fn apply_manifest(
    m: &VersionDefinition,
    dir: &mut LocalDir,
    store: &MemStore,
    prefix: &String,
) -> (r: Result<SwitchReport, EngineError>)
    requires
        old(dir).wf(),
        store.wf(),
    ensures
        final(dir).wf(),
        match r {
            Ok(rep) => reconcile_model(m@.files, old(dir).dir_view(), store.blobs_view(), prefix@)
                == Ok::<_, (StepErr, Map<Seq<char>, EntryView>)>((
                    final(dir).dir_view(),
                    Counts {
                        unchanged: rep.n_unchanged as int,
                        changed: rep.n_changed as int,
                        missing: rep.n_missing as int,
                    },
                )),
            Err(e) => (reconcile_model(m@.files, old(dir).dir_view(), store.blobs_view(), prefix@)
                matches Err(em)
                && err_matches(e, em.0)
                && final(dir).dir_view() == em.1),
        },
{
    let ghost recs = m@.files;
    let ghost blobs = store.blobs_view();
    let ghost dir0 = old(dir).dir_view();
    let mut n_unchanged: usize = 0;
    let mut n_changed: usize = 0;
    let mut n_missing: usize = 0;
    let mut i: usize = 0;
    proof {
        assert(recs.skip(0) =~= recs);
    }
    while i < m.files.len()
        invariant
            dir.wf(),
            store.wf(),
            i <= m.files@.len(),
            recs == m@.files,
            recs.len() == m.files@.len(),
            blobs == store.blobs_view(),
            dir0 == old(dir).dir_view(),
            n_unchanged + n_changed + n_missing <= i,
            reconcile_model(recs, dir0, blobs, prefix@) == (match reconcile_model(
                recs.skip(i as int), dir.dir_view(), blobs, prefix@) {
                Ok(p) => Ok::<_, (StepErr, Map<Seq<char>, EntryView>)>((
                    p.0,
                    Counts {
                        unchanged: n_unchanged + p.1.unchanged,
                        changed: n_changed + p.1.changed,
                        missing: n_missing + p.1.missing,
                    },
                )),
                Err(e) => Err(e),
            }),
        decreases m.files@.len() - i,
    {
        let ghost rem = recs.skip(i as int);
        let ghost dir_in = dir.dir_view();
        proof {
            assert(rem[0] == recs[i as int]);
            assert(rem.drop_first() =~= recs.skip(i + 1 as int));
            assert(recs[i as int] == m.files@[i as int]@);
        }
        let rec = &m.files[i];
        let class = classify_record(rec, dir);
        match class {
            FileClass::NotAFile => {
                return Err(EngineError::PathError(rec.r_path.clone()));
            },
            FileClass::Unchanged => {
                n_unchanged = n_unchanged + 1;
            },
            FileClass::Missing => {
                let b = match fetch_blob(rec, store, prefix) {
                    Result::Ok(b) => b,
                    Result::Err(e) => {
                        return Err(e);
                    },
                };
                dir.set_file(&rec.r_path, b);
                n_missing = n_missing + 1;
            },
            FileClass::Changed => {
                let b = match fetch_blob(rec, store, prefix) {
                    Result::Ok(b) => b,
                    Result::Err(e) => {
                        return Err(e);
                    },
                };
                dir.set_file(&rec.r_path, b);
                n_changed = n_changed + 1;
            },
        }
        proof {
            assert(step_model(rem[0], dir_in, blobs, prefix@)
                matches Ok(p) && p.0 == dir.dir_view());
        }
        i = i + 1;
    }
    proof {
        assert(recs.skip(recs.len() as int) =~= Seq::<FileRecordView>::empty());
    }
    Ok(SwitchReport { n_unchanged, n_changed, n_missing })
}

// //////////////// //
// The whole switch //
// //////////////// //

/// What a reconcile run against a store and a name guarantees.
pub open spec fn switch_post(
    name: Seq<char>,
    prefix: Seq<char>,
    dir0: Map<Seq<char>, EntryView>,
    versions: Map<Seq<char>, Seq<char>>,
    blobs: Map<Seq<char>, ObjView>,
    r: Result<SwitchReport, EngineError>,
    dir1: Map<Seq<char>, EntryView>,
) -> bool {
    let vk = version_key_view(prefix, name);
    match r {
        Err(EngineError::VersionNotFound(n)) => !versions.contains_key(vk)
            && n@ == name && dir1 == dir0,
        Err(EngineError::ParseError(_)) => versions.contains_key(vk)
            && spec_parse(versions[vk]) is None && dir1 == dir0,
        Ok(rep) => versions.contains_key(vk)
            && (spec_parse(versions[vk]) matches Some(mv)
                && reconcile_model(mv.files, dir0, blobs, prefix)
                    == Ok::<_, (StepErr, Map<Seq<char>, EntryView>)>((
                        dir1,
                        Counts {
                            unchanged: rep.n_unchanged as int,
                            changed: rep.n_changed as int,
                            missing: rep.n_missing as int,
                        },
                    ))),
        Err(e) => versions.contains_key(vk)
            && (spec_parse(versions[vk]) matches Some(mv)
                && (reconcile_model(mv.files, dir0, blobs, prefix) matches Err(em)
                    && err_matches(e, em.0)
                    && dir1 == em.1)),
    }
}

/// Reconcile the directory against the manifest published under `name`.
///
/// Fails with `VersionNotFound` exactly when the store holds nothing
/// under the name, and with `ParseError` exactly when the stored document
/// does not decode; in both cases the directory is untouched.
pub fn run_switch_mem(
    version_name: &String,
    dir: &mut LocalDir,
    storage_base_path: &String,
    store: &MemStore,
) -> (r: Result<SwitchReport, EngineError>)
    requires
        old(dir).wf(),
        store.wf(),
    ensures
        final(dir).wf(),
        switch_post(
            version_name@,
            storage_base_path@,
            old(dir).dir_view(),
            store.versions_view(),
            store.blobs_view(),
            r,
            final(dir).dir_view(),
        ),
{
    let vk = version_key(storage_base_path, version_name);
    let text = match store.get_version(&vk) {
        Option::Some(t) => t,
        Option::None => {
            return Err(EngineError::VersionNotFound(version_name.clone()));
        },
    };
    let m = match decode_manifest(text.as_str()) {
        Result::Ok(m) => m,
        Result::Err(e) => {
            return Err(e);
        },
    };
    apply_manifest(&m, dir, store, storage_base_path)
}

} // verus!
