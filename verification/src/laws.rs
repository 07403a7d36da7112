//! The engine's laws: properties that hold of every run, proved once
//! against the run postconditions (`snapshot_post`, `reconcile_model`,
//! `switch_post`) rather than observed on examples.

use vstd::prelude::*;
use crate::manifest::{FileRecordView, ManifestView};
use crate::localdir::{LocalFileView, EntryView};
use crate::store::{ObjView, blob_key_view, version_key_view, meta_lookup};
use crate::content::{sha256_of, unbrotli_of};
use crate::snapshot::{
    file_key, key_set, count_new_keys, snapshot_post, rec_matches, fresh_blob_from,
    all_deduplicable,
};
use crate::reconcile::{
    classify, fetch_model, reconcile_model, FileClass, StepErr, Counts, switch_post,
};
use crate::codec::spec_parse;
use crate::errors::EngineError;
use crate::report::{CreateReport, SwitchReport};

verus! {

// //////// //
// Helpers  //
// //////// //

/// Every file's key is in the key set.
proof fn lemma_key_in_key_set(prefix: Seq<char>, files: Seq<LocalFileView>, i: int)
    requires
        0 <= i < files.len(),
    ensures
        key_set(prefix, files).contains(file_key(prefix, files[i])),
    decreases files.len(),
{
    if i > 0 {
        lemma_key_in_key_set(prefix, files.drop_first(), i - 1);
    }
}

/// A run over files whose keys the store already has uploads nothing.
proof fn lemma_count_all_present(prefix: Seq<char>, files: Seq<LocalFileView>, have: Set<Seq<char>>)
    requires
        forall|i: int| 0 <= i < files.len()
            ==> have.contains(#[trigger] file_key(prefix, files[i])),
    ensures
        count_new_keys(prefix, files, have) == 0,
    decreases files.len(),
{
    if files.len() > 0 {
        let k = file_key(prefix, files[0]);
        assert(have.contains(k));
        assert(forall|i: int| 0 <= i < files.drop_first().len()
            ==> have.insert(k).contains(
                #[trigger] file_key(prefix, files.drop_first()[i]))) by {
            assert(forall|i: int| 0 <= i < files.drop_first().len()
                ==> files.drop_first()[i] == files[i + 1]);
        }
        lemma_count_all_present(prefix, files.drop_first(), have.insert(k));
    }
}

/// Two blob keys with the same prefix agree exactly when the digests do.
proof fn lemma_blob_key_inj(prefix: Seq<char>, d1: Seq<char>, d2: Seq<char>)
    requires
        blob_key_view(prefix, d1) == blob_key_view(prefix, d2),
    ensures
        d1 == d2,
{
    let l = prefix.len() + "/files/"@.len();
    assert(blob_key_view(prefix, d1).skip(l as int) =~= d1);
    assert(blob_key_view(prefix, d2).skip(l as int) =~= d2);
}

// ////////////////// //
// Law: dedup is idempotent
// ////////////////// //

/// Running the snapshot builder twice over an unchanged directory against
/// the same store uploads nothing on the second run.
pub proof fn lemma_idempotent_dedup(
    prefix: Seq<char>,
    dv1: Option<Seq<char>>,
    dv2: Option<Seq<char>>,
    files: Seq<LocalFileView>,
    blobs0: Map<Seq<char>, ObjView>,
    blobs1: Map<Seq<char>, ObjView>,
    blobs2: Map<Seq<char>, ObjView>,
    m1: ManifestView,
    m2: ManifestView,
    rep1: CreateReport,
    rep2: CreateReport,
)
    requires
        snapshot_post(prefix, dv1, files, blobs0, blobs1, m1, rep1),
        snapshot_post(prefix, dv2, files, blobs1, blobs2, m2, rep2),
    ensures
        rep2.n_uploaded == 0,
        rep2.n_already_existing == files.len(),
{
    assert forall|i: int| 0 <= i < files.len()
        implies blobs1.dom().contains(#[trigger] file_key(prefix, files[i])) by {
        lemma_key_in_key_set(prefix, files, i);
        assert(blobs1.dom() == blobs0.dom() + key_set(prefix, files));
    }
    lemma_count_all_present(prefix, files, blobs1.dom());
}

// ////////////////// //
// Law: content identity over path
// ////////////////// //

/// Files with identical bytes get identical content identity — the same
/// uncompressed digest, compressed digest, and compressed length — no
/// matter their paths.
pub proof fn lemma_content_identity(
    prefix: Seq<char>,
    dv: Option<Seq<char>>,
    files: Seq<LocalFileView>,
    blobs0: Map<Seq<char>, ObjView>,
    blobs1: Map<Seq<char>, ObjView>,
    m: ManifestView,
    rep: CreateReport,
    i: int,
    j: int,
)
    requires
        snapshot_post(prefix, dv, files, blobs0, blobs1, m, rep),
        0 <= i < files.len(),
        0 <= j < files.len(),
        files[i].content == files[j].content,
    ensures
        m.files[i].u_sha256 == m.files[j].u_sha256,
        m.files[i].c_sha256 == m.files[j].c_sha256,
        m.files[i].c_len == m.files[j].c_len,
{
    assert(rec_matches(prefix, files[i], m.files[i], blobs1));
    assert(rec_matches(prefix, files[j], m.files[j], blobs1));
    assert(file_key(prefix, files[i]) == file_key(prefix, files[j]));
}

/// Many files with one shared content cause exactly one blob upload when
/// the store does not hold that content yet.
pub proof fn lemma_single_upload_for_identical(
    prefix: Seq<char>,
    dv: Option<Seq<char>>,
    files: Seq<LocalFileView>,
    blobs0: Map<Seq<char>, ObjView>,
    blobs1: Map<Seq<char>, ObjView>,
    m: ManifestView,
    rep: CreateReport,
)
    requires
        snapshot_post(prefix, dv, files, blobs0, blobs1, m, rep),
        files.len() > 0,
        forall|i: int| 0 <= i < files.len()
            ==> (#[trigger] files[i]).content == files[0].content,
        !blobs0.contains_key(file_key(prefix, files[0])),
    ensures
        rep.n_uploaded == 1,
{
    lemma_count_uniform(prefix, files, blobs0.dom(), file_key(prefix, files[0]));
}

proof fn lemma_count_uniform(
    prefix: Seq<char>,
    files: Seq<LocalFileView>,
    have: Set<Seq<char>>,
    k: Seq<char>,
)
    requires
        files.len() > 0,
        forall|i: int| 0 <= i < files.len() ==> file_key(prefix, #[trigger] files[i]) == k,
        !have.contains(k),
    ensures
        count_new_keys(prefix, files, have) == 1,
{
    assert(file_key(prefix, files[0]) == k);
    let rest = files.drop_first();
    assert(forall|i: int| 0 <= i < rest.len()
        ==> have.insert(k).contains(#[trigger] file_key(prefix, rest[i]))) by {
        assert(forall|i: int| 0 <= i < rest.len() ==> rest[i] == files[i + 1]);
    }
    lemma_count_all_present(prefix, rest, have.insert(k));
}

// ////////////////// //
// Law: round trip
// ////////////////// //

/// A record whose blob the store can serve: the blob is present, decodes,
/// and decodes to content carrying the record's digest.
pub open spec fn blob_restorable(
    rec: FileRecordView,
    blobs: Map<Seq<char>, ObjView>,
    prefix: Seq<char>,
) -> bool {
    let k = blob_key_view(prefix, rec.u_sha256);
    &&& blobs.contains_key(k)
    &&& unbrotli_of(blobs[k].data) is Some
    &&& sha256_of(unbrotli_of(blobs[k].data)->0) == rec.u_sha256
}

/// Whether some record names this path.
pub open spec fn path_among(recs: Seq<FileRecordView>, q: Seq<char>) -> bool {
    exists|i: int| 0 <= i < recs.len() && q == (#[trigger] recs[i]).r_path
}

/// Outside the records' paths, `d1` is `dir` unchanged.
pub open spec fn untouched_outside(
    recs: Seq<FileRecordView>,
    dir: Map<Seq<char>, EntryView>,
    d1: Map<Seq<char>, EntryView>,
) -> bool {
    forall|q: Seq<char>| !path_among(recs, q)
        ==> #[trigger] d1.contains_key(q) == dir.contains_key(q)
            && (dir.contains_key(q) ==> d1[q] == dir[q])
}

/// Away from one path, `d1` is `dir` unchanged.
pub open spec fn untouched_except(
    p: Seq<char>,
    dir: Map<Seq<char>, EntryView>,
    d1: Map<Seq<char>, EntryView>,
) -> bool {
    forall|q: Seq<char>| q != p
        ==> #[trigger] d1.contains_key(q) == dir.contains_key(q)
            && (dir.contains_key(q) ==> d1[q] == dir[q])
}

/// Restoring distinct-path records into a directory that has none of them
/// restores every one, counts them all as missing, and touches nothing
/// else.
proof fn lemma_restore_all(
    recs: Seq<FileRecordView>,
    dir: Map<Seq<char>, EntryView>,
    blobs: Map<Seq<char>, ObjView>,
    prefix: Seq<char>,
)
    requires
        forall|i: int, j: int| 0 <= i < j < recs.len()
            ==> recs[i].r_path != recs[j].r_path,
        forall|i: int| 0 <= i < recs.len()
            ==> !dir.contains_key((#[trigger] recs[i]).r_path),
        forall|i: int| 0 <= i < recs.len()
            ==> blob_restorable(#[trigger] recs[i], blobs, prefix),
        forall|i: int| 0 <= i < recs.len() ==> (#[trigger] recs[i]).c_algo == "brotli"@,
    ensures
        reconcile_model(recs, dir, blobs, prefix) matches Ok(p) && {
            let d1 = p.0;
            let c = p.1;
            &&& c == (Counts { unchanged: 0, changed: 0, missing: recs.len() as int })
            &&& untouched_outside(recs, dir, d1)
            &&& (forall|i: int| 0 <= i < recs.len()
                ==> d1.contains_key((#[trigger] recs[i]).r_path)
                    && d1[recs[i].r_path] == EntryView::File(
                        unbrotli_of(blobs[blob_key_view(prefix, recs[i].u_sha256)].data)->0))
        },
    decreases recs.len(),
{
    if recs.len() > 0 {
        let rec = recs[0];
        assert(classify(rec, dir) == FileClass::Missing);
        let k = blob_key_view(prefix, rec.u_sha256);
        let b = unbrotli_of(blobs[k].data)->0;
        assert(fetch_model(rec, blobs, prefix) == Ok::<Seq<u8>, StepErr>(b));
        let dir1 = dir.insert(rec.r_path, EntryView::File(b));
        let rest = recs.drop_first();
        assert(forall|i: int| 0 <= i < rest.len() ==> rest[i] == recs[i + 1]);
        assert(forall|i: int| 0 <= i < rest.len()
            ==> !dir1.contains_key((#[trigger] rest[i]).r_path)) by {
            assert(forall|i: int| 0 <= i < rest.len()
                ==> (#[trigger] rest[i]).r_path != rec.r_path);
        }
        lemma_restore_all(rest, dir1, blobs, prefix);
        let p1 = reconcile_model(rest, dir1, blobs, prefix)->Ok_0;
        assert forall|i: int| 0 <= i < recs.len()
            implies p1.0.contains_key((#[trigger] recs[i]).r_path)
                && p1.0[recs[i].r_path] == EntryView::File(
                    unbrotli_of(blobs[blob_key_view(prefix, recs[i].u_sha256)].data)->0) by {
            if i == 0 {
                assert(!path_among(rest, rec.r_path)) by {
                    if path_among(rest, rec.r_path) {
                        let x = choose|x: int| 0 <= x < rest.len()
                            && rec.r_path == (#[trigger] rest[x]).r_path;
                        assert(recs[x + 1].r_path == rec.r_path);
                    }
                }
                assert(p1.0.contains_key(rec.r_path) == dir1.contains_key(rec.r_path));
                assert(p1.0[rec.r_path] == dir1[rec.r_path]);
                assert(dir1[rec.r_path] == EntryView::File(b));
            } else {
                assert(rest[i - 1] == recs[i]);
            }
        }
        assert forall|q: Seq<char>| !path_among(recs, q)
            implies p1.0.contains_key(q) == dir.contains_key(q)
                && (dir.contains_key(q) ==> p1.0[q] == dir[q]) by {
            assert(!path_among(rest, q)) by {
                if path_among(rest, q) {
                    let x = choose|x: int| 0 <= x < rest.len()
                        && q == (#[trigger] rest[x]).r_path;
                    assert(recs[x + 1].r_path == q);
                    assert(path_among(recs, q));
                }
            }
            assert(q != rec.r_path) by {
                if q == rec.r_path {
                    assert(path_among(recs, q));
                }
            }
            assert(p1.0.contains_key(q) == dir1.contains_key(q));
            assert(dir1.contains_key(q) == dir.contains_key(q));
            if dir.contains_key(q) {
                assert(p1.0[q] == dir1[q]);
                assert(dir1[q] == dir[q]);
            }
        }
        assert(untouched_outside(recs, dir, p1.0));
    }
}

/// Snapshotting a directory into a store with no blobs, then reconciling
/// the published manifest into an empty directory, restores the tree
/// byte for byte: every record's file is rewritten with the original
/// bytes and counted as restored, and nothing else is created.
///
/// The premise that equal digests imply equal bytes among the run's
/// files is the content-addressing assumption, stated over exactly the
/// participating contents; it excludes only inputs holding a SHA-256
/// collision.
pub proof fn lemma_round_trip(
    prefix: Seq<char>,
    dv: Option<Seq<char>>,
    files: Seq<LocalFileView>,
    blobs1: Map<Seq<char>, ObjView>,
    m: ManifestView,
    rep: CreateReport,
)
    requires
        snapshot_post(
            prefix,
            dv,
            files,
            Map::<Seq<char>, ObjView>::empty(),
            blobs1,
            m,
            rep,
        ),
        forall|i: int, j: int| 0 <= i < j < files.len()
            ==> files[i].r_path != files[j].r_path,
        forall|i: int, j: int| 0 <= i < files.len() && 0 <= j < files.len()
            && sha256_of(files[i].content) == sha256_of(files[j].content)
            ==> files[i].content == files[j].content,
    ensures
        reconcile_model(m.files, Map::<Seq<char>, EntryView>::empty(), blobs1, prefix)
            matches Ok(p) && {
            let d1 = p.0;
            &&& p.1 == (Counts { unchanged: 0, changed: 0, missing: files.len() as int })
            &&& (forall|i: int| 0 <= i < files.len()
                ==> d1.contains_key((#[trigger] files[i]).r_path)
                    && d1[files[i].r_path] == EntryView::File(files[i].content))
            &&& (forall|q: Seq<char>| d1.contains_key(q)
                ==> exists|i: int| 0 <= i < files.len() && q == (#[trigger] files[i]).r_path)
            &&& manifest_matches(m.files, d1)
        },
{
    let recs = m.files;
    let empty_dir = Map::<Seq<char>, EntryView>::empty();
    assert forall|i: int| 0 <= i < recs.len()
        implies blob_restorable(#[trigger] recs[i], blobs1, prefix)
            && recs[i].c_algo == "brotli"@
            && recs[i].r_path == files[i].r_path
            && recs[i].u_sha256 == sha256_of(files[i].content)
            && recs[i].u_len == files[i].content.len()
            && unbrotli_of(blobs1[blob_key_view(prefix, recs[i].u_sha256)].data)
                == Some(files[i].content) by {
        assert(rec_matches(prefix, files[i], recs[i], blobs1));
        let k = file_key(prefix, files[i]);
        assert(blob_key_view(prefix, recs[i].u_sha256) == k);
        lemma_key_in_key_set(prefix, files, i);
        assert(blobs1.contains_key(k));
        assert(fresh_blob_from(prefix, files, k, blobs1[k]));
        let j = choose|j: int| 0 <= j < files.len()
            && k == file_key(prefix, #[trigger] files[j])
            && unbrotli_of(blobs1[k].data) == Some(files[j].content);
        lemma_blob_key_inj(prefix, sha256_of(files[j].content), sha256_of(files[i].content));
        assert(files[j].content == files[i].content);
        assert(recs[i].c_algo == "brotli"@) by {
            assert(meta_lookup(blobs1[k].metadata, "c_algo"@) == Some(recs[i].c_algo));
            assert(meta_lookup(blobs1[k].metadata, "c_algo"@) == Some("brotli"@));
        }
    }
    assert(forall|i: int, j: int| 0 <= i < j < recs.len()
        ==> recs[i].r_path != recs[j].r_path);
    lemma_restore_all(recs, empty_dir, blobs1, prefix);
    let p = reconcile_model(recs, empty_dir, blobs1, prefix)->Ok_0;
    assert forall|i: int| 0 <= i < files.len()
        implies p.0.contains_key((#[trigger] files[i]).r_path)
            && p.0[files[i].r_path] == EntryView::File(files[i].content) by {
        assert(recs[i].r_path == files[i].r_path);
        assert(p.0.contains_key(recs[i].r_path)
            && p.0[recs[i].r_path] == EntryView::File(
                unbrotli_of(blobs1[blob_key_view(prefix, recs[i].u_sha256)].data)->0));
    }
    assert forall|q: Seq<char>| p.0.contains_key(q)
        implies exists|i: int| 0 <= i < files.len()
            && q == (#[trigger] files[i]).r_path by {
        if !path_among(recs, q) {
            assert(p.0.contains_key(q) == empty_dir.contains_key(q));
            assert(false);
        } else {
            let i = choose|i: int| 0 <= i < recs.len() && q == (#[trigger] recs[i]).r_path;
            assert(files[i].r_path == q);
        }
    }
    assert forall|i: int| 0 <= i < recs.len() implies {
        let rec = #[trigger] recs[i];
        &&& p.0.contains_key(rec.r_path)
        &&& (p.0[rec.r_path] matches EntryView::File(b)
            && b.len() == rec.u_len && sha256_of(b) == rec.u_sha256)
    } by {
        assert(p.0[recs[i].r_path] == EntryView::File(files[i].content));
    }
}

// ////////////////// //
// Law: minimal transfer
// ////////////////// //

/// Every record's path holds a regular file whose size and digest match
/// the record.
pub open spec fn manifest_matches(
    recs: Seq<FileRecordView>,
    dir: Map<Seq<char>, EntryView>,
) -> bool {
    forall|i: int| 0 <= i < recs.len() ==> {
        let rec = #[trigger] recs[i];
        &&& dir.contains_key(rec.r_path)
        &&& (dir[rec.r_path] matches EntryView::File(b)
            && b.len() == rec.u_len && sha256_of(b) == rec.u_sha256)
    }
}

/// Reconciling a directory that already matches the manifest transfers
/// nothing: every record counts as unchanged and the directory stays as
/// it is.
pub proof fn lemma_minimal_transfer(
    recs: Seq<FileRecordView>,
    dir: Map<Seq<char>, EntryView>,
    blobs: Map<Seq<char>, ObjView>,
    prefix: Seq<char>,
)
    requires
        manifest_matches(recs, dir),
    ensures
        reconcile_model(recs, dir, blobs, prefix)
            == Ok::<_, (StepErr, Map<Seq<char>, EntryView>)>((
                dir,
                Counts { unchanged: recs.len() as int, changed: 0, missing: 0 },
            )),
    decreases recs.len(),
{
    if recs.len() > 0 {
        assert(classify(recs[0], dir) == FileClass::Unchanged);
        let rest = recs.drop_first();
        assert(forall|i: int| 0 <= i < rest.len() ==> rest[i] == recs[i + 1]);
        lemma_minimal_transfer(rest, dir, blobs, prefix);
    }
}

/// After the round trip, the restored directory already matches the
/// manifest, so an immediate second reconcile transfers nothing: every
/// record counts as unchanged and the directory stays as it is.
pub proof fn lemma_round_trip_then_minimal(
    prefix: Seq<char>,
    dv: Option<Seq<char>>,
    files: Seq<LocalFileView>,
    blobs1: Map<Seq<char>, ObjView>,
    m: ManifestView,
    rep: CreateReport,
)
    requires
        snapshot_post(
            prefix,
            dv,
            files,
            Map::<Seq<char>, ObjView>::empty(),
            blobs1,
            m,
            rep,
        ),
        forall|i: int, j: int| 0 <= i < j < files.len()
            ==> files[i].r_path != files[j].r_path,
        forall|i: int, j: int| 0 <= i < files.len() && 0 <= j < files.len()
            && sha256_of(files[i].content) == sha256_of(files[j].content)
            ==> files[i].content == files[j].content,
    ensures
        reconcile_model(m.files, Map::<Seq<char>, EntryView>::empty(), blobs1, prefix)
            matches Ok(p)
            && reconcile_model(m.files, p.0, blobs1, prefix)
                == Ok::<_, (StepErr, Map<Seq<char>, EntryView>)>((
                    p.0,
                    Counts { unchanged: files.len() as int, changed: 0, missing: 0 },
                )),
{
    lemma_round_trip(prefix, dv, files, blobs1, m, rep);
    let p = reconcile_model(
        m.files,
        Map::<Seq<char>, EntryView>::empty(),
        blobs1,
        prefix,
    )->Ok_0;
    lemma_minimal_transfer(m.files, p.0, blobs1, prefix);
}

/// After a snapshot run, every file's blob is stored with both metadata
/// entries, so a second run over the same files is owed success by the
/// snapshot contract — and, by the idempotence law, uploads nothing.
pub proof fn lemma_rerun_succeeds(
    prefix: Seq<char>,
    dv: Option<Seq<char>>,
    files: Seq<LocalFileView>,
    blobs0: Map<Seq<char>, ObjView>,
    blobs1: Map<Seq<char>, ObjView>,
    m: ManifestView,
    rep: CreateReport,
)
    requires
        snapshot_post(prefix, dv, files, blobs0, blobs1, m, rep),
    ensures
        all_deduplicable(prefix, files, blobs1),
{
    assert forall|j: int| 0 <= j < files.len() implies {
        let k = file_key(prefix, #[trigger] files[j]);
        &&& blobs1.contains_key(k)
        &&& meta_lookup(blobs1[k].metadata, "c_sha256"@) is Some
        &&& meta_lookup(blobs1[k].metadata, "c_algo"@) is Some
    } by {
        assert(rec_matches(prefix, files[j], m.files[j], blobs1));
    }
}

// ////////////////// //
// Law: change detection without a full rescan
// ////////////////// //

/// A mutation that keeps the byte length is still detected: with sizes
/// equal, the digest comparison classifies the file as changed.
pub proof fn lemma_change_detected(
    rec: FileRecordView,
    dir: Map<Seq<char>, EntryView>,
    b: Seq<u8>,
)
    requires
        dir.contains_key(rec.r_path),
        dir[rec.r_path] == EntryView::File(b),
        b.len() == rec.u_len,
        sha256_of(b) != rec.u_sha256,
    ensures
        classify(rec, dir) == FileClass::Changed,
{
}

/// A directory matching the manifest everywhere but at one record, whose
/// file kept its size with different bytes, reconciles with exactly one
/// change: the mutated file is rewritten and every other record counts
/// as unchanged.
pub proof fn lemma_one_change(
    recs: Seq<FileRecordView>,
    dir: Map<Seq<char>, EntryView>,
    blobs: Map<Seq<char>, ObjView>,
    prefix: Seq<char>,
    t: int,
)
    requires
        forall|i: int, j: int| 0 <= i < j < recs.len()
            ==> recs[i].r_path != recs[j].r_path,
        0 <= t < recs.len(),
        forall|i: int| 0 <= i < recs.len() && i != t ==> {
            let rec = #[trigger] recs[i];
            dir.contains_key(rec.r_path)
                && (dir[rec.r_path] matches EntryView::File(b)
                    && b.len() == rec.u_len && sha256_of(b) == rec.u_sha256)
        },
        dir.contains_key(recs[t].r_path),
        dir[recs[t].r_path] matches EntryView::File(b)
            && b.len() == recs[t].u_len && sha256_of(b) != recs[t].u_sha256,
        blob_restorable(recs[t], blobs, prefix),
        recs[t].c_algo == "brotli"@,
    ensures
        reconcile_model(recs, dir, blobs, prefix) matches Ok(p) && {
            &&& p.1 == (Counts {
                unchanged: recs.len() - 1,
                changed: 1,
                missing: 0,
            })
            &&& (p.0[recs[t].r_path] matches EntryView::File(c)
                && sha256_of(c) == recs[t].u_sha256)
            &&& p.0.contains_key(recs[t].r_path)
            &&& untouched_except(recs[t].r_path, dir, p.0)
        },
    decreases recs.len(),
{
    let rec = recs[0];
    let rest = recs.drop_first();
    assert(forall|i: int| 0 <= i < rest.len() ==> rest[i] == recs[i + 1]);
    if t == 0 {
        assert(classify(rec, dir) == FileClass::Changed);
        let k = blob_key_view(prefix, rec.u_sha256);
        let c = unbrotli_of(blobs[k].data)->0;
        assert(fetch_model(rec, blobs, prefix) == Ok::<Seq<u8>, StepErr>(c));
        let dir1 = dir.insert(rec.r_path, EntryView::File(c));
        assert(manifest_matches(rest, dir1)) by {
            assert(forall|i: int| 0 <= i < rest.len()
                ==> (#[trigger] rest[i]).r_path != rec.r_path);
        }
        lemma_minimal_transfer(rest, dir1, blobs, prefix);
        assert(untouched_except(rec.r_path, dir, dir1));
    } else {
        assert(classify(rec, dir) == FileClass::Unchanged);
        lemma_one_change(rest, dir, blobs, prefix, t - 1);
        assert(rest[t - 1] == recs[t]);
    }
}

// ////////////////// //
// Law: missing-file restore
// ////////////////// //

/// A directory matching the manifest except for one deleted file
/// reconciles by restoring exactly that file; every other record counts
/// as unchanged and nothing else moves.
pub proof fn lemma_missing_restored(
    recs: Seq<FileRecordView>,
    dir: Map<Seq<char>, EntryView>,
    blobs: Map<Seq<char>, ObjView>,
    prefix: Seq<char>,
    t: int,
)
    requires
        forall|i: int, j: int| 0 <= i < j < recs.len()
            ==> recs[i].r_path != recs[j].r_path,
        0 <= t < recs.len(),
        forall|i: int| 0 <= i < recs.len() && i != t ==> {
            let rec = #[trigger] recs[i];
            dir.contains_key(rec.r_path)
                && (dir[rec.r_path] matches EntryView::File(b)
                    && b.len() == rec.u_len && sha256_of(b) == rec.u_sha256)
        },
        !dir.contains_key(recs[t].r_path),
        blob_restorable(recs[t], blobs, prefix),
        recs[t].c_algo == "brotli"@,
    ensures
        reconcile_model(recs, dir, blobs, prefix) matches Ok(p) && {
            &&& p.1 == (Counts {
                unchanged: recs.len() - 1,
                changed: 0,
                missing: 1,
            })
            &&& (p.0[recs[t].r_path] matches EntryView::File(c)
                && sha256_of(c) == recs[t].u_sha256)
            &&& p.0.contains_key(recs[t].r_path)
            &&& untouched_except(recs[t].r_path, dir, p.0)
        },
    decreases recs.len(),
{
    let rec = recs[0];
    let rest = recs.drop_first();
    assert(forall|i: int| 0 <= i < rest.len() ==> rest[i] == recs[i + 1]);
    if t == 0 {
        assert(classify(rec, dir) == FileClass::Missing);
        let k = blob_key_view(prefix, rec.u_sha256);
        let c = unbrotli_of(blobs[k].data)->0;
        assert(fetch_model(rec, blobs, prefix) == Ok::<Seq<u8>, StepErr>(c));
        let dir1 = dir.insert(rec.r_path, EntryView::File(c));
        assert(manifest_matches(rest, dir1)) by {
            assert(forall|i: int| 0 <= i < rest.len()
                ==> (#[trigger] rest[i]).r_path != rec.r_path);
        }
        lemma_minimal_transfer(rest, dir1, blobs, prefix);
        assert(untouched_except(rec.r_path, dir, dir1));
    } else {
        assert(classify(rec, dir) == FileClass::Unchanged);
        lemma_missing_restored(rest, dir, blobs, prefix, t - 1);
        assert(rest[t - 1] == recs[t]);
    }
}

// ////////////////// //
// Law: aliasing
// ////////////////// //

/// Two names pointing at byte-identical manifest documents reconcile a
/// directory to the same result: the same final tree and the same
/// counters, or the same failure.
pub proof fn lemma_aliasing(
    n1: Seq<char>,
    n2: Seq<char>,
    prefix: Seq<char>,
    dir0: Map<Seq<char>, EntryView>,
    versions: Map<Seq<char>, Seq<char>>,
    blobs: Map<Seq<char>, ObjView>,
    r1: Result<SwitchReport, EngineError>,
    r2: Result<SwitchReport, EngineError>,
    dir1: Map<Seq<char>, EntryView>,
    dir2: Map<Seq<char>, EntryView>,
)
    requires
        versions.contains_key(version_key_view(prefix, n1)),
        versions.contains_key(version_key_view(prefix, n2)),
        versions[version_key_view(prefix, n1)] == versions[version_key_view(prefix, n2)],
        switch_post(n1, prefix, dir0, versions, blobs, r1, dir1),
        switch_post(n2, prefix, dir0, versions, blobs, r2, dir2),
    ensures
        dir1 == dir2,
        r1 is Ok <==> r2 is Ok,
        r1 is Ok && r2 is Ok ==> r1->Ok_0 == r2->Ok_0,
{
    let doc = versions[version_key_view(prefix, n1)];
    match spec_parse(doc) {
        Some(mv) => {
            match reconcile_model(mv.files, dir0, blobs, prefix) {
                Ok(p) => {
                    match (r1, r2) {
                        (Ok(a), Ok(b)) => {
                            assert(a.n_unchanged as int == p.1.unchanged);
                            assert(b.n_unchanged as int == p.1.unchanged);
                            assert(a.n_changed as int == p.1.changed);
                            assert(b.n_changed as int == p.1.changed);
                            assert(a.n_missing as int == p.1.missing);
                            assert(b.n_missing as int == p.1.missing);
                        },
                        _ => {},
                    }
                },
                Err(_) => {},
            }
        },
        None => {},
    }
}

} // verus!
