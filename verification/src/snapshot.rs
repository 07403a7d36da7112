//! The snapshot builder: walk results in, manifest and blobs out.
//!
//! For each file the builder computes the content digest, derives the blob
//! key, probes the store, and either reuses the stored blob's recorded
//! identity (the dedup fast path) or compresses and uploads the content.
//! Identical content is never uploaded twice: the store is probed before
//! any compression happens.

use vstd::prelude::*;
use crate::errors::EngineError;
use crate::manifest::{DefinitionVersion, FileDefinition, VersionDefinition, FileRecordView, ManifestView};
use crate::localdir::{LocalFile, LocalFileView};
use crate::store::{MemStore, RemoteFileInfo, ObjView, meta_view, meta_lookup, meta_get, blob_key, blob_key_view, version_key, version_key_view};
use crate::content::{sha256_of, sha256_hex, unbrotli_of, compress};
use crate::codec::{encode_manifest, manifest_text};
use crate::report::CreateReport;

verus! {

/// The payload of a blob upload the builder decided on: the compressed
/// bytes and the metadata to attach.
pub struct BlobUpload {
    pub data: Vec<u8>,
    pub metadata: Vec<(String, String)>,
}

/// The blob key of a file's content.
pub open spec fn file_key(prefix: Seq<char>, f: LocalFileView) -> Seq<char> {
    blob_key_view(prefix, sha256_of(f.content))
}

/// The blob keys of a list of files.
pub open spec fn key_set(prefix: Seq<char>, files: Seq<LocalFileView>) -> Set<Seq<char>>
    decreases files.len(),
{
    if files.len() == 0 {
        Set::<Seq<char>>::empty()
    } else {
        key_set(prefix, files.drop_first()).insert(file_key(prefix, files[0]))
    }
}

/// How many uploads a run makes: one per file whose key is neither in the
/// store already nor among the keys of the files before it.
pub open spec fn count_new_keys(
    prefix: Seq<char>,
    files: Seq<LocalFileView>,
    have: Set<Seq<char>>,
) -> int
    decreases files.len(),
{
    if files.len() == 0 {
        0
    } else {
        let k = file_key(prefix, files[0]);
        (if have.contains(k) { 0int } else { 1int })
            + count_new_keys(prefix, files.drop_first(), have.insert(k))
    }
}

/// A blob this run wrote: it holds the compressed bytes of one of the
/// run's files, under that content's key, with coherent metadata. That a
/// later file with the same key has the same bytes is exactly the
/// content-addressing assumption and is not claimed here.
pub open spec fn fresh_blob_from(
    prefix: Seq<char>,
    files: Seq<LocalFileView>,
    k: Seq<char>,
    o: ObjView,
) -> bool {
    &&& meta_lookup(o.metadata, "c_sha256"@) == Some(sha256_of(o.data))
    &&& meta_lookup(o.metadata, "c_algo"@) == Some("brotli"@)
    &&& exists|j: int| 0 <= j < files.len()
        && k == file_key(prefix, #[trigger] files[j])
        && unbrotli_of(o.data) == Some(files[j].content)
}

/// What a snapshot run guarantees of one file and its record. The
/// record's algorithm is whatever the stored blob's metadata names.
pub open spec fn rec_matches(
    prefix: Seq<char>,
    f: LocalFileView,
    rec: FileRecordView,
    blobs1: Map<Seq<char>, ObjView>,
) -> bool {
    let k = file_key(prefix, f);
    &&& rec.r_path == f.r_path
    &&& rec.u_len == f.content.len()
    &&& rec.u_sha256 == sha256_of(f.content)
    &&& blobs1.contains_key(k)
    &&& meta_lookup(blobs1[k].metadata, "c_sha256"@) == Some(rec.c_sha256)
    &&& meta_lookup(blobs1[k].metadata, "c_algo"@) == Some(rec.c_algo)
    &&& rec.c_len == blobs1[k].data.len()
}

/// The full postcondition of a successful snapshot run over the blobs.
pub open spec fn snapshot_post(
    prefix: Seq<char>,
    dv: Option<Seq<char>>,
    files: Seq<LocalFileView>,
    blobs0: Map<Seq<char>, ObjView>,
    blobs1: Map<Seq<char>, ObjView>,
    m: ManifestView,
    rep: CreateReport,
) -> bool {
    &&& m.version == DefinitionVersion::Version1
    &&& m.display_version == dv
    &&& m.files.len() == files.len()
    &&& (forall|j: int| 0 <= j < files.len()
        ==> rec_matches(prefix, files[j], #[trigger] m.files[j], blobs1))
    &&& (forall|k: Seq<char>| blobs1.contains_key(k) && !blobs0.contains_key(k)
        ==> fresh_blob_from(prefix, files, k, #[trigger] blobs1[k]))
    &&& blobs1.dom() == blobs0.dom() + key_set(prefix, files)
    &&& (forall|k: Seq<char>| blobs0.contains_key(k)
        ==> blobs1.contains_key(k) && blobs1[k] == #[trigger] blobs0[k])
    &&& rep.n_uploaded == count_new_keys(prefix, files, blobs0.dom())
    &&& rep.n_already_existing + rep.n_uploaded == files.len()
}

/// Decide one file's record, given the store's answer about its blob.
///
/// With an existing blob, the record reuses the stored identity — length,
/// compressed digest, and algorithm all come from the store's metadata —
/// and no upload happens; the one failure is a stored blob lacking either
/// metadata entry, and success is owed whenever both are present. Without
/// an existing blob, the content is compressed and an upload is returned;
/// the failures are the compressor's own and the record-schema length
/// gate of `build_upload_record`.
pub fn process_file(
    r_path: &String,
    content: &Vec<u8>,
    digest: &String,
    existing: &Option<RemoteFileInfo>,
) -> (r: Result<(FileDefinition, Option<BlobUpload>), EngineError>)
    requires
        digest@ == sha256_of(content@),
        content@.len() <= u32::MAX,
    ensures
        match r {
            Ok(p) => {
                &&& p.0@.r_path == r_path@
                &&& p.0@.u_len == content@.len()
                &&& p.0@.u_sha256 == sha256_of(content@)
                &&& match existing {
                    Some(info) => p.1 is None
                        && p.0@.c_len == info.c_len
                        && meta_lookup(meta_view(info.metadata@), "c_sha256"@)
                            == Some(p.0@.c_sha256)
                        && meta_lookup(meta_view(info.metadata@), "c_algo"@)
                            == Some(p.0@.c_algo),
                    None => p.1 matches Some(u)
                        && p.0@.c_algo == "brotli"@
                        && unbrotli_of(u.data@) == Some(content@)
                        && u.data@.len() <= u32::MAX
                        && p.0@.c_len == u.data@.len()
                        && p.0@.c_sha256 == sha256_of(u.data@)
                        && meta_lookup(meta_view(u.metadata@), "c_sha256"@)
                            == Some(sha256_of(u.data@))
                        && meta_lookup(meta_view(u.metadata@), "c_algo"@)
                            == Some("brotli"@),
                }
            },
            Err(e) => e.context_view() == r_path@ && match existing {
                Some(info) => e matches EngineError::StoreError(_)
                    && (meta_lookup(meta_view(info.metadata@), "c_sha256"@) is None
                        || meta_lookup(meta_view(info.metadata@), "c_algo"@) is None),
                None => e matches EngineError::CodecError(_),
            },
        },
{
    match existing {
        Option::Some(info) => {
            let c_sha256 = match meta_get(&info.metadata, "c_sha256") {
                Option::Some(v) => v,
                Option::None => {
                    return Err(EngineError::StoreError(r_path.clone()));
                },
            };
            let c_algo = match meta_get(&info.metadata, "c_algo") {
                Option::Some(v) => v,
                Option::None => {
                    return Err(EngineError::StoreError(r_path.clone()));
                },
            };
            let rec = FileDefinition {
                r_path: r_path.clone(),
                u_len: content.len() as u32,
                u_sha256: digest.clone(),
                c_algo,
                c_len: info.c_len,
                c_sha256,
            };
            Ok((rec, None))
        },
        Option::None => {
            let algo = "brotli".to_owned();
            let compressed = match compress(&algo, content) {
                Result::Ok(c) => c,
                Result::Err(_) => {
                    return Err(EngineError::CodecError(r_path.clone()));
                },
            };
            match build_upload_record(r_path, content, digest, compressed) {
                Result::Ok(p) => Ok((p.0, Some(p.1))),
                Result::Err(e) => Err(e),
            }
        },
    }
}

/// Assemble the record and upload payload for freshly compressed content.
///
/// Everything after the compression call happens here, verified: the
/// record's compressed identity and the metadata attached to the upload.
/// Succeeds exactly when the compressed bytes fit the record schema's
/// length field.
pub fn build_upload_record(
    r_path: &String,
    content: &Vec<u8>,
    digest: &String,
    compressed: Vec<u8>,
) -> (r: Result<(FileDefinition, BlobUpload), EngineError>)
    requires
        digest@ == sha256_of(content@),
        content@.len() <= u32::MAX,
    ensures
        match r {
            Ok(p) => {
                &&& compressed@.len() <= u32::MAX
                &&& p.0@.r_path == r_path@
                &&& p.0@.u_len == content@.len()
                &&& p.0@.u_sha256 == sha256_of(content@)
                &&& p.0@.c_algo == "brotli"@
                &&& p.1.data@ == compressed@
                &&& p.0@.c_len == compressed@.len()
                &&& p.0@.c_sha256 == sha256_of(compressed@)
                &&& meta_lookup(meta_view(p.1.metadata@), "c_sha256"@)
                    == Some(sha256_of(compressed@))
                &&& meta_lookup(meta_view(p.1.metadata@), "c_algo"@)
                    == Some("brotli"@)
            },
            Err(e) => e matches EngineError::CodecError(_)
                && e.context_view() == r_path@
                && compressed@.len() > u32::MAX,
        },
{
    if compressed.len() > u32::MAX as usize {
        return Err(EngineError::CodecError(r_path.clone()));
    }
    let c_sha256 = sha256_hex(&compressed);
    let mut metadata: Vec<(String, String)> = Vec::new();
    metadata.push(("c_algo".to_owned(), "brotli".to_owned()));
    metadata.push(("c_sha256".to_owned(), c_sha256.clone()));
    proof {
        reveal_strlit("c_algo");
        reveal_strlit("c_sha256");
        assert(meta_view(metadata@).len() == 2);
        assert(meta_view(metadata@)[0] == ("c_algo"@, "brotli"@));
        assert(meta_view(metadata@)[1] == ("c_sha256"@, c_sha256@));
        assert("c_algo"@ != "c_sha256"@) by {
            assert("c_algo"@.len() == 6);
            assert("c_sha256"@.len() == 8);
        }
        assert(meta_view(metadata@).drop_first()
            =~= seq![("c_sha256"@, c_sha256@)]);
        assert(meta_lookup(meta_view(metadata@), "c_sha256"@)
            == meta_lookup(meta_view(metadata@).drop_first(), "c_sha256"@));
        assert(meta_lookup(seq![("c_sha256"@, c_sha256@)], "c_sha256"@)
            == Some(c_sha256@));
        assert(meta_lookup(meta_view(metadata@), "c_algo"@) == Some("brotli"@));
    }
    let rec = FileDefinition {
        r_path: r_path.clone(),
        u_len: content.len() as u32,
        u_sha256: digest.clone(),
        c_algo: "brotli".to_owned(),
        c_len: compressed.len() as u32,
        c_sha256: c_sha256,
    };
    Ok((rec, BlobUpload { data: compressed, metadata }))
}

/// Every file's blob is already stored with full metadata: the one
/// situation in which no outside call can decide a snapshot run's fate,
/// so the run owes success.
pub open spec fn all_deduplicable(
    prefix: Seq<char>,
    files: Seq<LocalFileView>,
    blobs: Map<Seq<char>, ObjView>,
) -> bool {
    forall|j: int| 0 <= j < files.len() ==> {
        let k = file_key(prefix, #[trigger] files[j]);
        &&& blobs.contains_key(k)
        &&& meta_lookup(blobs[k].metadata, "c_sha256"@) is Some
        &&& meta_lookup(blobs[k].metadata, "c_algo"@) is Some
    }
}

/// Run a snapshot: record every file, upload the missing blobs, and
/// publish the manifest under each requested name.
///
/// On failure no manifest is published and the store's prior contents are
/// untouched; blobs uploaded before the failure remain, which is safe
/// because they are content-addressed.
#[verifier::rlimit(100)]
#[verifier::spinoff_prover]
pub fn run_create_mem(
    display_version: Option<String>,
    version_names: &Vec<String>,
    files: &Vec<LocalFile>,
    storage_base_path: &String,
    store: &mut MemStore,
) -> (r: Result<(VersionDefinition, CreateReport), EngineError>)
    requires
        old(store).wf(),
        forall|i: int| 0 <= i < files@.len()
            ==> (#[trigger] files@[i])@.content.len() <= u32::MAX,
    ensures
        final(store).wf(),
        forall|k: Seq<char>| old(store).blobs_view().contains_key(k)
            ==> final(store).blobs_view().contains_key(k)
                && final(store).blobs_view()[k] == #[trigger] old(store).blobs_view()[k],
        match r {
            Ok(p) => {
                &&& snapshot_post(
                    storage_base_path@,
                    match display_version { Some(d) => Some(d@), None => None },
                    files@.map_values(|f: LocalFile| f@),
                    old(store).blobs_view(),
                    final(store).blobs_view(),
                    p.0@,
                    p.1,
                )
                &&& (forall|j: int| 0 <= j < version_names@.len()
                    ==> final(store).versions_view().contains_key(
                        version_key_view(storage_base_path@, #[trigger] version_names@[j]@))
                        && final(store).versions_view()[
                            version_key_view(storage_base_path@, version_names@[j]@)]
                            == manifest_text(p.0@))
                &&& (forall|k: Seq<char>|
                    old(store).versions_view().contains_key(k)
                    && (forall|j: int| 0 <= j < version_names@.len()
                        ==> k != version_key_view(storage_base_path@, #[trigger] version_names@[j]@))
                    ==> final(store).versions_view().contains_key(k)
                        && final(store).versions_view()[k] == #[trigger] old(store).versions_view()[k])
            },
            Err(e) => {
                &&& (e matches EngineError::CodecError(_) || e matches EngineError::StoreError(_))
                &&& final(store).versions_view() == old(store).versions_view()
                &&& (exists|j: int| 0 <= j < files@.len()
                    && e.context_view() == (#[trigger] files@[j])@.r_path)
                &&& (e matches EngineError::StoreError(_) ==> exists|j: int| {
                    let k = file_key(storage_base_path@, (#[trigger] files@[j])@);
                    &&& 0 <= j < files@.len()
                    &&& old(store).blobs_view().contains_key(k)
                    &&& (meta_lookup(old(store).blobs_view()[k].metadata, "c_sha256"@) is None
                        || meta_lookup(old(store).blobs_view()[k].metadata, "c_algo"@) is None)
                })
            },
        },
        all_deduplicable(
            storage_base_path@,
            files@.map_values(|f: LocalFile| f@),
            old(store).blobs_view(),
        ) ==> r is Ok,
{
    let ghost prefix = storage_base_path@;
    let ghost fviews = files@.map_values(|f: LocalFile| f@);
    let ghost blobs0 = store.blobs_view();
    let ghost vers0 = store.versions_view();

    let mut recs: Vec<FileDefinition> = Vec::new();
    let mut n_already_existing: usize = 0;
    let mut n_uploaded: usize = 0;
    let mut i: usize = 0;
    proof {
        assert(fviews.skip(0) =~= fviews);
        assert(key_set(prefix, fviews.take(0)) =~~= Set::<Seq<char>>::empty());
        assert(blobs0.dom() + key_set(prefix, fviews.take(0)) =~~= blobs0.dom());
    }
    while i < files.len()
        invariant
            store.wf(),
            i <= files@.len(),
            fviews == files@.map_values(|f: LocalFile| f@),
            forall|j: int| 0 <= j < files@.len()
                ==> (#[trigger] files@[j])@.content.len() <= u32::MAX,
            prefix == storage_base_path@,
            blobs0 == old(store).blobs_view(),
            vers0 == old(store).versions_view(),
            store.versions_view() == vers0,
            recs@.len() == i,
            n_already_existing + n_uploaded == i,
            store.blobs_view().dom() == blobs0.dom() + key_set(prefix, fviews.take(i as int)),
            forall|k: Seq<char>| blobs0.contains_key(k)
                ==> store.blobs_view().contains_key(k)
                    && store.blobs_view()[k] == #[trigger] blobs0[k],
            count_new_keys(prefix, fviews, blobs0.dom())
                == n_uploaded + count_new_keys(
                    prefix, fviews.skip(i as int), store.blobs_view().dom()),
            forall|k: Seq<char>| store.blobs_view().contains_key(k) && !blobs0.contains_key(k)
                ==> fresh_blob_from(prefix, fviews.take(i as int), k,
                    #[trigger] store.blobs_view()[k]),
            forall|j: int| 0 <= j < i
                ==> rec_matches(prefix, fviews[j], (#[trigger] recs@[j])@, store.blobs_view()),
        decreases files@.len() - i,
    {
        let ghost blobs_in = store.blobs_view();
        let ghost rem = fviews.skip(i as int);
        proof {
            assert(rem[0] == fviews[i as int]);
            assert(rem.drop_first() =~= fviews.skip(i + 1 as int));
            assert(fviews[i as int] == files@[i as int]@);
        }
        let f = &files[i];
        let digest = sha256_hex(&f.content);
        let key = blob_key(storage_base_path, &digest);
        assert(key@ == file_key(prefix, fviews[i as int]));
        let head = store.head_blob(&key);
        let (rec, upload) = match process_file(&f.r_path, &f.content, &digest, &head) {
            Result::Ok(p) => p,
            Result::Err(e) => {
                proof {
                    let kk = key@;
                    assert(fviews[i as int].r_path == files@[i as int]@.r_path);
                    match head {
                        Option::Some(info) => {
                            assert(store.blobs_view().contains_key(kk));
                            if !blobs0.contains_key(kk) {
                                assert(fresh_blob_from(prefix, fviews.take(i as int), kk,
                                    store.blobs_view()[kk]));
                                assert(false);
                            }
                            assert(store.blobs_view()[kk] == blobs0[kk]);
                            assert(meta_lookup(blobs0[kk].metadata, "c_sha256"@) is None
                                || meta_lookup(blobs0[kk].metadata, "c_algo"@) is None);
                            assert(!all_deduplicable(prefix, fviews, blobs0)) by {
                                if all_deduplicable(prefix, fviews, blobs0) {
                                    assert(blobs0.contains_key(
                                        file_key(prefix, fviews[i as int])));
                                }
                            }
                        },
                        Option::None => {
                            assert(!store.blobs_view().contains_key(kk));
                            assert(!blobs0.contains_key(kk));
                            assert(!all_deduplicable(prefix, fviews, blobs0)) by {
                                if all_deduplicable(prefix, fviews, blobs0) {
                                    assert(blobs0.contains_key(
                                        file_key(prefix, fviews[i as int])));
                                    assert(store.blobs_view().contains_key(kk));
                                }
                            }
                        },
                    }
                }
                return Err(e);
            },
        };
        let ghost k = key@;
        match upload {
            Option::Some(u) => {
                assert(!blobs_in.contains_key(k));
                let BlobUpload { data, metadata } = u;
                let ghost d = data@;
                let ghost md = meta_view(metadata@);
                store.put_blob(&key, data, metadata);
                assert(store.blobs_view()[k] == ObjView { data: d, metadata: md });
                assert(unbrotli_of(d) == Some(fviews[i as int].content));
                proof {
                    assert forall|kx: Seq<char>| store.blobs_view().contains_key(kx)
                        && !blobs0.contains_key(kx)
                        implies fresh_blob_from(prefix, fviews.take(i + 1 as int), kx,
                            store.blobs_view()[kx]) by {
                        if kx == k {
                            assert(fviews.take(i + 1 as int)[i as int] == fviews[i as int]);
                            assert(kx == file_key(prefix, fviews.take(i + 1 as int)[i as int]));
                            assert(unbrotli_of(store.blobs_view()[kx].data)
                                == Some(fviews.take(i + 1 as int)[i as int].content));
                        } else {
                            assert(store.blobs_view()[kx] == blobs_in[kx]);
                            assert(blobs_in.contains_key(kx));
                            assert(fresh_blob_from(prefix, fviews.take(i as int), kx,
                                blobs_in[kx]));
                            let j = choose|j: int| 0 <= j < fviews.take(i as int).len()
                                && kx == file_key(prefix, fviews.take(i as int)[j])
                                && unbrotli_of(blobs_in[kx].data)
                                    == Some(fviews.take(i as int)[j].content);
                            assert(fviews.take(i + 1 as int)[j] == fviews.take(i as int)[j]);
                            assert(kx == file_key(prefix, fviews.take(i + 1 as int)[j]));
                        }
                    }
                }
                n_uploaded = n_uploaded + 1;
                proof {
                    assert(store.blobs_view().dom() =~~= blobs_in.dom().insert(k));
                    assert(blobs_in.dom().insert(k)
                        =~~= blobs0.dom() + key_set(prefix, fviews.take(i + 1 as int))) by {
                        assert(key_set(prefix, fviews.take(i + 1 as int))
                            =~~= key_set(prefix, fviews.take(i as int)).insert(k)) by {
                            lemma_key_set_snoc(prefix, fviews.take(i as int), fviews[i as int]);
                            assert(fviews.take(i + 1 as int)
                                =~= fviews.take(i as int).push(fviews[i as int]));
                        }
                    }
                    assert(count_new_keys(prefix, rem, blobs_in.dom())
                        == 1 + count_new_keys(prefix, fviews.skip(i + 1 as int),
                            blobs_in.dom().insert(k)));
                }
            },
            Option::None => {
                assert(blobs_in.contains_key(k));
                n_already_existing = n_already_existing + 1;
                proof {
                    assert forall|kx: Seq<char>| store.blobs_view().contains_key(kx)
                        && !blobs0.contains_key(kx)
                        implies fresh_blob_from(prefix, fviews.take(i + 1 as int), kx,
                            store.blobs_view()[kx]) by {
                        assert(fresh_blob_from(prefix, fviews.take(i as int), kx,
                            store.blobs_view()[kx]));
                        let j = choose|j: int| 0 <= j < fviews.take(i as int).len()
                            && kx == file_key(prefix, fviews.take(i as int)[j])
                            && unbrotli_of(store.blobs_view()[kx].data)
                                == Some(fviews.take(i as int)[j].content);
                        assert(fviews.take(i + 1 as int)[j] == fviews.take(i as int)[j]);
                        assert(kx == file_key(prefix, fviews.take(i + 1 as int)[j]));
                    }
                    assert(store.blobs_view().dom()
                        =~~= blobs0.dom() + key_set(prefix, fviews.take(i + 1 as int))) by {
                        lemma_key_set_snoc(prefix, fviews.take(i as int), fviews[i as int]);
                        assert(fviews.take(i + 1 as int)
                            =~= fviews.take(i as int).push(fviews[i as int]));
                    }
                    assert(blobs_in.dom().insert(k) =~~= blobs_in.dom());
                    assert(count_new_keys(prefix, rem, blobs_in.dom())
                        == count_new_keys(prefix, fviews.skip(i + 1 as int), blobs_in.dom()));
                }
            },
        }
        recs.push(rec);
        proof {
            assert(rec_matches(prefix, fviews[i as int], rec@, store.blobs_view()));
            assert(forall|j: int| 0 <= j < i
                ==> rec_matches(prefix, fviews[j], (#[trigger] recs@[j])@,
                    store.blobs_view()));
        }
        i = i + 1;
    }
    proof {
        assert(fviews.take(fviews.len() as int) =~= fviews);
        assert(fviews.take(fviews.len() as int) == fviews);
        assert(fviews.skip(fviews.len() as int) =~= Seq::<LocalFileView>::empty());
    }
    let m = VersionDefinition {
        version: DefinitionVersion::Version1,
        display_version,
        files: recs,
    };
    assert(m@.files =~= recs@.map_values(|fd: FileDefinition| fd@));
    let text = encode_manifest(&m);
    let ghost blobs_done = store.blobs_view();
    let mut j: usize = 0;
    while j < version_names.len()
        invariant
            store.wf(),
            j <= version_names@.len(),
            text@ == manifest_text(m@),
            store.blobs_view() == blobs_done,
            forall|x: int| 0 <= x < j
                ==> store.versions_view().contains_key(
                    version_key_view(storage_base_path@, #[trigger] version_names@[x]@))
                    && store.versions_view()[
                        version_key_view(storage_base_path@, version_names@[x]@)]
                        == manifest_text(m@),
            forall|k: Seq<char>|
                vers0.contains_key(k)
                && (forall|x: int| 0 <= x < j
                    ==> k != version_key_view(storage_base_path@, #[trigger] version_names@[x]@))
                ==> store.versions_view().contains_key(k)
                    && store.versions_view()[k] == #[trigger] vers0[k],
            forall|k: Seq<char>| store.versions_view().contains_key(k)
                ==> vers0.contains_key(k)
                    || (exists|x: int| 0 <= x < j
                        && k == version_key_view(storage_base_path@, (#[trigger] version_names@[x])@)),
            forall|k: Seq<char>| vers0.contains_key(k)
                ==> store.versions_view().contains_key(k),
        decreases version_names@.len() - j,
    {
        let vk = version_key(storage_base_path, &version_names[j]);
        store.put_version(&vk, text.clone());
        j = j + 1;
    }
    Ok((m, CreateReport { n_already_existing, n_uploaded }))
}

/// Appending a file adds its key to the key set.
proof fn lemma_key_set_snoc(prefix: Seq<char>, files: Seq<LocalFileView>, f: LocalFileView)
    ensures
        key_set(prefix, files.push(f)) == key_set(prefix, files).insert(file_key(prefix, f)),
    decreases files.len(),
{
    if files.len() == 0 {
        let s2 = files.push(f);
        assert(s2.len() == 1);
        assert(s2[0] == f);
        assert(s2.drop_first() =~= Seq::<LocalFileView>::empty());
        assert(key_set(prefix, s2)
            == key_set(prefix, s2.drop_first()).insert(file_key(prefix, s2[0])));
        assert(key_set(prefix, s2.drop_first()) == Set::<Seq<char>>::empty());
        assert(key_set(prefix, files) == Set::<Seq<char>>::empty());
        assert(file_key(prefix, s2[0]) == file_key(prefix, f));
    } else {
        lemma_key_set_snoc(prefix, files.drop_first(), f);
        let a = key_set(prefix, files.drop_first());
        let k0 = file_key(prefix, files[0]);
        let kf = file_key(prefix, f);
        assert(files.push(f).drop_first() =~= files.drop_first().push(f));
        assert(files.push(f)[0] == files[0]);
        assert(key_set(prefix, files.push(f))
            == key_set(prefix, files.drop_first().push(f)).insert(k0));
        assert(key_set(prefix, files.drop_first().push(f)) == a.insert(kf));
        assert(key_set(prefix, files) == a.insert(k0));
        assert(a.insert(kf).insert(k0) =~~= a.insert(k0).insert(kf));
    }
}

} // verus!
