//! The in-memory blob store the verified engines run against.
//!
//! The store holds two key spaces: blobs under `<prefix>/files/<digest>`
//! and manifests under `<prefix>/versions/<name>`. Both are association
//! lists whose view is a map; a new pair is put in front, so the front
//! match is the current value.

use vstd::prelude::*;
use crate::text::{str_to_chars, chars_to_string, push_lit};
use crate::assoc::{
    assoc_map, find_pair, lemma_assoc_found, lemma_assoc_absent,
    lemma_assoc_push_front, lemma_assoc_entry_in_dom, lemma_assoc_dom_len,
};

verus! {

// ///////////// //
// Store values  //
// ///////////// //

/// Copy a byte vector.
pub fn clone_bytes(v: &Vec<u8>) -> (r: Vec<u8>)
    ensures
        r@ == v@,
{
    let mut out: Vec<u8> = Vec::new();
    let mut i: usize = 0;
    while i < v.len()
        invariant
            i <= v@.len(),
            out@ == v@.take(i as int),
        decreases v@.len() - i,
    {
        out.push(v[i]);
        assert(v@.take(i + 1 as int) =~= v@.take(i as int).push(v@[i as int]));
        i = i + 1;
    }
    assert(v@.take(v@.len() as int) =~= v@);
    out
}

/// Copy a metadata list.
pub fn clone_meta(v: &Vec<(String, String)>) -> (r: Vec<(String, String)>)
    ensures
        r@ == v@,
{
    let mut out: Vec<(String, String)> = Vec::new();
    let mut i: usize = 0;
    while i < v.len()
        invariant
            i <= v@.len(),
            out@ == v@.take(i as int),
        decreases v@.len() - i,
    {
        let p = (v[i].0.clone(), v[i].1.clone());
        assert(p == v@[i as int]);
        out.push(p);
        assert(v@.take(i + 1 as int) =~= v@.take(i as int).push(v@[i as int]));
        i = i + 1;
    }
    assert(v@.take(v@.len() as int) =~= v@);
    out
}

/// The key/value metadata attached to a stored object.
pub open spec fn meta_view(m: Seq<(String, String)>) -> Seq<(Seq<char>, Seq<char>)> {
    m.map_values(|p: (String, String)| (p.0@, p.1@))
}

/// First value under a metadata key, if any.
pub open spec fn meta_lookup(m: Seq<(Seq<char>, Seq<char>)>, k: Seq<char>) -> Option<Seq<char>>
    decreases m.len(),
{
    if m.len() == 0 {
        None
    } else if m[0].0 == k {
        Some(m[0].1)
    } else {
        meta_lookup(m.drop_first(), k)
    }
}

/// Fetch the first value under a metadata key.
pub fn meta_get(m: &Vec<(String, String)>, k: &str) -> (r: Option<String>)
    ensures
        match r {
            Some(v) => meta_lookup(meta_view(m@), k@) == Some(v@),
            None => meta_lookup(meta_view(m@), k@) is None,
        },
{
    let kc = str_to_chars(k);
    let mut i: usize = 0;
    proof {
        assert(meta_view(m@).skip(0) =~= meta_view(m@));
    }
    while i < m.len()
        invariant
            i <= m@.len(),
            kc@ == k@,
            meta_lookup(meta_view(m@), k@)
                == meta_lookup(meta_view(m@).skip(i as int), k@),
        decreases m@.len() - i,
    {
        let ghost mv = meta_view(m@);
        assert(mv.skip(i as int)[0] == mv[i as int]);
        assert(mv[i as int] == (m@[i as int].0@, m@[i as int].1@));
        assert(mv.skip(i as int).len() > 0);
        let key_chars = str_to_chars(m[i].0.as_str());
        if crate::text::chars_eq(&key_chars, &kc) {
            return Some(m[i].1.clone());
        }
        proof {
            assert(mv.skip(i as int).drop_first() =~= mv.skip(i + 1 as int));
        }
        i = i + 1;
    }
    proof {
        assert(meta_view(m@).skip(m@.len() as int) =~= Seq::<(Seq<char>, Seq<char>)>::empty());
    }
    None
}

/// One stored object: its bytes and its attached metadata.
pub struct StoredObject {
    pub data: Vec<u8>,
    pub metadata: Vec<(String, String)>,
}

/// The mathematical value of a stored object.
pub struct ObjView {
    pub data: Seq<u8>,
    pub metadata: Seq<(Seq<char>, Seq<char>)>,
}

impl View for StoredObject {
    type V = ObjView;

    open spec fn view(&self) -> ObjView {
        ObjView { data: self.data@, metadata: meta_view(self.metadata@) }
    }
}

/// The existence/metadata probe result for a stored blob.
pub struct RemoteFileInfo {
    /// Byte length of the stored (compressed) blob.
    pub c_len: u32,
    /// The blob's attached metadata.
    pub metadata: Vec<(String, String)>,
}

// /////////// //
// Store keys  //
// /////////// //

/// The storage key of the blob holding content with the given digest.
pub open spec fn blob_key_view(prefix: Seq<char>, digest: Seq<char>) -> Seq<char> {
    prefix + "/files/"@ + digest
}

/// The storage key of the manifest published under a name.
pub open spec fn version_key_view(prefix: Seq<char>, name: Seq<char>) -> Seq<char> {
    prefix + "/versions/"@ + name
}

/// Build the blob key for a digest.
pub fn blob_key(prefix: &String, digest: &String) -> (r: String)
    ensures
        r@ == blob_key_view(prefix@, digest@),
{
    let mut out = str_to_chars(prefix.as_str());
    push_lit(&mut out, "/files/");
    let mut d = str_to_chars(digest.as_str());
    out.append(&mut d);
    chars_to_string(&out)
}

/// Build the version key for a name.
pub fn version_key(prefix: &String, name: &String) -> (r: String)
    ensures
        r@ == version_key_view(prefix@, name@),
{
    let mut out = str_to_chars(prefix.as_str());
    push_lit(&mut out, "/versions/");
    let mut n = str_to_chars(name.as_str());
    out.append(&mut n);
    chars_to_string(&out)
}

// ////////// //
// The store  //
// ////////// //

/// An in-memory store offering the capability surface the engines need:
/// a metadata probe, an idempotent keyed upload, and a keyed fetch.
pub struct MemStore {
    blobs: Vec<(String, StoredObject)>,
    versions: Vec<(String, String)>,
}

impl MemStore {
    /// Every stored blob fits the manifest's length field, and blob keys
    /// are pairwise distinct: a blob, once written, is never replaced.
    pub closed spec fn wf(&self) -> bool {
        &&& forall|i: int| 0 <= i < self.blobs@.len()
            ==> #[trigger] self.blobs@[i].1.data@.len() <= u32::MAX
        &&& forall|i: int, j: int| 0 <= i < j < self.blobs@.len()
            ==> self.blobs@[i].0@ != self.blobs@[j].0@
    }

    /// The blobs, as a map from key to stored object.
    pub closed spec fn blobs_view(&self) -> Map<Seq<char>, ObjView> {
        assoc_map(self.blobs@)
    }

    /// The published manifests, as a map from key to document text.
    pub closed spec fn versions_view(&self) -> Map<Seq<char>, Seq<char>> {
        assoc_map(self.versions@)
    }

    /// An empty store.
    pub fn new() -> (r: MemStore)
        ensures
            r.wf(),
            r.blobs_view() == Map::<Seq<char>, ObjView>::empty(),
            r.versions_view() == Map::<Seq<char>, Seq<char>>::empty(),
    {
        MemStore { blobs: Vec::new(), versions: Vec::new() }
    }

    /// Existence/metadata probe for a blob; transfers no body bytes.
    pub fn head_blob(&self, key: &String) -> (r: Option<RemoteFileInfo>)
        requires
            self.wf(),
        ensures
            match r {
                Some(info) => self.blobs_view().contains_key(key@)
                    && info.c_len == self.blobs_view()[key@].data.len()
                    && meta_view(info.metadata@) == self.blobs_view()[key@].metadata,
                None => !self.blobs_view().contains_key(key@),
            },
    {
        match find_pair(&self.blobs, key) {
            Option::Some(i) => {
                proof {
                    lemma_assoc_found(self.blobs@, key@, i as int);
                }
                let obj = &self.blobs[i].1;
                Some(RemoteFileInfo {
                    c_len: obj.data.len() as u32,
                    metadata: clone_meta(&obj.metadata),
                })
            },
            Option::None => {
                proof {
                    lemma_assoc_absent(self.blobs@, key@);
                }
                None
            },
        }
    }

    /// Borrow a stored blob.
    pub fn get_blob(&self, key: &String) -> (r: Option<&StoredObject>)
        ensures
            match r {
                Some(obj) => self.blobs_view().contains_key(key@)
                    && obj@ == self.blobs_view()[key@],
                None => !self.blobs_view().contains_key(key@),
            },
    {
        match find_pair(&self.blobs, key) {
            Option::Some(i) => {
                proof {
                    lemma_assoc_found(self.blobs@, key@, i as int);
                }
                Some(&self.blobs[i].1)
            },
            Option::None => {
                proof {
                    lemma_assoc_absent(self.blobs@, key@);
                }
                None
            },
        }
    }

    /// Store a blob under its content key. Blobs are immutable: the engine
    /// uploads only keys whose probe came back empty.
    pub(crate) fn put_blob(&mut self, key: &String, data: Vec<u8>, metadata: Vec<(String, String)>)
        requires
            old(self).wf(),
            data@.len() <= u32::MAX,
            !old(self).blobs_view().contains_key(key@),
        ensures
            final(self).wf(),
            final(self).blobs_view() == old(self).blobs_view().insert(
                key@,
                ObjView { data: data@, metadata: meta_view(metadata@) },
            ),
            final(self).versions_view() == old(self).versions_view(),
    {
        let p = (key.clone(), StoredObject { data, metadata });
        let ghost pg = p;
        proof {
            lemma_assoc_push_front(self.blobs@, pg);
        }
        let mut nv: Vec<(String, StoredObject)> = Vec::new();
        nv.push(p);
        nv.append(&mut self.blobs);
        proof {
            assert(nv@ =~= seq![pg] + old(self).blobs@);
            assert forall|i: int, j: int| 0 <= i < j < nv@.len()
                implies nv@[i].0@ != nv@[j].0@ by {
                if i == 0 {
                    lemma_assoc_entry_in_dom(old(self).blobs@, j - 1);
                }
            }
        }
        self.blobs = nv;
    }

    /// Publish a manifest text under a version key. Re-publishing a name
    /// replaces what the name points at.
    pub fn put_version(&mut self, key: &String, text: String)
        requires
            old(self).wf(),
        ensures
            final(self).wf(),
            final(self).versions_view() == old(self).versions_view().insert(key@, text@),
            final(self).blobs_view() == old(self).blobs_view(),
    {
        let p = (key.clone(), text);
        let ghost pg = p;
        proof {
            lemma_assoc_push_front(self.versions@, pg);
        }
        let mut nv: Vec<(String, String)> = Vec::new();
        nv.push(p);
        nv.append(&mut self.versions);
        proof {
            assert(nv@ =~= seq![pg] + old(self).versions@);
        }
        self.versions = nv;
    }

    /// Fetch a published manifest text.
    pub fn get_version(&self, key: &String) -> (r: Option<String>)
        ensures
            match r {
                Some(text) => self.versions_view().contains_key(key@)
                    && text@ == self.versions_view()[key@],
                None => !self.versions_view().contains_key(key@),
            },
    {
        match find_pair(&self.versions, key) {
            Option::Some(i) => {
                proof {
                    lemma_assoc_found(self.versions@, key@, i as int);
                }
                Some(self.versions[i].1.clone())
            },
            Option::None => {
                proof {
                    lemma_assoc_absent(self.versions@, key@);
                }
                None
            },
        }
    }

    /// How many blobs the store holds.
    pub fn blob_count(&self) -> (r: usize)
        requires
            self.wf(),
        ensures
            self.blobs_view().dom().finite(),
            r == self.blobs_view().dom().len(),
    {
        proof {
            lemma_assoc_dom_len(self.blobs@);
        }
        self.blobs.len()
    }
}

} // verus!
