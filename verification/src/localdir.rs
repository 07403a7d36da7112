//! The model of a local directory tree the reconciler works on.
//!
//! Entries are keyed by slash-normalized relative path. An entry is a
//! regular file with its bytes, or something else — a directory or other
//! non-regular object occupying the path, which the reconciler treats as
//! a hard error rather than silently resolving.

use vstd::prelude::*;
use crate::assoc::{
    assoc_map, find_pair, lemma_assoc_found, lemma_assoc_absent,
    lemma_assoc_push_front, lemma_assoc_entry_in_dom, lemma_assoc_remove_at,
};

verus! {

/// One file of the snapshot input: its path relative to the root and its
/// bytes.
pub struct LocalFile {
    /// Slash-normalized path relative to the snapshot root.
    pub r_path: String,
    /// The file's bytes.
    pub content: Vec<u8>,
}

/// The mathematical value of a local file.
pub struct LocalFileView {
    pub r_path: Seq<char>,
    pub content: Seq<u8>,
}

impl View for LocalFile {
    type V = LocalFileView;

    open spec fn view(&self) -> LocalFileView {
        LocalFileView { r_path: self.r_path@, content: self.content@ }
    }
}

/// What occupies a path: a regular file with bytes, or a non-regular
/// entry.
pub enum EntryKind {
    RegularFile(Vec<u8>),
    Other,
}

/// The mathematical value of a directory entry.
pub enum EntryView {
    File(Seq<u8>),
    Other,
}

impl View for EntryKind {
    type V = EntryView;

    open spec fn view(&self) -> EntryView {
        match self {
            EntryKind::RegularFile(b) => EntryView::File(b@),
            EntryKind::Other => EntryView::Other,
        }
    }
}

/// A directory: paths mapped to entries.
pub struct LocalDir {
    entries: Vec<(String, EntryKind)>,
}

impl LocalDir {
    /// Paths are pairwise distinct.
    pub closed spec fn wf(&self) -> bool {
        forall|i: int, j: int| 0 <= i < j < self.entries@.len()
            ==> self.entries@[i].0@ != self.entries@[j].0@
    }

    /// The directory as a map from path to entry.
    pub closed spec fn dir_view(&self) -> Map<Seq<char>, EntryView> {
        assoc_map(self.entries@)
    }

    /// An empty directory.
    pub fn new() -> (r: LocalDir)
        ensures
            r.wf(),
            r.dir_view() == Map::<Seq<char>, EntryView>::empty(),
    {
        LocalDir { entries: Vec::new() }
    }

    /// Drop whatever occupies `path`, if anything.
    fn drop_entry(&mut self, path: &String)
        requires
            old(self).wf(),
        ensures
            final(self).wf(),
            final(self).dir_view() == old(self).dir_view().remove(path@),
    {
        match find_pair(&self.entries, path) {
            Option::Some(i) => {
                proof {
                    lemma_assoc_remove_at(self.entries@, i as int);
                }
                let ghost before = self.entries@;
                self.entries.remove(i);
                proof {
                    assert(forall|x: int, y: int|
                        0 <= x < y < self.entries@.len() ==> self.entries@[x].0@
                            != self.entries@[y].0@) by {
                        assert(forall|x: int| 0 <= x < self.entries@.len()
                            ==> self.entries@[x] == (if x < i { before[x] } else { before[x + 1] }));
                    }
                }
            },
            Option::None => {
                proof {
                    lemma_assoc_absent(self.entries@, path@);
                    assert(self.dir_view().remove(path@) =~= self.dir_view());
                }
            },
        }
    }

    /// Put an entry at `path`, replacing whatever was there.
    fn set_entry(&mut self, path: &String, entry: EntryKind)
        requires
            old(self).wf(),
        ensures
            final(self).wf(),
            final(self).dir_view() == old(self).dir_view().insert(path@, entry@),
    {
        self.drop_entry(path);
        let p = (path.clone(), entry);
        let ghost pg = p;
        let ghost mid = self.entries@;
        proof {
            lemma_assoc_push_front(self.entries@, pg);
        }
        let mut nv: Vec<(String, EntryKind)> = Vec::new();
        nv.push(p);
        nv.append(&mut self.entries);
        proof {
            assert(nv@ =~= seq![pg] + mid);
            assert forall|x: int, y: int| 0 <= x < y < nv@.len()
                implies nv@[x].0@ != nv@[y].0@ by {
                if x == 0 {
                    lemma_assoc_entry_in_dom(mid, y - 1);
                }
            }
            assert(assoc_map(nv@) =~= old(self).dir_view().insert(path@, pg.1@));
        }
        self.entries = nv;
    }

    /// Write a regular file at `path`, replacing whatever was there.
    pub fn set_file(&mut self, path: &String, content: Vec<u8>)
        requires
            old(self).wf(),
        ensures
            final(self).wf(),
            final(self).dir_view() == old(self).dir_view().insert(
                path@,
                EntryView::File(content@),
            ),
    {
        self.set_entry(path, EntryKind::RegularFile(content));
    }

    /// Put a non-regular entry at `path`.
    pub fn set_other(&mut self, path: &String)
        requires
            old(self).wf(),
        ensures
            final(self).wf(),
            final(self).dir_view() == old(self).dir_view().insert(path@, EntryView::Other),
    {
        self.set_entry(path, EntryKind::Other);
    }

    /// Delete whatever occupies `path`.
    pub fn remove(&mut self, path: &String)
        requires
            old(self).wf(),
        ensures
            final(self).wf(),
            final(self).dir_view() == old(self).dir_view().remove(path@),
    {
        self.drop_entry(path);
    }

    /// What occupies `path`, if anything.
    pub fn probe(&self, path: &String) -> (r: Option<&EntryKind>)
        requires
            self.wf(),
        ensures
            match r {
                Some(e) => self.dir_view().contains_key(path@)
                    && self.dir_view()[path@] == e@,
                None => !self.dir_view().contains_key(path@),
            },
    {
        match find_pair(&self.entries, path) {
            Option::Some(i) => {
                proof {
                    lemma_assoc_found(self.entries@, path@, i as int);
                }
                Some(&self.entries[i].1)
            },
            Option::None => {
                proof {
                    lemma_assoc_absent(self.entries@, path@);
                }
                None
            },
        }
    }

    /// The bytes of the regular file at `path`, if one is there.
    pub fn file_content(&self, path: &String) -> (r: Option<Vec<u8>>)
        requires
            self.wf(),
        ensures
            match r {
                Some(b) => self.dir_view().contains_key(path@)
                    && self.dir_view()[path@] == EntryView::File(b@),
                None => !(self.dir_view().contains_key(path@)
                    && self.dir_view()[path@] is File),
            },
    {
        match self.probe(path) {
            Option::Some(e) => match e {
                EntryKind::RegularFile(b) => Some(crate::store::clone_bytes(b)),
                EntryKind::Other => None,
            },
            Option::None => None,
        }
    }
}

} // verus!
