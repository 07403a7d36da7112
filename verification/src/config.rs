//! The per-directory configuration: which version a folder last
//! installed, and from where.

use vstd::prelude::*;
use crate::assoc::{
    assoc_map, find_pair, lemma_assoc_found, lemma_assoc_absent,
    lemma_assoc_push_front, lemma_assoc_entry_in_dom, lemma_assoc_remove_at,
};

verus! {

/// What one folder remembers of its last switch.
#[derive(Debug, Clone)]
pub struct FolderConfig {
    /// The version name last reconciled into the folder.
    pub last_installed_version: String,
    /// The storage endpoint it came from.
    pub s3_url: String,
    /// The path prefix inside the store, if one was used.
    pub storage_path_prefix: Option<String>,
}

/// The mathematical value of a folder's configuration.
pub struct FolderConfigView {
    pub last_installed_version: Seq<char>,
    pub s3_url: Seq<char>,
    pub storage_path_prefix: Option<Seq<char>>,
}

impl View for FolderConfig {
    type V = FolderConfigView;

    open spec fn view(&self) -> FolderConfigView {
        FolderConfigView {
            last_installed_version: self.last_installed_version@,
            s3_url: self.s3_url@,
            storage_path_prefix: match self.storage_path_prefix {
                Some(ref s) => Some(s@),
                None => None,
            },
        }
    }
}

/// The whole configuration: folders keyed by canonical directory path.
pub struct Config {
    folders: Vec<(String, FolderConfig)>,
}

impl Config {
    /// Folder paths are pairwise distinct.
    pub closed spec fn wf(&self) -> bool {
        forall|i: int, j: int| 0 <= i < j < self.folders@.len()
            ==> self.folders@[i].0@ != self.folders@[j].0@
    }

    /// The folder entries in storage order.
    pub closed spec fn folders_seq(&self) -> Seq<(String, FolderConfig)> {
        self.folders@
    }

    /// The configuration as a map from folder path to its entry.
    pub closed spec fn folders_view(&self) -> Map<Seq<char>, FolderConfigView> {
        assoc_map(self.folders@)
    }

    /// An empty configuration.
    pub fn new() -> (r: Config)
        ensures
            r.wf(),
            r.folders_view() == Map::<Seq<char>, FolderConfigView>::empty(),
    {
        Config { folders: Vec::new() }
    }

    /// The entry for a folder, if any.
    pub fn get_folder(&self, path: &String) -> (r: Option<&FolderConfig>)
        requires
            self.wf(),
        ensures
            match r {
                Some(fc) => self.folders_view().contains_key(path@)
                    && self.folders_view()[path@] == fc@,
                None => !self.folders_view().contains_key(path@),
            },
    {
        match find_pair(&self.folders, path) {
            Option::Some(i) => {
                proof {
                    lemma_assoc_found(self.folders@, path@, i as int);
                }
                Some(&self.folders[i].1)
            },
            Option::None => {
                proof {
                    lemma_assoc_absent(self.folders@, path@);
                }
                None
            },
        }
    }

    /// Remember a folder's entry, replacing any previous one.
    pub fn set_folder(&mut self, path: &String, fc: FolderConfig)
        requires
            old(self).wf(),
        ensures
            final(self).wf(),
            final(self).folders_view() == old(self).folders_view().insert(path@, fc@),
    {
        match find_pair(&self.folders, path) {
            Option::Some(i) => {
                proof {
                    lemma_assoc_remove_at(self.folders@, i as int);
                }
                let ghost before = self.folders@;
                self.folders.remove(i);
                proof {
                    assert(forall|x: int, y: int|
                        0 <= x < y < self.folders@.len() ==> self.folders@[x].0@
                            != self.folders@[y].0@) by {
                        assert(forall|x: int| 0 <= x < self.folders@.len()
                            ==> self.folders@[x]
                                == (if x < i { before[x] } else { before[x + 1] }));
                    }
                }
            },
            Option::None => {
                proof {
                    lemma_assoc_absent(self.folders@, path@);
                    assert(self.folders_view().remove(path@) =~= self.folders_view());
                }
            },
        }
        let p = (path.clone(), fc);
        let ghost pg = p;
        let ghost mid = self.folders@;
        proof {
            lemma_assoc_push_front(self.folders@, pg);
        }
        let mut nv: Vec<(String, FolderConfig)> = Vec::new();
        nv.push(p);
        nv.append(&mut self.folders);
        proof {
            assert(nv@ =~= seq![pg] + mid);
            assert forall|x: int, y: int| 0 <= x < y < nv@.len()
                implies nv@[x].0@ != nv@[y].0@ by {
                if x == 0 {
                    lemma_assoc_entry_in_dom(mid, y - 1);
                }
            }
            assert(assoc_map(nv@)
                =~= old(self).folders_view().insert(path@, pg.1@));
        }
        self.folders = nv;
    }

    /// How many folders are remembered.
    pub fn folder_count(&self) -> (r: usize)
        ensures
            r == self.folders_seq().len(),
    {
        self.folders.len()
    }

    /// The folder path at an index, for enumeration.
    pub fn folder_path_at(&self, i: usize) -> (r: &String)
        requires
            i < self.folders_seq().len(),
        ensures
            r@ == self.folders_seq()[i as int].0@,
    {
        &self.folders[i].0
    }

    /// The folder entry at an index, for enumeration.
    pub fn folder_at(&self, i: usize) -> (r: &FolderConfig)
        requires
            i < self.folders_seq().len(),
        ensures
            r@ == self.folders_seq()[i as int].1@,
    {
        &self.folders[i].1
    }
}

} // verus!
