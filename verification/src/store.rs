//! The storage model and its lifecycle rules.
//!
//! A [`Store`] mirrors the directory tree under the storage root: which user
//! directories exist, which bucket directories exist inside them, and which
//! files with which bytes live in the buckets. Operations mutate the model
//! and return the filesystem actions, in order, that realize the change on a
//! real disk. Directories are created lazily before a write and removed
//! again, bottom up, as soon as a deletion leaves them empty.

use vstd::prelude::*;
use vstd::pervasive::unreached;
use vstd::string::StringExecFns;

verus! {

use crate::assoc::{
    kv_map,
    keys_unique,
    elem_set,
    elems_unique,
    lemma_kv_map_at,
    lemma_kv_map_absent,
    lemma_kv_map_some_index,
    lemma_kv_map_push,
    lemma_kv_map_remove,
    lemma_elem_set_at,
    lemma_elem_set_absent,
    lemma_elem_set_some_index,
    lemma_elem_set_push,
    lemma_elem_set_remove,
};
use crate::config::{Config, UserData};

/// One filesystem action that an I/O layer has to carry out.
#[derive(PartialEq, Eq, Debug)]
pub enum FsAction {
    CreateDir(String),
    RemoveDir(String),
    WriteFile(String, Vec<u8>),
    RemoveFile(String),
}

/// How a storage operation fails.
#[derive(Clone, Copy, PartialEq, Eq, Structural, Debug)]
pub enum StoreError {
    /// The addressed directory or file does not exist.
    NotFound,
    /// A create-open hit an already existing file.
    Conflict,
    /// A filesystem action failed; reserved for the I/O layer, the model
    /// itself never produces it.
    InternalError,
}

pub open spec fn is_create_dir(a: FsAction, p: Seq<char>) -> bool {
    match a {
        FsAction::CreateDir(q) => q@ == p,
        _ => false,
    }
}

pub open spec fn is_remove_dir(a: FsAction, p: Seq<char>) -> bool {
    match a {
        FsAction::RemoveDir(q) => q@ == p,
        _ => false,
    }
}

pub open spec fn is_write_file(a: FsAction, p: Seq<char>, d: Seq<u8>) -> bool {
    match a {
        FsAction::WriteFile(q, data) => q@ == p && data@ == d,
        _ => false,
    }
}

pub open spec fn is_remove_file(a: FsAction, p: Seq<char>) -> bool {
    match a {
        FsAction::RemoveFile(q) => q@ == p,
        _ => false,
    }
}

/// One stored file: its user folder, its bucket, its sanitized name, and
/// its bytes.
struct FileEntry {
    folder: String,
    bucket: String,
    name: String,
    data: Vec<u8>,
}

/// The views under which the model's vectors are read.
pub open spec fn dir_views(s: Seq<String>) -> Seq<Seq<char>> {
    s.map_values(|x: String| x@)
}

pub open spec fn bucket_views(s: Seq<(String, String)>) -> Seq<(Seq<char>, Seq<char>)> {
    s.map_values(|p: (String, String)| (p.0@, p.1@))
}

spec fn entry_kvs(s: Seq<FileEntry>) -> Seq<((Seq<char>, Seq<char>, Seq<char>), Seq<u8>)> {
    s.map_values(|e: FileEntry| ((e.folder@, e.bucket@, e.name@), e.data@))
}

/// The modelled directory tree: the storage root's name, the existing user
/// directories, the existing bucket directories, and the stored files.
pub struct Store {
    storage_folder: String,
    user_dirs: Vec<String>,
    bucket_dirs: Vec<(String, String)>,
    entries: Vec<FileEntry>,
}

impl Store {
    /// The storage root's name.
    pub closed spec fn root(self) -> Seq<char> {
        self.storage_folder@
    }

    /// The user directories that exist, by folder name.
    pub closed spec fn dirs(self) -> Set<Seq<char>> {
        elem_set(dir_views(self.user_dirs@))
    }

    /// The bucket directories that exist, as (folder, bucket) pairs.
    pub closed spec fn buckets(self) -> Set<(Seq<char>, Seq<char>)> {
        elem_set(bucket_views(self.bucket_dirs@))
    }

    /// The stored files: (folder, bucket, name) to bytes.
    pub closed spec fn files(self) -> Map<(Seq<char>, Seq<char>, Seq<char>), Seq<u8>> {
        kv_map(entry_kvs(self.entries@))
    }

    /// The user directory holds at least one bucket directory.
    pub open spec fn dir_occupied(self, f: Seq<char>) -> bool {
        exists|b: Seq<char>| self.buckets().contains((f, b))
    }

    /// The bucket directory holds at least one file.
    pub open spec fn bucket_occupied(self, f: Seq<char>, b: Seq<char>) -> bool {
        exists|n: Seq<char>| self.files().contains_key((f, b, n))
    }

    /// The model is coherent: no directory or file is listed twice, every
    /// bucket directory sits in an existing user directory, and every file
    /// sits in an existing bucket directory.
    pub closed spec fn wf(self) -> bool {
        &&& elems_unique(dir_views(self.user_dirs@))
        &&& elems_unique(bucket_views(self.bucket_dirs@))
        &&& keys_unique(entry_kvs(self.entries@))
        &&& forall|i: int|
            0 <= i < self.bucket_dirs@.len() ==> self.dirs().contains(
                (#[trigger] self.bucket_dirs@[i]).0@,
            )
        &&& forall|i: int|
            0 <= i < self.entries@.len() ==> self.buckets().contains(
                ((#[trigger] self.entries@[i]).folder@, self.entries@[i].bucket@),
            )
    }

    /// A fresh model of an empty storage root.
    pub fn new(storage_folder: String) -> (s: Store)
        ensures
            s.wf(),
            s.root() == storage_folder@,
            s.dirs() == Set::<Seq<char>>::empty(),
            s.buckets() == Set::<(Seq<char>, Seq<char>)>::empty(),
            s.files() == Map::<(Seq<char>, Seq<char>, Seq<char>), Seq<u8>>::empty(),
    {
        let s = Store {
            storage_folder,
            user_dirs: Vec::new(),
            bucket_dirs: Vec::new(),
            entries: Vec::new(),
        };
        proof {
            assert(dir_views(s.user_dirs@) =~= Seq::<Seq<char>>::empty());
            assert(bucket_views(s.bucket_dirs@) =~= Seq::<(Seq<char>, Seq<char>)>::empty());
            assert(entry_kvs(s.entries@) =~= Seq::<
                ((Seq<char>, Seq<char>, Seq<char>), Seq<u8>),
            >::empty());
        }
        s
    }

    /// Where the user directory is listed, if anywhere.
    fn dir_index(&self, folder: &String) -> (r: Option<usize>)
        ensures
            match r {
                Some(i) => i < self.user_dirs@.len() && self.user_dirs@[i as int]@ == folder@,
                None => forall|i: int|
                    0 <= i < self.user_dirs@.len() ==> (#[trigger] self.user_dirs@[i])@ != folder@,
            },
    {
        let n = self.user_dirs.len();
        let mut i: usize = 0;
        while i < n
            invariant
                i <= n,
                n == self.user_dirs@.len(),
                forall|j: int| 0 <= j < i ==> (#[trigger] self.user_dirs@[j])@ != folder@,
            decreases n - i,
        {
            if self.user_dirs[i] == *folder {
                return Some(i);
            }
            i += 1;
        }
        None
    }

    /// Whether the user directory exists.
    fn has_dir(&self, folder: &String) -> (b: bool)
        ensures
            b == self.dirs().contains(folder@),
    {
        match self.dir_index(folder) {
            Some(i) => {
                proof {
                    assert(dir_views(self.user_dirs@)[i as int] == folder@);
                    lemma_elem_set_at(dir_views(self.user_dirs@), i as int);
                }
                true
            },
            None => {
                proof {
                    assert(forall|i: int|
                        0 <= i < dir_views(self.user_dirs@).len() ==> #[trigger] dir_views(
                            self.user_dirs@,
                        )[i] != folder@);
                    lemma_elem_set_absent(dir_views(self.user_dirs@), folder@);
                }
                false
            },
        }
    }

    /// Where the bucket directory is listed, if anywhere.
    fn bucket_index(&self, folder: &String, name: &String) -> (r: Option<usize>)
        ensures
            match r {
                Some(i) => i < self.bucket_dirs@.len() && self.bucket_dirs@[i as int].0@ == folder@
                    && self.bucket_dirs@[i as int].1@ == name@,
                None => forall|i: int|
                    0 <= i < self.bucket_dirs@.len() ==> !((#[trigger] self.bucket_dirs@[i]).0@
                        == folder@ && self.bucket_dirs@[i].1@ == name@),
            },
    {
        let n = self.bucket_dirs.len();
        let mut i: usize = 0;
        while i < n
            invariant
                i <= n,
                n == self.bucket_dirs@.len(),
                forall|j: int|
                    0 <= j < i ==> !((#[trigger] self.bucket_dirs@[j]).0@ == folder@
                        && self.bucket_dirs@[j].1@ == name@),
            decreases n - i,
        {
            let entry = &self.bucket_dirs[i];
            if entry.0 == *folder && entry.1 == *name {
                return Some(i);
            }
            i += 1;
        }
        None
    }

    /// Whether the bucket directory exists.
    fn has_bucket(&self, folder: &String, name: &String) -> (b: bool)
        ensures
            b == self.buckets().contains((folder@, name@)),
    {
        match self.bucket_index(folder, name) {
            Some(i) => {
                proof {
                    assert(bucket_views(self.bucket_dirs@)[i as int] == (folder@, name@));
                    lemma_elem_set_at(bucket_views(self.bucket_dirs@), i as int);
                }
                true
            },
            None => {
                proof {
                    assert(forall|i: int|
                        0 <= i < bucket_views(self.bucket_dirs@).len() ==> #[trigger] bucket_views(
                            self.bucket_dirs@,
                        )[i] != (folder@, name@));
                    lemma_elem_set_absent(bucket_views(self.bucket_dirs@), (folder@, name@));
                }
                false
            },
        }
    }

    /// Where the file is listed, if anywhere.
    fn file_index(&self, folder: &String, bucket: &String, name: &String) -> (r: Option<usize>)
        ensures
            match r {
                Some(i) => i < self.entries@.len() && self.entries@[i as int].folder@ == folder@
                    && self.entries@[i as int].bucket@ == bucket@ && self.entries@[i as int].name@
                    == name@,
                None => forall|i: int|
                    0 <= i < self.entries@.len() ==> !((#[trigger] self.entries@[i]).folder@
                        == folder@ && self.entries@[i].bucket@ == bucket@
                        && self.entries@[i].name@ == name@),
            },
    {
        let n = self.entries.len();
        let mut i: usize = 0;
        while i < n
            invariant
                i <= n,
                n == self.entries@.len(),
                forall|j: int|
                    0 <= j < i ==> !((#[trigger] self.entries@[j]).folder@ == folder@
                        && self.entries@[j].bucket@ == bucket@ && self.entries@[j].name@ == name@),
            decreases n - i,
        {
            let entry = &self.entries[i];
            if entry.folder == *folder && entry.bucket == *bucket && entry.name == *name {
                return Some(i);
            }
            i += 1;
        }
        None
    }

    /// Whether the file exists.
    fn has_file(&self, folder: &String, bucket: &String, name: &String) -> (b: bool)
        requires
            self.wf(),
        ensures
            b == self.files().contains_key((folder@, bucket@, name@)),
    {
        match self.file_index(folder, bucket, name) {
            Some(i) => {
                proof {
                    assert(entry_kvs(self.entries@)[i as int].0 == (folder@, bucket@, name@));
                    lemma_kv_map_at(entry_kvs(self.entries@), i as int);
                }
                true
            },
            None => {
                proof {
                    assert(forall|i: int|
                        0 <= i < entry_kvs(self.entries@).len() ==> (#[trigger] entry_kvs(
                            self.entries@,
                        )[i]).0 != (folder@, bucket@, name@));
                    lemma_kv_map_absent(entry_kvs(self.entries@), (folder@, bucket@, name@));
                }
                false
            },
        }
    }

    /// Whether any bucket directory sits in the user directory.
    fn any_bucket_in_dir(&self, folder: &String) -> (b: bool)
        ensures
            b == self.dir_occupied(folder@),
    {
        let n = self.bucket_dirs.len();
        let mut i: usize = 0;
        while i < n
            invariant
                i <= n,
                n == self.bucket_dirs@.len(),
                forall|j: int| 0 <= j < i ==> (#[trigger] self.bucket_dirs@[j]).0@ != folder@,
            decreases n - i,
        {
            let entry = &self.bucket_dirs[i];
            if entry.0 == *folder {
                proof {
                    assert(bucket_views(self.bucket_dirs@)[i as int] == (folder@, entry.1@));
                    lemma_elem_set_at(bucket_views(self.bucket_dirs@), i as int);
                    assert(self.buckets().contains((folder@, entry.1@)));
                }
                return true;
            }
            i += 1;
        }
        proof {
            if self.dir_occupied(folder@) {
                let b = choose|b: Seq<char>| self.buckets().contains((folder@, b));
                lemma_elem_set_some_index(bucket_views(self.bucket_dirs@), (folder@, b));
            }
        }
        false
    }

    /// Whether any file sits in the bucket directory.
    fn any_file_in_bucket(&self, folder: &String, bucket: &String) -> (b: bool)
        requires
            self.wf(),
        ensures
            b == self.bucket_occupied(folder@, bucket@),
    {
        let n = self.entries.len();
        let mut i: usize = 0;
        while i < n
            invariant
                i <= n,
                n == self.entries@.len(),
                self.wf(),
                forall|j: int|
                    0 <= j < i ==> !((#[trigger] self.entries@[j]).folder@ == folder@
                        && self.entries@[j].bucket@ == bucket@),
            decreases n - i,
        {
            let entry = &self.entries[i];
            if entry.folder == *folder && entry.bucket == *bucket {
                proof {
                    assert(entry_kvs(self.entries@)[i as int].0 == (folder@, bucket@, entry.name@));
                    lemma_kv_map_at(entry_kvs(self.entries@), i as int);
                    assert(self.files().contains_key((folder@, bucket@, entry.name@)));
                }
                return true;
            }
            i += 1;
        }
        proof {
            if self.bucket_occupied(folder@, bucket@) {
                let nm = choose|n2: Seq<char>| self.files().contains_key((folder@, bucket@, n2));
                lemma_kv_map_some_index(entry_kvs(self.entries@), (folder@, bucket@, nm));
            }
        }
        false
    }

    /// Lists the user directory; a no-op when it already exists.
    fn add_dir(&mut self, folder: &String)
        requires
            old(self).wf(),
        ensures
            final(self).wf(),
            final(self).root() == old(self).root(),
            final(self).dirs() == old(self).dirs().insert(folder@),
            final(self).buckets() == old(self).buckets(),
            final(self).files() == old(self).files(),
    {
        if !self.has_dir(folder) {
            let ghost pre = *self;
            self.user_dirs.push(folder.clone());
            proof {
                assert(dir_views(self.user_dirs@) =~= dir_views(pre.user_dirs@).push(folder@));
                lemma_elem_set_push(dir_views(pre.user_dirs@), folder@);
                assert forall|i: int, j: int|
                    0 <= i < j < dir_views(self.user_dirs@).len() implies (#[trigger] dir_views(
                    self.user_dirs@,
                )[i]) != (#[trigger] dir_views(self.user_dirs@)[j]) by {
                    if j == dir_views(self.user_dirs@).len() - 1 {
                        lemma_elem_set_at(dir_views(pre.user_dirs@), i);
                    }
                }
                assert(bucket_views(self.bucket_dirs@) == bucket_views(pre.bucket_dirs@));
                assert(entry_kvs(self.entries@) == entry_kvs(pre.entries@));
            }
        } else {
            proof {
                assert(self.dirs() =~= self.dirs().insert(folder@));
            }
        }
    }

    /// Lists the bucket directory; a no-op when it already exists. The
    /// owning user directory must already be listed.
    fn add_bucket(&mut self, folder: &String, name: &String)
        requires
            old(self).wf(),
            old(self).dirs().contains(folder@),
        ensures
            final(self).wf(),
            final(self).root() == old(self).root(),
            final(self).dirs() == old(self).dirs(),
            final(self).buckets() == old(self).buckets().insert((folder@, name@)),
            final(self).files() == old(self).files(),
    {
        if !self.has_bucket(folder, name) {
            let ghost pre = *self;
            self.bucket_dirs.push((folder.clone(), name.clone()));
            proof {
                assert(bucket_views(self.bucket_dirs@) =~= bucket_views(pre.bucket_dirs@).push(
                    (folder@, name@),
                ));
                lemma_elem_set_push(bucket_views(pre.bucket_dirs@), (folder@, name@));
                assert forall|i: int, j: int|
                    0 <= i < j < bucket_views(self.bucket_dirs@).len() implies (
                #[trigger] bucket_views(self.bucket_dirs@)[i]) != (#[trigger] bucket_views(
                    self.bucket_dirs@,
                )[j]) by {
                    if j == bucket_views(self.bucket_dirs@).len() - 1 {
                        lemma_elem_set_at(bucket_views(pre.bucket_dirs@), i);
                    }
                }
                assert(dir_views(self.user_dirs@) == dir_views(pre.user_dirs@));
                assert(entry_kvs(self.entries@) == entry_kvs(pre.entries@));
            }
        } else {
            proof {
                assert(self.buckets() =~= self.buckets().insert((folder@, name@)));
            }
        }
    }

    /// Lists a file that is not yet present. Its bucket directory must be.
    fn add_file(&mut self, folder: &String, bucket: &String, name: &String, data: Vec<u8>)
        requires
            old(self).wf(),
            old(self).buckets().contains((folder@, bucket@)),
            !old(self).files().contains_key((folder@, bucket@, name@)),
        ensures
            final(self).wf(),
            final(self).root() == old(self).root(),
            final(self).dirs() == old(self).dirs(),
            final(self).buckets() == old(self).buckets(),
            final(self).files() == old(self).files().insert((folder@, bucket@, name@), data@),
    {
        let ghost pre = *self;
        let entry = FileEntry {
            folder: folder.clone(),
            bucket: bucket.clone(),
            name: name.clone(),
            data,
        };
        self.entries.push(entry);
        proof {
            assert(entry_kvs(self.entries@) =~= entry_kvs(pre.entries@).push(
                ((folder@, bucket@, name@), entry.data@),
            ));
            lemma_kv_map_push(entry_kvs(pre.entries@), (folder@, bucket@, name@), entry.data@);
            assert forall|i: int, j: int|
                0 <= i < j < entry_kvs(self.entries@).len() implies (#[trigger] entry_kvs(
                self.entries@,
            )[i]).0 != (#[trigger] entry_kvs(self.entries@)[j]).0 by {
                if j == entry_kvs(self.entries@).len() - 1 {
                    lemma_kv_map_at(entry_kvs(pre.entries@), i);
                }
            }
            assert(dir_views(self.user_dirs@) == dir_views(pre.user_dirs@));
            assert(bucket_views(self.bucket_dirs@) == bucket_views(pre.bucket_dirs@));
        }
    }

    /// Unlists an existing, empty user directory.
    fn remove_dir_entry(&mut self, folder: &String)
        requires
            old(self).wf(),
            old(self).dirs().contains(folder@),
            !old(self).dir_occupied(folder@),
        ensures
            final(self).wf(),
            final(self).root() == old(self).root(),
            final(self).dirs() == old(self).dirs().remove(folder@),
            final(self).buckets() == old(self).buckets(),
            final(self).files() == old(self).files(),
    {
        let i = match self.dir_index(folder) {
            Some(i) => i,
            None => {
                proof {
                    assert(forall|j: int|
                        0 <= j < dir_views(self.user_dirs@).len() ==> #[trigger] dir_views(
                            self.user_dirs@,
                        )[j] != folder@);
                    lemma_elem_set_absent(dir_views(self.user_dirs@), folder@);
                }
                unreached()
            },
        };
        let ghost pre = *self;
        self.user_dirs.remove(i);
        proof {
            assert(dir_views(self.user_dirs@) =~= dir_views(pre.user_dirs@).remove(i as int));
            lemma_elem_set_remove(dir_views(pre.user_dirs@), i as int);
            assert(dir_views(pre.user_dirs@)[i as int] == folder@);
            assert forall|a: int, b: int|
                0 <= a < b < dir_views(self.user_dirs@).len() implies (#[trigger] dir_views(
                self.user_dirs@,
            )[a]) != (#[trigger] dir_views(self.user_dirs@)[b]) by {
                let sa: int = if a < i as int {
                    a
                } else {
                    a + 1
                };
                let sb: int = if b < i as int {
                    b
                } else {
                    b + 1
                };
                assert(dir_views(self.user_dirs@)[a] == dir_views(pre.user_dirs@)[sa]);
                assert(dir_views(self.user_dirs@)[b] == dir_views(pre.user_dirs@)[sb]);
            }
            assert(bucket_views(self.bucket_dirs@) == bucket_views(pre.bucket_dirs@));
            assert(entry_kvs(self.entries@) == entry_kvs(pre.entries@));
            assert forall|j: int|
                0 <= j < self.bucket_dirs@.len() implies final(self).dirs().contains(
                (#[trigger] self.bucket_dirs@[j]).0@,
            ) by {
                assert(pre.dirs().contains(pre.bucket_dirs@[j].0@));
                assert(bucket_views(pre.bucket_dirs@)[j] == (
                    pre.bucket_dirs@[j].0@,
                    pre.bucket_dirs@[j].1@,
                ));
                lemma_elem_set_at(bucket_views(pre.bucket_dirs@), j);
                assert(pre.buckets().contains((pre.bucket_dirs@[j].0@, pre.bucket_dirs@[j].1@)));
                assert(pre.bucket_dirs@[j].0@ != folder@);
            }
        }
    }

    /// Unlists an existing, empty bucket directory.
    fn remove_bucket_entry(&mut self, folder: &String, name: &String)
        requires
            old(self).wf(),
            old(self).buckets().contains((folder@, name@)),
            !old(self).bucket_occupied(folder@, name@),
        ensures
            final(self).wf(),
            final(self).root() == old(self).root(),
            final(self).dirs() == old(self).dirs(),
            final(self).buckets() == old(self).buckets().remove((folder@, name@)),
            final(self).files() == old(self).files(),
    {
        let i = match self.bucket_index(folder, name) {
            Some(i) => i,
            None => {
                proof {
                    assert(forall|j: int|
                        0 <= j < bucket_views(self.bucket_dirs@).len() ==> #[trigger] bucket_views(
                            self.bucket_dirs@,
                        )[j] != (folder@, name@));
                    lemma_elem_set_absent(bucket_views(self.bucket_dirs@), (folder@, name@));
                }
                unreached()
            },
        };
        let ghost pre = *self;
        self.bucket_dirs.remove(i);
        proof {
            assert(bucket_views(self.bucket_dirs@) =~= bucket_views(pre.bucket_dirs@).remove(
                i as int,
            ));
            lemma_elem_set_remove(bucket_views(pre.bucket_dirs@), i as int);
            assert(bucket_views(pre.bucket_dirs@)[i as int] == (folder@, name@));
            assert forall|a: int, b: int|
                0 <= a < b < bucket_views(self.bucket_dirs@).len() implies (
            #[trigger] bucket_views(self.bucket_dirs@)[a]) != (#[trigger] bucket_views(
                self.bucket_dirs@,
            )[b]) by {
                let sa: int = if a < i as int {
                    a
                } else {
                    a + 1
                };
                let sb: int = if b < i as int {
                    b
                } else {
                    b + 1
                };
                assert(bucket_views(self.bucket_dirs@)[a] == bucket_views(pre.bucket_dirs@)[sa]);
                assert(bucket_views(self.bucket_dirs@)[b] == bucket_views(pre.bucket_dirs@)[sb]);
            }
            assert(dir_views(self.user_dirs@) == dir_views(pre.user_dirs@));
            assert(entry_kvs(self.entries@) == entry_kvs(pre.entries@));
            assert forall|j: int|
                0 <= j < self.entries@.len() implies final(self).buckets().contains(
                ((#[trigger] self.entries@[j]).folder@, self.entries@[j].bucket@),
            ) by {
                assert(entry_kvs(pre.entries@)[j].0 == (
                    self.entries@[j].folder@,
                    self.entries@[j].bucket@,
                    self.entries@[j].name@,
                ));
                lemma_kv_map_at(entry_kvs(pre.entries@), j);
                assert(pre.files().contains_key(
                    (self.entries@[j].folder@, self.entries@[j].bucket@, self.entries@[j].name@),
                ));
                assert(!(self.entries@[j].folder@ == folder@ && self.entries@[j].bucket@
                    == name@));
            }
        }
    }

    /// Unlists an existing file.
    fn remove_file_entry(&mut self, folder: &String, bucket: &String, name: &String)
        requires
            old(self).wf(),
            old(self).files().contains_key((folder@, bucket@, name@)),
        ensures
            final(self).wf(),
            final(self).root() == old(self).root(),
            final(self).dirs() == old(self).dirs(),
            final(self).buckets() == old(self).buckets(),
            final(self).files() == old(self).files().remove((folder@, bucket@, name@)),
    {
        let i = match self.file_index(folder, bucket, name) {
            Some(i) => i,
            None => {
                proof {
                    assert(forall|j: int|
                        0 <= j < entry_kvs(self.entries@).len() ==> (#[trigger] entry_kvs(
                            self.entries@,
                        )[j]).0 != (folder@, bucket@, name@));
                    lemma_kv_map_absent(entry_kvs(self.entries@), (folder@, bucket@, name@));
                }
                unreached()
            },
        };
        let ghost pre = *self;
        self.entries.remove(i);
        proof {
            assert(entry_kvs(self.entries@) =~= entry_kvs(pre.entries@).remove(i as int));
            lemma_kv_map_remove(entry_kvs(pre.entries@), i as int);
            assert(entry_kvs(pre.entries@)[i as int].0 == (folder@, bucket@, name@));
            assert forall|a: int, b: int|
                0 <= a < b < entry_kvs(self.entries@).len() implies (#[trigger] entry_kvs(
                self.entries@,
            )[a]).0 != (#[trigger] entry_kvs(self.entries@)[b]).0 by {
                let sa: int = if a < i as int {
                    a
                } else {
                    a + 1
                };
                let sb: int = if b < i as int {
                    b
                } else {
                    b + 1
                };
                assert(entry_kvs(self.entries@)[a] == entry_kvs(pre.entries@)[sa]);
                assert(entry_kvs(self.entries@)[b] == entry_kvs(pre.entries@)[sb]);
            }
            assert(dir_views(self.user_dirs@) == dir_views(pre.user_dirs@));
            assert(bucket_views(self.bucket_dirs@) == bucket_views(pre.bucket_dirs@));
            assert forall|j: int|
                0 <= j < self.entries@.len() implies final(self).buckets().contains(
                ((#[trigger] self.entries@[j]).folder@, self.entries@[j].bucket@),
            ) by {
                let sj: int = if j < i as int {
                    j
                } else {
                    j + 1
                };
                assert(self.entries@[j] == pre.entries@[sj]);
            }
        }
    }
}

/// The path of a user directory: a direct child of the storage root.
pub open spec fn dir_path_of(root: Seq<char>, f: Seq<char>) -> Seq<char> {
    root + seq!['/'] + f
}

/// The path of a bucket directory: a direct child of its user directory.
pub open spec fn bucket_path_of(root: Seq<char>, f: Seq<char>, b: Seq<char>) -> Seq<char> {
    dir_path_of(root, f) + seq!['/'] + b
}

/// The path of a file: a direct child of its bucket directory.
pub open spec fn file_path_of(root: Seq<char>, f: Seq<char>, b: Seq<char>, n: Seq<char>) -> Seq<
    char,
> {
    bucket_path_of(root, f, b) + seq!['/'] + n
}

/// A user's directory under the storage root, as a value: the storage
/// root's name and the user's home folder name.
pub struct UserDir {
    pub storage_folder: String,
    pub folder: String,
}

impl Clone for UserDir {
    fn clone(&self) -> (r: Self)
        ensures
            r == *self,
    {
        UserDir { storage_folder: self.storage_folder.clone(), folder: self.folder.clone() }
    }
}

/// What `UserDir::try_delete` does and returns.
pub open spec fn dir_delete_outcome(
    pre: Store,
    post: Store,
    d: UserDir,
    r: Result<Vec<FsAction>, StoreError>,
) -> bool {
    &&& post.buckets() == pre.buckets()
    &&& post.files() == pre.files()
    &&& if !pre.dirs().contains(d.folder@) {
        r matches Err(e) && e == StoreError::NotFound && post.dirs() == pre.dirs()
    } else if pre.dir_occupied(d.folder@) {
        r matches Ok(acts) && acts@.len() == 0 && post.dirs() == pre.dirs()
    } else {
        r matches Ok(acts) && acts@.len() == 1 && is_remove_dir(acts@[0], d.path_spec())
            && post.dirs() == pre.dirs().remove(d.folder@)
    }
}

impl UserDir {
    /// A user directory resolved from the configuration's storage root and
    /// the user's record.
    pub fn new(config: &Config, user_data: &UserData) -> (d: UserDir)
        ensures
            d.storage_folder@ == config.storage_folder@,
            d.folder@ == user_data.folder@,
    {
        UserDir {
            storage_folder: config.storage_folder.clone(),
            folder: user_data.folder.clone(),
        }
    }

    /// The directory's path: a direct child of the storage root.
    pub open spec fn path_spec(self) -> Seq<char> {
        dir_path_of(self.storage_folder@, self.folder@)
    }

    pub fn path(&self) -> (p: String)
        ensures
            p@ == self.path_spec(),
    {
        let mut p = self.storage_folder.clone();
        p.append("/");
        p.append(self.folder.as_str());
        proof {
            reveal_strlit("/");
            assert(p@ =~= self.path_spec());
        }
        p
    }

    /// Resolves the directory; with `create` it is created first (a no-op
    /// when it already exists). The path comes back exactly when the
    /// directory exists after this step.
    pub fn open(&self, store: &mut Store, create: bool) -> (r: Option<String>)
        requires
            old(store).wf(),
        ensures
            final(store).wf(),
            final(store).root() == old(store).root(),
            final(store).buckets() == old(store).buckets(),
            final(store).files() == old(store).files(),
            final(store).dirs() == if create {
                old(store).dirs().insert(self.folder@)
            } else {
                old(store).dirs()
            },
            match r {
                Some(p) => p@ == self.path_spec() && (create || old(store).dirs().contains(
                    self.folder@,
                )),
                None => !create && !old(store).dirs().contains(self.folder@),
            },
    {
        if create {
            store.add_dir(&self.folder);
            Some(self.path())
        } else if store.has_dir(&self.folder) {
            Some(self.path())
        } else {
            None
        }
    }

    /// Deletes the directory when it is empty: gone entirely if it does not
    /// exist, kept untouched while a bucket remains inside, removed once
    /// nothing is left.
    pub fn try_delete(&self, store: &mut Store) -> (r: Result<Vec<FsAction>, StoreError>)
        requires
            old(store).wf(),
        ensures
            final(store).wf(),
            final(store).root() == old(store).root(),
            dir_delete_outcome(*old(store), *final(store), *self, r),
    {
        if store.has_dir(&self.folder) {
            if store.any_bucket_in_dir(&self.folder) {
                Ok(Vec::new())
            } else {
                store.remove_dir_entry(&self.folder);
                let mut acts: Vec<FsAction> = Vec::new();
                acts.push(FsAction::RemoveDir(self.path()));
                Ok(acts)
            }
        } else {
            Err(StoreError::NotFound)
        }
    }
}

} // verus!

verus! {

use crate::names::{valid_bucket_name, all_alnum, confined_name, check_bucket_name};
use crate::trusted::{sanitize_name, sanitized_of, random_alnum_string};

/// A bucket: a named sub-directory of a user's directory, grouping files.
pub struct Bucket {
    pub user_dir: UserDir,
    pub name: String,
}

impl Clone for Bucket {
    fn clone(&self) -> (r: Self)
        ensures
            r == *self,
    {
        Bucket { user_dir: self.user_dir.clone(), name: self.name.clone() }
    }
}

/// What `Bucket::try_delete` does and returns: nothing when the bucket
/// directory is missing, nothing while a file remains inside, otherwise the
/// bucket directory goes and the user directory follows if the bucket was
/// its last occupant.
pub open spec fn bucket_delete_outcome(
    pre: Store,
    post: Store,
    b: Bucket,
    r: Result<Vec<FsAction>, StoreError>,
) -> bool {
    let f = b.user_dir.folder@;
    let n = b.name@;
    &&& post.files() == pre.files()
    &&& if !(pre.dirs().contains(f) && pre.buckets().contains((f, n))) {
        &&& r matches Err(e) && e == StoreError::NotFound
        &&& post.dirs() == pre.dirs()
        &&& post.buckets() == pre.buckets()
    } else if pre.bucket_occupied(f, n) {
        &&& r matches Ok(acts) && acts@.len() == 0
        &&& post.dirs() == pre.dirs()
        &&& post.buckets() == pre.buckets()
    } else {
        &&& post.buckets() == pre.buckets().remove((f, n))
        &&& if exists|n2: Seq<char>| n2 != n && pre.buckets().contains((f, n2)) {
            &&& r matches Ok(acts) && acts@.len() == 1 && is_remove_dir(acts@[0], b.path_spec())
            &&& post.dirs() == pre.dirs()
        } else {
            &&& r matches Ok(acts) && acts@.len() == 2 && is_remove_dir(acts@[0], b.path_spec())
                && is_remove_dir(acts@[1], b.user_dir.path_spec())
            &&& post.dirs() == pre.dirs().remove(f)
        }
    }
}

impl Bucket {
    /// Builds a bucket. A caller-supplied name must be non-empty and
    /// alphanumeric, else nothing is built; with no name supplied, a fresh
    /// sixteen-character alphanumeric name is drawn at random.
    pub fn new(user_dir: &UserDir, name: Option<String>) -> (r: Option<Bucket>)
        ensures
            match r {
                Some(b) => b.user_dir == *user_dir && match name {
                    Some(n) => b.name == n && valid_bucket_name(n@),
                    None => b.name@.len() == 16 && all_alnum(b.name@),
                },
                None => name matches Some(n) && !valid_bucket_name(n@),
            },
    {
        match name {
            Some(n) => {
                if check_bucket_name(n.as_str()) {
                    Some(Bucket { user_dir: user_dir.clone(), name: n })
                } else {
                    None
                }
            },
            None => Some(Bucket { user_dir: user_dir.clone(), name: random_alnum_string(16) }),
        }
    }

    /// The bucket directory's path: a direct child of the user directory.
    pub open spec fn path_spec(self) -> Seq<char> {
        bucket_path_of(self.user_dir.storage_folder@, self.user_dir.folder@, self.name@)
    }

    pub fn path(&self) -> (p: String)
        ensures
            p@ == self.path_spec(),
    {
        let mut p = self.user_dir.path();
        p.append("/");
        p.append(self.name.as_str());
        proof {
            reveal_strlit("/");
            assert(p@ =~= self.path_spec());
        }
        p
    }

    /// Resolves the bucket directory, first resolving the owning user
    /// directory with the same `create` mode. The path comes back exactly
    /// when the whole chain exists after this step.
    pub fn open(&self, store: &mut Store, create: bool) -> (r: Option<String>)
        requires
            old(store).wf(),
        ensures
            final(store).wf(),
            final(store).root() == old(store).root(),
            final(store).files() == old(store).files(),
            final(store).dirs() == if create {
                old(store).dirs().insert(self.user_dir.folder@)
            } else {
                old(store).dirs()
            },
            final(store).buckets() == if create {
                old(store).buckets().insert((self.user_dir.folder@, self.name@))
            } else {
                old(store).buckets()
            },
            match r {
                Some(p) => p@ == self.path_spec() && (create || (old(store).dirs().contains(
                    self.user_dir.folder@,
                ) && old(store).buckets().contains((self.user_dir.folder@, self.name@)))),
                None => !create && !(old(store).dirs().contains(self.user_dir.folder@) && old(
                    store,
                ).buckets().contains((self.user_dir.folder@, self.name@))),
            },
    {
        match self.user_dir.open(store, create) {
            Some(_) => {
                if create {
                    store.add_bucket(&self.user_dir.folder, &self.name);
                    Some(self.path())
                } else if store.has_bucket(&self.user_dir.folder, &self.name) {
                    Some(self.path())
                } else {
                    None
                }
            },
            None => None,
        }
    }

    /// Deletes the bucket directory when it is empty and cascades into the
    /// owning user directory.
    pub fn try_delete(&self, store: &mut Store) -> (r: Result<Vec<FsAction>, StoreError>)
        requires
            old(store).wf(),
        ensures
            final(store).wf(),
            final(store).root() == old(store).root(),
            bucket_delete_outcome(*old(store), *final(store), *self, r),
    {
        let f = &self.user_dir.folder;
        let dir_ok = store.has_dir(f);
        let bucket_ok = store.has_bucket(f, &self.name);
        if dir_ok && bucket_ok {
            if store.any_file_in_bucket(f, &self.name) {
                Ok(Vec::new())
            } else {
                let ghost pre = *old(store);
                store.remove_bucket_entry(f, &self.name);
                let ghost mid = *store;
                let mut acts: Vec<FsAction> = Vec::new();
                acts.push(FsAction::RemoveDir(self.path()));
                match self.user_dir.try_delete(store) {
                    Ok(mut more) => {
                        proof {
                            if exists|n2: Seq<char>| n2 != self.name@ && pre.buckets().contains(
                                (self.user_dir.folder@, n2),
                            ) {
                                let n2 = choose|n2: Seq<char>|
                                    n2 != self.name@ && pre.buckets().contains(
                                        (self.user_dir.folder@, n2),
                                    );
                                assert(mid.buckets().contains((self.user_dir.folder@, n2)));
                                assert(mid.dir_occupied(self.user_dir.folder@));
                            }
                            if mid.dir_occupied(self.user_dir.folder@) {
                                let b2 = choose|b2: Seq<char>|
                                    mid.buckets().contains((self.user_dir.folder@, b2));
                                assert(b2 != self.name@);
                                assert(pre.buckets().contains((self.user_dir.folder@, b2)));
                            }
                        }
                        acts.append(&mut more);
                        Ok(acts)
                    },
                    Err(_) => {
                        proof {
                            assert(false);
                        }
                        unreached()
                    },
                }
            }
        } else {
            Err(StoreError::NotFound)
        }
    }
}

/// A single file inside a bucket. The raw requested name is sanitized at
/// construction and the raw form is never used again.
pub struct StorageFile {
    pub bucket: Bucket,
    pub name: String,
}

/// What the store holds for this file's path, if anything.
pub open spec fn serve_spec(s: Store, fl: StorageFile) -> Option<Seq<u8>> {
    if s.files().contains_key(fl.key_spec()) {
        Some(s.files()[fl.key_spec()])
    } else {
        None
    }
}

/// A view of an optional reference to bytes.
pub open spec fn opt_bytes_view(r: Option<&Vec<u8>>) -> Option<Seq<u8>> {
    match r {
        Some(d) => Some(d@),
        None => None,
    }
}

/// The filesystem actions a successful write performs, in order: the
/// missing directories of the chain are created first, then the bytes are
/// written.
pub open spec fn write_actions(pre: Store, fl: StorageFile, data: Seq<u8>, acts: Seq<FsAction>) -> bool {
    let f = fl.bucket.user_dir.folder@;
    let b = fl.bucket.name@;
    if pre.buckets().contains((f, b)) {
        acts.len() == 1 && is_write_file(acts[0], fl.path_spec(), data)
    } else if pre.dirs().contains(f) {
        acts.len() == 2 && is_create_dir(acts[0], fl.bucket.path_spec()) && is_write_file(
            acts[1],
            fl.path_spec(),
            data,
        )
    } else {
        acts.len() == 3 && is_create_dir(acts[0], fl.bucket.user_dir.path_spec()) && is_create_dir(
            acts[1],
            fl.bucket.path_spec(),
        ) && is_write_file(acts[2], fl.path_spec(), data)
    }
}

/// What `StorageFile::write` does and returns: an existing file at the same
/// path is never overwritten, otherwise the chain is created as needed and
/// the file holds exactly the written bytes.
pub open spec fn write_outcome(
    pre: Store,
    post: Store,
    fl: StorageFile,
    data: Seq<u8>,
    r: Result<Vec<FsAction>, StoreError>,
) -> bool {
    let f = fl.bucket.user_dir.folder@;
    let b = fl.bucket.name@;
    if pre.files().contains_key(fl.key_spec()) {
        &&& r matches Err(e) && e == StoreError::Conflict
        &&& post.dirs() == pre.dirs()
        &&& post.buckets() == pre.buckets()
        &&& post.files() == pre.files()
    } else {
        &&& post.dirs() == pre.dirs().insert(f)
        &&& post.buckets() == pre.buckets().insert((f, b))
        &&& post.files() == pre.files().insert(fl.key_spec(), data)
        &&& r matches Ok(acts) && write_actions(pre, fl, data, acts@)
    }
}

/// The transition a successful delete makes, with the actions in cascade
/// order: the file goes, then the bucket directory if that file was its
/// last, then the user directory if that bucket was its last.
pub open spec fn delete_transition(
    root: Seq<char>,
    pre: Store,
    post: Store,
    k: (Seq<char>, Seq<char>, Seq<char>),
    acts: Seq<FsAction>,
) -> bool {
    &&& post.files() == pre.files().remove(k)
    &&& if exists|n2: Seq<char>| n2 != k.2 && pre.files().contains_key((k.0, k.1, n2)) {
        &&& acts.len() == 1 && is_remove_file(acts[0], file_path_of(root, k.0, k.1, k.2))
        &&& post.buckets() == pre.buckets()
        &&& post.dirs() == pre.dirs()
    } else if exists|b2: Seq<char>| b2 != k.1 && pre.buckets().contains((k.0, b2)) {
        &&& acts.len() == 2 && is_remove_file(acts[0], file_path_of(root, k.0, k.1, k.2))
            && is_remove_dir(acts[1], bucket_path_of(root, k.0, k.1))
        &&& post.buckets() == pre.buckets().remove((k.0, k.1))
        &&& post.dirs() == pre.dirs()
    } else {
        &&& acts.len() == 3 && is_remove_file(acts[0], file_path_of(root, k.0, k.1, k.2))
            && is_remove_dir(acts[1], bucket_path_of(root, k.0, k.1)) && is_remove_dir(
            acts[2],
            dir_path_of(root, k.0),
        )
        &&& post.buckets() == pre.buckets().remove((k.0, k.1))
        &&& post.dirs() == pre.dirs().remove(k.0)
    }
}

/// What `StorageFile::delete` does and returns: nothing for a missing
/// file, else the cascading removal.
pub open spec fn delete_outcome(
    pre: Store,
    post: Store,
    fl: StorageFile,
    r: Result<Vec<FsAction>, StoreError>,
) -> bool {
    let k = fl.key_spec();
    if !pre.files().contains_key(k) {
        &&& r matches Err(e) && e == StoreError::NotFound
        &&& post.dirs() == pre.dirs()
        &&& post.buckets() == pre.buckets()
        &&& post.files() == pre.files()
    } else {
        r matches Ok(acts) && delete_transition(
            fl.bucket.user_dir.storage_folder@,
            pre,
            post,
            k,
            acts@,
        )
    }
}

/// Inside a coherent store, a file's bucket and user directories exist.
pub proof fn lemma_file_implies_chain(s: Store, k: (Seq<char>, Seq<char>, Seq<char>))
    requires
        s.wf(),
        s.files().contains_key(k),
    ensures
        s.buckets().contains((k.0, k.1)),
        s.dirs().contains(k.0),
{
    lemma_kv_map_some_index(entry_kvs(s.entries@), k);
    let i = choose|i: int|
        0 <= i < entry_kvs(s.entries@).len() && (#[trigger] entry_kvs(s.entries@)[i]).0 == k;
    assert(s.buckets().contains((s.entries@[i].folder@, s.entries@[i].bucket@)));
    lemma_elem_set_some_index(bucket_views(s.bucket_dirs@), (k.0, k.1));
    let j = choose|j: int|
        0 <= j < bucket_views(s.bucket_dirs@).len() && (#[trigger] bucket_views(
            s.bucket_dirs@,
        )[j]) == (k.0, k.1);
    assert(s.dirs().contains(s.bucket_dirs@[j].0@));
}

impl StorageFile {
    /// Builds the file handle; the requested name is sanitized here, once
    /// and irreversibly, and the result cannot leave the bucket directory.
    pub fn new(bucket: &Bucket, name: String) -> (f: StorageFile)
        ensures
            f.bucket == *bucket,
            f.name@ == sanitized_of(name@),
            confined_name(f.name@),
    {
        let sanitized = sanitize_name(name.as_str());
        StorageFile { bucket: bucket.clone(), name: sanitized }
    }

    /// The file's key in the store: user folder, bucket name, file name.
    pub open spec fn key_spec(self) -> (Seq<char>, Seq<char>, Seq<char>) {
        (self.bucket.user_dir.folder@, self.bucket.name@, self.name@)
    }

    /// The file's path: a direct child of the bucket directory.
    pub open spec fn path_spec(self) -> Seq<char> {
        file_path_of(
            self.bucket.user_dir.storage_folder@,
            self.bucket.user_dir.folder@,
            self.bucket.name@,
            self.name@,
        )
    }

    pub fn path(&self) -> (p: String)
        ensures
            p@ == self.path_spec(),
    {
        let mut p = self.bucket.path();
        p.append("/");
        p.append(self.name.as_str());
        proof {
            reveal_strlit("/");
            assert(p@ =~= self.path_spec());
        }
        p
    }

    /// Resolves the file for reading or creation. With `create`, the chain
    /// is created, an already existing file refuses the open (no silent
    /// overwrite), and otherwise an empty file is created. Without `create`,
    /// the path comes back exactly when the file exists.
    pub fn open(&self, store: &mut Store, create: bool) -> (r: Option<String>)
        requires
            old(store).wf(),
        ensures
            final(store).wf(),
            final(store).root() == old(store).root(),
            final(store).dirs() == if create {
                old(store).dirs().insert(self.bucket.user_dir.folder@)
            } else {
                old(store).dirs()
            },
            final(store).buckets() == if create {
                old(store).buckets().insert((self.bucket.user_dir.folder@, self.bucket.name@))
            } else {
                old(store).buckets()
            },
            final(store).files() == if create && !old(store).files().contains_key(
                self.key_spec(),
            ) {
                old(store).files().insert(self.key_spec(), Seq::<u8>::empty())
            } else {
                old(store).files()
            },
            match r {
                Some(p) => p@ == self.path_spec() && (if create {
                    !old(store).files().contains_key(self.key_spec())
                } else {
                    old(store).files().contains_key(self.key_spec())
                }),
                None => if create {
                    old(store).files().contains_key(self.key_spec())
                } else {
                    !old(store).files().contains_key(self.key_spec())
                },
            },
    {
        match self.bucket.open(store, create) {
            Some(_) => {
                let exists_now = store.has_file(
                    &self.bucket.user_dir.folder,
                    &self.bucket.name,
                    &self.name,
                );
                if exists_now {
                    if create {
                        None
                    } else {
                        Some(self.path())
                    }
                } else if create {
                    store.add_file(
                        &self.bucket.user_dir.folder,
                        &self.bucket.name,
                        &self.name,
                        Vec::new(),
                    );
                    Some(self.path())
                } else {
                    None
                }
            },
            None => {
                proof {
                    if old(store).files().contains_key(self.key_spec()) {
                        lemma_file_implies_chain(*old(store), self.key_spec());
                    }
                }
                None
            },
        }
    }

    /// Resolves the file's path without opening it, for delete and serve.
    /// The path comes back exactly when the file exists.
    pub fn open_path(&self, store: &mut Store, create: bool) -> (r: Option<String>)
        requires
            old(store).wf(),
        ensures
            final(store).wf(),
            final(store).root() == old(store).root(),
            final(store).files() == old(store).files(),
            final(store).dirs() == if create {
                old(store).dirs().insert(self.bucket.user_dir.folder@)
            } else {
                old(store).dirs()
            },
            final(store).buckets() == if create {
                old(store).buckets().insert((self.bucket.user_dir.folder@, self.bucket.name@))
            } else {
                old(store).buckets()
            },
            match r {
                Some(p) => p@ == self.path_spec() && old(store).files().contains_key(
                    self.key_spec(),
                ),
                None => !old(store).files().contains_key(self.key_spec()),
            },
    {
        match self.bucket.open(store, create) {
            Some(_) => {
                if store.has_file(&self.bucket.user_dir.folder, &self.bucket.name, &self.name) {
                    Some(self.path())
                } else {
                    None
                }
            },
            None => {
                proof {
                    if old(store).files().contains_key(self.key_spec()) {
                        lemma_file_implies_chain(*old(store), self.key_spec());
                    }
                }
                None
            },
        }
    }

    /// Writes the bytes as this file's content. The chain is created as
    /// needed; an existing file at the same path is refused rather than
    /// overwritten.
    pub fn write(&self, store: &mut Store, data: Vec<u8>) -> (r: Result<Vec<FsAction>, StoreError>)
        requires
            old(store).wf(),
        ensures
            final(store).wf(),
            final(store).root() == old(store).root(),
            write_outcome(*old(store), *final(store), *self, data@, r),
    {
        let f = &self.bucket.user_dir.folder;
        let b = &self.bucket.name;
        if store.has_file(f, b, &self.name) {
            return Err(StoreError::Conflict);
        }
        let had_dir = store.has_dir(f);
        let had_bucket = store.has_bucket(f, b);
        proof {
            if old(store).buckets().contains((f@, b@)) {
                lemma_elem_set_some_index(bucket_views(old(store).bucket_dirs@), (f@, b@));
                let j = choose|j: int|
                    0 <= j < bucket_views(old(store).bucket_dirs@).len() && (
                    #[trigger] bucket_views(old(store).bucket_dirs@)[j]) == (f@, b@);
                assert(old(store).dirs().contains(old(store).bucket_dirs@[j].0@));
            }
        }
        let mut acts: Vec<FsAction> = Vec::new();
        if !had_dir {
            acts.push(FsAction::CreateDir(self.bucket.user_dir.path()));
        }
        if !had_bucket {
            acts.push(FsAction::CreateDir(self.bucket.path()));
        }
        let data_copy = copy_bytes(&data);
        store.add_dir(f);
        store.add_bucket(f, b);
        store.add_file(f, b, &self.name, data_copy);
        acts.push(FsAction::WriteFile(self.path(), data));
        Ok(acts)
    }

    /// Deletes the file and cascades: the bucket directory goes if the file
    /// was its last, and the user directory follows in turn.
    pub fn delete(&self, store: &mut Store) -> (r: Result<Vec<FsAction>, StoreError>)
        requires
            old(store).wf(),
        ensures
            final(store).wf(),
            final(store).root() == old(store).root(),
            delete_outcome(*old(store), *final(store), *self, r),
    {
        let f = &self.bucket.user_dir.folder;
        let b = &self.bucket.name;
        if store.has_file(f, b, &self.name) {
            proof {
                lemma_file_implies_chain(*old(store), self.key_spec());
            }
            let ghost pre = *old(store);
            store.remove_file_entry(f, b, &self.name);
            let ghost mid = *store;
            let mut acts: Vec<FsAction> = Vec::new();
            acts.push(FsAction::RemoveFile(self.path()));
            match self.bucket.try_delete(store) {
                Ok(mut more) => {
                    proof {
                        let k = self.key_spec();
                        if exists|n2: Seq<char>| n2 != k.2 && pre.files().contains_key(
                            (k.0, k.1, n2),
                        ) {
                            let n2 = choose|n2: Seq<char>|
                                n2 != k.2 && pre.files().contains_key((k.0, k.1, n2));
                            assert(mid.files().contains_key((k.0, k.1, n2)));
                            assert(mid.bucket_occupied(k.0, k.1));
                        }
                        if mid.bucket_occupied(k.0, k.1) {
                            let n2 = choose|n2: Seq<char>|
                                mid.files().contains_key((k.0, k.1, n2));
                            assert(n2 != k.2);
                            assert(pre.files().contains_key((k.0, k.1, n2)));
                        }
                    }
                    acts.append(&mut more);
                    Ok(acts)
                },
                Err(_) => {
                    proof {
                        assert(false);
                    }
                    unreached()
                },
            }
        } else {
            Err(StoreError::NotFound)
        }
    }

    /// Hands out the stored bytes for this file's path, if the file exists.
    pub fn serve<'a>(&self, store: &'a Store) -> (r: Option<&'a Vec<u8>>)
        requires
            store.wf(),
        ensures
            opt_bytes_view(r) == serve_spec(*store, *self),
    {
        match store.file_index(&self.bucket.user_dir.folder, &self.bucket.name, &self.name) {
            Some(i) => {
                proof {
                    assert(entry_kvs(store.entries@)[i as int].0 == self.key_spec());
                    lemma_kv_map_at(entry_kvs(store.entries@), i as int);
                }
                Some(&store.entries[i].data)
            },
            None => {
                proof {
                    assert(forall|j: int|
                        0 <= j < entry_kvs(store.entries@).len() ==> (#[trigger] entry_kvs(
                            store.entries@,
                        )[j]).0 != self.key_spec());
                    lemma_kv_map_absent(entry_kvs(store.entries@), self.key_spec());
                }
                None
            },
        }
    }
}

/// Copies a byte vector.
fn copy_bytes(v: &Vec<u8>) -> (r: Vec<u8>)
    ensures
        r@ == v@,
{
    let n = v.len();
    let mut r: Vec<u8> = Vec::new();
    let mut i: usize = 0;
    while i < n
        invariant
            i <= n,
            n == v@.len(),
            r@ == v@.subrange(0, i as int),
        decreases n - i,
    {
        r.push(v[i]);
        proof {
            assert(r@ =~= v@.subrange(0, i + 1 as int));
        }
        i += 1;
    }
    proof {
        assert(v@.subrange(0, n as int) =~= v@);
    }
    r
}

/// Law: a write followed by a serve of the same path yields exactly the
/// bytes written, in order.
pub proof fn lemma_write_then_serve(
    pre: Store,
    post: Store,
    fl: StorageFile,
    data: Seq<u8>,
    r: Result<Vec<FsAction>, StoreError>,
)
    requires
        !pre.files().contains_key(fl.key_spec()),
        write_outcome(pre, post, fl, data, r),
    ensures
        serve_spec(post, fl) == Some(data),
{
}

/// Law: deleting the only file of a user's only bucket removes the file,
/// then the now-empty bucket directory, then the now-empty user directory,
/// in that order, and leaves no trace of the three in the store.
pub proof fn lemma_delete_last_collapses(
    pre: Store,
    post: Store,
    fl: StorageFile,
    r: Result<Vec<FsAction>, StoreError>,
)
    requires
        delete_outcome(pre, post, fl, r),
        pre.files().contains_key(fl.key_spec()),
        forall|n2: Seq<char>|
            n2 != fl.key_spec().2 ==> !pre.files().contains_key(
                (fl.key_spec().0, fl.key_spec().1, n2),
            ),
        forall|b2: Seq<char>|
            b2 != fl.key_spec().1 ==> !pre.buckets().contains((fl.key_spec().0, b2)),
    ensures
        r matches Ok(acts) && acts@.len() == 3 && is_remove_file(acts@[0], fl.path_spec())
            && is_remove_dir(acts@[1], fl.bucket.path_spec()) && is_remove_dir(
            acts@[2],
            fl.bucket.user_dir.path_spec(),
        ),
        !post.files().contains_key(fl.key_spec()),
        !post.buckets().contains((fl.key_spec().0, fl.key_spec().1)),
        !post.dirs().contains(fl.key_spec().0),
{
}

/// Law: deleting one of several files removes only that file; a sibling in
/// the same bucket keeps its bytes, and the bucket and user directories
/// stay.
pub proof fn lemma_delete_leaves_siblings(
    pre: Store,
    post: Store,
    fl: StorageFile,
    r: Result<Vec<FsAction>, StoreError>,
    other: (Seq<char>, Seq<char>, Seq<char>),
)
    requires
        delete_outcome(pre, post, fl, r),
        pre.files().contains_key(fl.key_spec()),
        other != fl.key_spec(),
        pre.files().contains_key(other),
    ensures
        post.files().contains_key(other),
        post.files()[other] == pre.files()[other],
        other.0 == fl.key_spec().0 && other.1 == fl.key_spec().1 ==> post.buckets()
            == pre.buckets() && post.dirs() == pre.dirs() && (r matches Ok(acts) && acts@.len()
            == 1),
{
    let k = fl.key_spec();
    if other.0 == k.0 && other.1 == k.1 {
        assert(other.2 != k.2);
        assert(pre.files().contains_key((k.0, k.1, other.2)));
    }
}

} // verus!
