//! A workspace held in memory: directories with their files, by name.

use vstd::prelude::*;
use crate::bytes::copy_range;
use crate::lookup::{first_at, has_key};
use crate::text::str_eq;

verus! {

/// A file of the workspace.
#[derive(Debug)]
pub struct WorkFile {
    pub name: String,
    pub content: Vec<u8>,
}

/// A directory of the workspace: its subdirectories and its files, each
/// list in the order in which the directory is walked.
#[derive(Debug)]
pub struct WorkDir {
    pub name: String,
    pub dirs: Vec<WorkDir>,
    pub files: Vec<WorkFile>,
}

/// What a [`WorkFile`] holds.
pub struct FileView {
    pub name: Seq<char>,
    pub content: Seq<u8>,
}

/// What a [`WorkDir`] holds.
pub struct DirView {
    pub name: Seq<char>,
    pub dirs: Seq<DirView>,
    pub files: Seq<FileView>,
}

impl View for WorkFile {
    type V = FileView;

    open spec fn view(&self) -> FileView {
        FileView { name: self.name@, content: self.content@ }
    }
}

impl DeepView for WorkFile {
    type V = FileView;

    open spec fn deep_view(&self) -> FileView {
        self@
    }
}

/// What the directory `dir` holds.
pub open spec fn dir_view(dir: WorkDir) -> DirView
    decreases dir,
{
    DirView {
        name: dir.name@,
        dirs: Seq::new(
            dir.dirs@.len(),
            |i: int|
                if 0 <= i < dir.dirs@.len() {
                    dir_view(dir.dirs@[i])
                } else {
                    arbitrary()
                },
        ),
        files: dir.files.deep_view(),
    }
}

impl View for WorkDir {
    type V = DirView;

    open spec fn view(&self) -> DirView {
        dir_view(*self)
    }
}

/// The name of the directory that holds a repository inside a workspace. It
/// is never walked and never removed.
pub open spec fn is_store_name(name: Seq<char>) -> bool {
    name == ".wsvc"@
}

/// The first `n` of `files` without those named like the repository
/// directory.
pub open spec fn kept_files(files: Seq<FileView>, n: nat) -> Seq<FileView>
    decreases n,
{
    if n == 0 || n > files.len() {
        Seq::empty()
    } else if is_store_name(files[n - 1].name) {
        kept_files(files, (n - 1) as nat)
    } else {
        kept_files(files, (n - 1) as nat).push(files[n - 1])
    }
}

/// The files of a directory that a snapshot takes: all but one named like
/// the repository directory.
pub open spec fn walked_files(dir: DirView) -> Seq<FileView> {
    kept_files(dir.files, dir.files.len())
}

impl WorkDir {
    /// An empty directory.
    pub fn new(name: String) -> (dir: WorkDir)
        ensures
            dir@ == (DirView { name: name@, dirs: Seq::empty(), files: Seq::empty() }),
    {
        let dir = WorkDir { name, dirs: Vec::new(), files: Vec::new() };
        assert(dir@.dirs =~= Seq::empty());
        assert(dir@.files =~= Seq::empty());
        dir
    }

    /// The view of a directory lists the views of its entries.
    pub proof fn lemma_view(self)
        ensures
            self@.name == self.name@,
            self@.dirs.len() == self.dirs@.len(),
            self@.files.len() == self.files@.len(),
            forall|k: int| 0 <= k < self.dirs@.len() ==> #[trigger] self@.dirs[k] == self.dirs@[k]@,
            forall|k: int| 0 <= k < self.files@.len() ==> #[trigger] self@.files[k] == self.files@[k]@,
    {
    }
}

/// The names of some directories, in order.
pub open spec fn dir_names(dirs: Seq<DirView>) -> Seq<Seq<char>> {
    Seq::new(dirs.len(), |i: int| dirs[i].name)
}

/// The names of some files, in order.
pub open spec fn file_names(files: Seq<FileView>) -> Seq<Seq<char>> {
    Seq::new(files.len(), |i: int| files[i].name)
}

/// An empty directory of the given name.
pub open spec fn empty_dir(name: Seq<char>) -> DirView {
    DirView { name, dirs: Seq::empty(), files: Seq::empty() }
}

impl Clone for WorkFile {
    fn clone(&self) -> (copy: WorkFile)
        ensures
            copy@ == self@,
    {
        let content = copy_range(self.content.as_slice(), 0, self.content.len());
        assert(content@ =~= self.content@);
        WorkFile { name: self.name.clone(), content }
    }
}

impl Clone for WorkDir {
    fn clone(&self) -> (copy: WorkDir)
        ensures
            copy@ == self@,
        decreases self,
    {
        proof {
            self.lemma_view();
        }
        let mut dirs: Vec<WorkDir> = Vec::new();
        let mut i: usize = 0;
        while i < self.dirs.len()
            invariant
                i <= self.dirs@.len(),
                dirs@.len() == i,
                forall|k: int| 0 <= k < i ==> dirs@[k]@ == self.dirs@[k]@,
            decreases self.dirs@.len() - i,
        {
            dirs.push(self.dirs[i].clone());
            i += 1;
        }
        let mut files: Vec<WorkFile> = Vec::new();
        let mut j: usize = 0;
        while j < self.files.len()
            invariant
                j <= self.files@.len(),
                files@.len() == j,
                forall|k: int| 0 <= k < j ==> files@[k]@ == self.files@[k]@,
            decreases self.files@.len() - j,
        {
            files.push(self.files[j].clone());
            j += 1;
        }
        let copy = WorkDir { name: self.name.clone(), dirs, files };
        proof {
            copy.lemma_view();
            assert(copy@.dirs =~= self@.dirs);
            assert(copy@.files =~= self@.files);
        }
        copy
    }
}

impl WorkDir {
    /// The position of the first subdirectory of the given name.
    pub fn find_dir(&self, name: &str) -> (r: Option<usize>)
        ensures
            match r {
                Some(i) => first_at(dir_names(self@.dirs), name@, i as int) && i < self.dirs@.len(),
                None => !has_key(dir_names(self@.dirs), name@),
            },
    {
        proof {
            self.lemma_view();
        }
        let mut i: usize = 0;
        while i < self.dirs.len()
            invariant
                i <= self.dirs@.len(),
                self@.dirs.len() == self.dirs@.len(),
                forall|k: int| 0 <= k < self.dirs@.len() ==> #[trigger] self@.dirs[k] == self.dirs@[k]@,
                forall|j: int| 0 <= j < i ==> dir_names(self@.dirs)[j] != name@,
            decreases self.dirs@.len() - i,
        {
            proof {
                self.dirs@[i as int].lemma_view();
            }
            if str_eq(self.dirs[i].name.as_str(), name) {
                return Some(i);
            }
            i += 1;
        }
        None
    }

    /// The position of the first file of the given name.
    pub fn find_file(&self, name: &str) -> (r: Option<usize>)
        ensures
            match r {
                Some(i) => first_at(file_names(self@.files), name@, i as int) && i
                    < self.files@.len(),
                None => !has_key(file_names(self@.files), name@),
            },
    {
        proof {
            self.lemma_view();
        }
        let mut i: usize = 0;
        while i < self.files.len()
            invariant
                i <= self.files@.len(),
                self@.files.len() == self.files@.len(),
                forall|k: int|
                    0 <= k < self.files@.len() ==> #[trigger] self@.files[k] == self.files@[k]@,
                forall|j: int| 0 <= j < i ==> file_names(self@.files)[j] != name@,
            decreases self.files@.len() - i,
        {
            if str_eq(self.files[i].name.as_str(), name) {
                return Some(i);
            }
            i += 1;
        }
        None
    }
}

} // verus!
