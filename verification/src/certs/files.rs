//! A snapshot of the files that certificate loading looks at.

use vstd::prelude::*;
use vstd::string::*;

use crate::strmap::StrMap;

verus! {

broadcast use vstd::string::group_string_axioms;

/// What was found at a path: whether a regular file is there, and what reading
/// it gave.
#[derive(Debug)]
pub struct FileState {
    pub is_file: bool,
    pub read: Result<Vec<u8>, String>,
}

/// The model of a [`FileState`].
pub struct FileView {
    pub is_file: bool,
    pub read: Result<Seq<u8>, Seq<char>>,
}

impl View for FileState {
    type V = FileView;

    open spec fn view(&self) -> FileView {
        FileView {
            is_file: self.is_file,
            read: match self.read {
                Ok(b) => Ok(b@),
                Err(e) => Err(e@),
            },
        }
    }
}

/// The files by path.
pub type FileModel = Map<Seq<char>, FileView>;

/// Whether a regular file is at the path.
pub open spec fn has_file(m: FileModel, path: Seq<char>) -> bool {
    m.contains_key(path) && m[path].is_file
}

/// What reading the path gives.
pub open spec fn file_read(m: FileModel, path: Seq<char>) -> Result<Seq<u8>, Seq<char>> {
    if m.contains_key(path) {
        m[path].read
    } else {
        Err("file was not looked at"@)
    }
}

/// A snapshot of files.
pub struct FileSet {
    files: StrMap<FileState>,
}

impl View for FileSet {
    type V = FileModel;

    closed spec fn view(&self) -> FileModel {
        self.files@.map_values(|f: FileState| f@)
    }
}

impl FileSet {
    /// The snapshot is in order.
    pub closed spec fn wf(&self) -> bool {
        self.files.wf()
    }

    /// A snapshot of no file.
    pub fn new() -> (r: Self)
        ensures
            r.wf(),
            r@ == FileModel::empty(),
    {
        let r = FileSet { files: StrMap::new() };
        assert(r@ =~= FileModel::empty());
        r
    }

    /// Records what was found at a path.
    pub fn record(&mut self, path: &str, state: FileState)
        requires
            old(self).wf(),
        ensures
            final(self).wf(),
            final(self)@ == old(self)@.insert(path@, state@),
    {
        let ghost before = self@;
        let ghost v = state@;
        let _ = self.files.insert(path.to_owned(), state);
        assert(self@ =~= before.insert(path@, v));
    }

    /// Whether a regular file is at the path.
    pub fn is_file(&self, path: &str) -> (r: bool)
        requires
            self.wf(),
        ensures
            r == has_file(self@, path@),
    {
        match self.files.get(path) {
            Some(f) => f.is_file,
            None => false,
        }
    }

    /// What reading the path gave.
    pub fn read(&self, path: &str) -> (r: Result<&Vec<u8>, String>)
        requires
            self.wf(),
        ensures
            match file_read(self@, path@) {
                Ok(b) => r is Ok && r->Ok_0@ == b,
                Err(e) => r is Err && r->Err_0@ == e,
            },
    {
        match self.files.get(path) {
            Some(f) => match &f.read {
                Ok(b) => Ok(b),
                Err(e) => Err(e.clone()),
            },
            None => Err("file was not looked at".to_owned()),
        }
    }
}

/// Law: what is known of a path is what was recorded last for it. A path that
/// was not looked at has no file, and reading it is an error.
pub proof fn law_last_look_counts(m: FileModel, path: Seq<char>, found: FileView, other: Seq<char>)
    ensures
        has_file(m.insert(path, found), path) == found.is_file,
        file_read(m.insert(path, found), path) == found.read,
        !m.contains_key(path) ==> !has_file(m, path) && file_read(m, path) is Err,
        other != path ==> has_file(m.insert(path, found), other) == has_file(m, other)
            && file_read(m.insert(path, found), other) == file_read(m, other),
{
}

} // verus!
