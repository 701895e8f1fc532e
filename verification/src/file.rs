//! The descriptor of one file that a directory node holds.

use vstd::prelude::*;
use crate::path::{join, joined};

verus! {

/// What a file descriptor stands for: the file's name and the path it has
/// been resolved to.
pub struct FileModel {
    pub name: Seq<char>,
    pub path: Seq<char>,
}

impl FileModel {
    /// The descriptor that nothing has been set on.
    pub open spec fn empty() -> FileModel {
        FileModel { name: Seq::empty(), path: Seq::empty() }
    }

    /// The same descriptor under another name; its path is left as it is.
    pub open spec fn named(self, name: Seq<char>) -> FileModel {
        FileModel { name, ..self }
    }

    /// The same descriptor, resolved to its name inside the directory `dir`.
    pub open spec fn placed_in(self, dir: Seq<char>) -> FileModel {
        FileModel { path: joined(dir, self.name), ..self }
    }
}

/// One file of a directory tree, before it is written.
#[derive(Debug, PartialEq, Eq)]
pub struct FileBuilder {
    pub name: String,
    pub path: String,
}

impl View for FileBuilder {
    type V = FileModel;

    open spec fn view(&self) -> FileModel {
        FileModel { name: self.name@, path: self.path@ }
    }
}

impl Clone for FileBuilder {
    fn clone(&self) -> (r: Self)
        ensures
            r@ == self@,
    {
        FileBuilder { name: self.name.clone(), path: self.path.clone() }
    }
}

impl Default for FileBuilder {
    fn default() -> (r: Self)
        ensures
            r@ == FileModel::empty(),
    {
        FileBuilder { name: String::new(), path: String::new() }
    }
}

impl FileBuilder {
    /// A descriptor with an empty name and an empty path.
    pub fn new() -> (r: Self)
        ensures
            r@ == FileModel::empty(),
    {
        FileBuilder { name: String::new(), path: String::new() }
    }

    /// Sets the file's name. The path stays as it was until `parent` runs.
    pub fn name(self, name: &str) -> (r: Self)
        ensures
            r@ == self@.named(name@),
    {
        FileBuilder { name: name.to_owned(), path: self.path }
    }

    /// Records `path` as the owning directory: the file's own path becomes
    /// its name joined onto `path`. Hands back a copy of the updated value.
    pub fn parent(&mut self, path: String) -> (r: Self)
        ensures
            final(self)@ == old(self)@.placed_in(path@),
            r@ == final(self)@,
    {
        self.path = join(path, self.name.as_str());
        self.clone()
    }
}

} // verus!
