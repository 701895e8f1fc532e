//! A node of the directory tree and the fluent calls that configure it.

use vstd::prelude::*;
use crate::file::{FileBuilder, FileModel};
use crate::path::{join, joined};

verus! {

/// What a directory node stands for.
pub struct DirectoryModel {
    pub name: Seq<char>,
    pub path: Seq<char>,
    pub recursive: bool,
    pub dirs: Seq<DirectoryModel>,
    pub files: Seq<FileModel>,
}

impl DirectoryModel {
    /// The node that nothing has been set on: no name, no path, not
    /// recursive, nothing below it.
    pub open spec fn empty() -> DirectoryModel {
        DirectoryModel {
            name: Seq::empty(),
            path: Seq::empty(),
            recursive: false,
            dirs: Seq::empty(),
            files: Seq::empty(),
        }
    }

    /// The same node under another name; its path is left as it is.
    pub open spec fn named(self, name: Seq<char>) -> DirectoryModel {
        DirectoryModel { name, ..self }
    }

    /// The same node at the path `path`.
    pub open spec fn at(self, path: Seq<char>) -> DirectoryModel {
        DirectoryModel { path, ..self }
    }

    /// The same node, resolved to its name inside the directory `parent`.
    pub open spec fn placed_in(self, parent: Seq<char>) -> DirectoryModel {
        DirectoryModel { path: joined(parent, self.name), ..self }
    }

    /// The same node with its own creation flag set to `recursive`.
    pub open spec fn with_recursive(self, recursive: bool) -> DirectoryModel {
        DirectoryModel { recursive, ..self }
    }

    /// The same node with `dir` as its last child, taken as it is.
    pub open spec fn with_dir(self, dir: DirectoryModel) -> DirectoryModel {
        DirectoryModel { dirs: self.dirs.push(dir), ..self }
    }

    /// The same node with `file` as its last file, resolved against the path
    /// that the node has now.
    pub open spec fn with_file(self, file: FileModel) -> DirectoryModel {
        DirectoryModel { files: self.files.push(file.placed_in(self.path)), ..self }
    }
}

/// One directory of the tree, with the directories and files below it.
#[derive(Debug, PartialEq, Eq)]
pub struct DirectoryBuilder {
    pub name: String,
    pub path: String,
    pub recursive: bool,
    pub dirs: Vec<DirectoryBuilder>,
    pub files: Vec<FileBuilder>,
}

impl View for DirectoryBuilder {
    type V = DirectoryModel;

    open spec fn view(&self) -> DirectoryModel
        decreases self,
    {
        DirectoryModel {
            name: self.name@,
            path: self.path@,
            recursive: self.recursive,
            dirs: models_of(self.dirs@),
            files: self.files@.map_values(|f: FileBuilder| f@),
        }
    }
}

/// The models of the nodes of `dirs`, in their order.
pub open spec fn models_of(dirs: Seq<DirectoryBuilder>) -> Seq<DirectoryModel>
    decreases dirs,
{
    if dirs.len() == 0 {
        Seq::empty()
    } else {
        models_of(dirs.drop_last()).push(dirs.last()@)
    }
}

/// `models_of` keeps the length and maps node by node.
pub proof fn lemma_models_of(dirs: Seq<DirectoryBuilder>)
    ensures
        models_of(dirs).len() == dirs.len(),
        forall|k: int| 0 <= k < dirs.len() ==> #[trigger] models_of(dirs)[k] == dirs[k]@,
    decreases dirs.len(),
{
    if dirs.len() > 0 {
        lemma_models_of(dirs.drop_last());
        assert(models_of(dirs) == models_of(dirs.drop_last()).push(dirs.last()@));
    } else {
        assert(models_of(dirs) == Seq::<DirectoryModel>::empty());
    }
}

impl Clone for DirectoryBuilder {
    fn clone(&self) -> (r: Self)
        ensures
            r@ == self@,
        decreases self,
    {
        let mut dirs: Vec<DirectoryBuilder> = Vec::new();
        let mut i: usize = 0;
        while i < self.dirs.len()
            invariant
                i <= self.dirs.len(),
                dirs.len() == i,
                forall|k: int| 0 <= k < i ==> dirs[k]@ == self.dirs[k]@,
            decreases self.dirs.len() - i,
        {
            dirs.push(self.dirs[i].clone());
            i += 1;
        }
        let mut files: Vec<FileBuilder> = Vec::new();
        let mut j: usize = 0;
        while j < self.files.len()
            invariant
                j <= self.files.len(),
                files.len() == j,
                forall|k: int| 0 <= k < j ==> files[k]@ == self.files[k]@,
            decreases self.files.len() - j,
        {
            files.push(self.files[j].clone());
            j += 1;
        }
        let r = DirectoryBuilder {
            name: self.name.clone(),
            path: self.path.clone(),
            recursive: self.recursive,
            dirs,
            files,
        };
        proof {
            lemma_models_of(r.dirs@);
            lemma_models_of(self.dirs@);
            assert(r@.dirs =~= self@.dirs);
            assert(r@.files =~= self@.files);
        }
        r
    }
}

impl Default for DirectoryBuilder {
    fn default() -> (r: Self)
        ensures
            r@ == DirectoryModel::empty(),
    {
        let r = DirectoryBuilder {
            name: String::new(),
            path: String::new(),
            recursive: false,
            dirs: Vec::new(),
            files: Vec::new(),
        };
        assert(r@.files =~= Seq::empty());
        r
    }
}

impl DirectoryBuilder {
    /// A node with no name, no path, not recursive, and nothing below it.
    pub fn new() -> (r: Self)
        ensures
            r@ == DirectoryModel::empty(),
    {
        Default::default()
    }

    /// Sets the name of the directory. The path stays as it was until
    /// `parent` or `path` sets it.
    pub fn name(self, name: &str) -> (r: Self)
        ensures
            r@ == self@.named(name@),
    {
        let mut node = self;
        node.name = name.to_owned();
        node
    }

    /// Sets the path of the directory directly.
    pub fn path(self, path: String) -> (r: Self)
        ensures
            r@ == self@.at(path@),
    {
        let mut node = self;
        node.path = path;
        node
    }

    /// Resolves the node against the directory `path`: its own path becomes
    /// its name joined onto `path`. Hands back a copy of the updated node.
    pub fn parent(&mut self, path: String) -> (r: Self)
        ensures
            final(self)@ == old(self)@.placed_in(path@),
            r@ == final(self)@,
    {
        self.path = join(path, self.name.as_str());
        self.clone()
    }

    /// Sets whether the creation of this directory also creates the missing
    /// directories above it. The children keep their own flags.
    pub fn recursive(self, recursive: bool) -> (r: Self)
        ensures
            r@ == self@.with_recursive(recursive),
    {
        let mut node = self;
        node.recursive = recursive;
        node
    }

    /// Appends `dir` as the last child, with the path it already has.
    pub fn dir(self, dir: DirectoryBuilder) -> (r: Self)
        ensures
            r@ == self@.with_dir(dir@),
    {
        let mut node = self;
        node.dirs.push(dir);
        proof {
            assert(node.dirs@.drop_last() =~= self.dirs@);
            assert(node@.files =~= self@.files);
        }
        node
    }

    /// Resolves `file` against the path that the node has now and appends it
    /// as the last file. Hands back a copy of the updated node.
    pub fn file(&mut self, file: FileBuilder) -> (r: Self)
        ensures
            final(self)@ == old(self)@.with_file(file@),
            r@ == final(self)@,
    {
        let mut file = file;
        file.parent(self.path.clone());
        self.files.push(file);
        proof {
            assert(self@.files =~= old(self)@.files.push(file@));
        }
        self.clone()
    }
}

} // verus!
