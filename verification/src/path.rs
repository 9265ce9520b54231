//! Where the files and directories of a source tree lie, relative to the entry
//! file that the flattening starts from.
//!
//! A path says how to reach a place from the entry file, name by name. What the
//! entry file itself is called, and where it lies, is its reader's business.

use vstd::prelude::*;
use crate::text::{append_all, copy_span};

verus! {

/// The two directories that the units declared by the entry file may lie in.
#[derive(Clone, Copy, Debug, PartialEq, Eq, Structural)]
pub enum Anchor {
    /// The directory that holds the entry file.
    Parent,
    /// The path of the entry file with its extension taken off.
    Stem,
}

/// The two files that may hold a unit `name` declared in a directory.
#[derive(Clone, Copy, Debug, PartialEq, Eq, Structural)]
pub enum Layout {
    /// `name.<extension>` in the directory.
    File,
    /// `mod.<extension>` in the directory `name`.
    Index,
}

/// A directory: the names to follow from an anchor.
#[derive(Debug, PartialEq, Eq)]
pub struct DirPath {
    pub anchor: Anchor,
    pub names: Vec<Vec<u8>>,
}

/// A file: the entry file, or the file of a unit declared in a directory.
#[derive(Debug, PartialEq, Eq)]
pub enum FilePath {
    Entry,
    Unit { dir: DirPath, name: Vec<u8>, layout: Layout },
}

/// A directory as specifications see it.
pub struct DirPathView {
    pub anchor: Anchor,
    pub names: Seq<Seq<u8>>,
}

/// A file as specifications see it.
pub enum FilePathView {
    Entry,
    Unit { dir: DirPathView, name: Seq<u8>, layout: Layout },
}

/// `mod`, the name of a directory's index file without its extension.
pub open spec fn index_stem() -> Seq<u8> {
    seq![0x6du8, 0x6fu8, 0x64u8]
}

/// `.`, which stands between a file's name and its extension.
pub const DOT: u8 = 0x2e;

/// The names of a list of names.
pub open spec fn names_view(names: Seq<Vec<u8>>) -> Seq<Seq<u8>> {
    Seq::new(names.len(), |i: int| names[i]@)
}

impl View for DirPath {
    type V = DirPathView;

    open spec fn view(&self) -> DirPathView {
        DirPathView { anchor: self.anchor, names: names_view(self.names@) }
    }
}

impl View for FilePath {
    type V = FilePathView;

    open spec fn view(&self) -> FilePathView {
        match self {
            FilePath::Entry => FilePathView::Entry,
            FilePath::Unit { dir, name, layout } => FilePathView::Unit {
                dir: dir@,
                name: name@,
                layout: *layout,
            },
        }
    }
}

impl DirPathView {
    /// The directory `name` in this directory.
    pub open spec fn join(self, name: Seq<u8>) -> DirPathView {
        DirPathView { anchor: self.anchor, names: self.names.push(name) }
    }
}

impl FilePathView {
    /// The path of the file with its extension taken off.
    pub open spec fn stem(self) -> DirPathView {
        match self {
            FilePathView::Entry => DirPathView { anchor: Anchor::Stem, names: Seq::empty() },
            FilePathView::Unit { dir, name, layout } => match layout {
                Layout::File => dir.join(name),
                Layout::Index => dir.join(name).join(index_stem()),
            },
        }
    }

    /// The directory that holds the file.
    pub open spec fn parent(self) -> DirPathView {
        match self {
            FilePathView::Entry => DirPathView { anchor: Anchor::Parent, names: Seq::empty() },
            FilePathView::Unit { dir, name, layout } => match layout {
                Layout::File => dir,
                Layout::Index => dir.join(name),
            },
        }
    }

    /// The names to follow from the anchor of the file's directory to reach the
    /// file, the last of them the file's own name. The entry file has none.
    pub open spec fn names(self, extension: Seq<u8>) -> Seq<Seq<u8>> {
        match self {
            FilePathView::Entry => Seq::empty(),
            FilePathView::Unit { dir, name, layout } => match layout {
                Layout::File => dir.names.push(name + seq![DOT] + extension),
                Layout::Index => dir.names.push(name).push(index_stem() + seq![DOT] + extension),
            },
        }
    }
}

/// A copy of a list of names.
fn copy_names(names: &Vec<Vec<u8>>) -> (r: Vec<Vec<u8>>)
    ensures
        names_view(r@) == names_view(names@),
{
    let mut r: Vec<Vec<u8>> = Vec::new();
    let mut i: usize = 0;
    while i < names.len()
        invariant
            i <= names@.len(),
            r@.len() == i,
            forall|j: int| 0 <= j < i ==> r@[j]@ == names@[j]@,
        decreases names@.len() - i,
    {
        let name = copy_span(names[i].as_slice(), 0, names[i].len());
        assert(name@ =~= names@[i as int]@);
        r.push(name);
        i += 1;
    }
    assert(names_view(r@) =~= names_view(names@));
    r
}

impl Clone for DirPath {
    fn clone(&self) -> (r: DirPath)
        ensures
            r@ == self@,
    {
        DirPath { anchor: self.anchor, names: copy_names(&self.names) }
    }
}

impl Clone for FilePath {
    fn clone(&self) -> (r: FilePath)
        ensures
            r@ == self@,
    {
        match self {
            FilePath::Entry => FilePath::Entry,
            FilePath::Unit { dir, name, layout } => {
                let copy = copy_span(name.as_slice(), 0, name.len());
                assert(copy@ =~= name@);
                FilePath::Unit { dir: dir.clone(), name: copy, layout: *layout }
            },
        }
    }
}

impl DirPath {
    /// The directory `name` in this directory.
    pub fn join(&self, name: &[u8]) -> (r: DirPath)
        ensures
            r@ == self@.join(name@),
    {
        let mut names = copy_names(&self.names);
        let ghost before = names@;
        names.push(copy_span(name, 0, name.len()));
        assert(name@.subrange(0, name@.len() as int) =~= name@);
        assert(names_view(names@) =~= names_view(before).push(name@));
        DirPath { anchor: self.anchor, names }
    }
}

impl FilePath {
    /// The path of the file with its extension taken off.
    pub fn stem(&self) -> (r: DirPath)
        ensures
            r@ == self@.stem(),
    {
        match self {
            FilePath::Entry => {
                let r = DirPath { anchor: Anchor::Stem, names: Vec::new() };
                assert(r@.names =~= Seq::empty());
                r
            },
            FilePath::Unit { dir, name, layout } => match layout {
                Layout::File => dir.join(name.as_slice()),
                Layout::Index => {
                    let index: Vec<u8> = vec![0x6du8, 0x6fu8, 0x64u8];
                    assert(index@ =~= index_stem());
                    dir.join(name.as_slice()).join(index.as_slice())
                },
            },
        }
    }

    /// The directory that holds the file.
    pub fn parent(&self) -> (r: DirPath)
        ensures
            r@ == self@.parent(),
    {
        match self {
            FilePath::Entry => {
                let r = DirPath { anchor: Anchor::Parent, names: Vec::new() };
                assert(r@.names =~= Seq::empty());
                r
            },
            FilePath::Unit { dir, name, layout } => match layout {
                Layout::File => dir.clone(),
                Layout::Index => dir.join(name.as_slice()),
            },
        }
    }

    /// The names to follow from the anchor of the file's directory to reach the
    /// file, the last of them the file's own name. The entry file has none.
    pub fn names(&self, extension: &[u8]) -> (r: Vec<Vec<u8>>)
        ensures
            names_view(r@) == self@.names(extension@),
    {
        match self {
            FilePath::Entry => {
                let r: Vec<Vec<u8>> = Vec::new();
                assert(names_view(r@) =~= Seq::empty());
                r
            },
            FilePath::Unit { dir, name, layout } => {
                let mut r = copy_names(&dir.names);
                let ghost before = r@;
                let mut file: Vec<u8> = Vec::new();
                match layout {
                    Layout::File => {
                        append_all(&mut file, name.as_slice());
                        file.push(DOT);
                        append_all(&mut file, extension);
                        assert(file@ =~= name@ + seq![DOT] + extension@);
                        r.push(file);
                        assert(names_view(r@) =~= names_view(before).push(
                            name@ + seq![DOT] + extension@,
                        ));
                    },
                    Layout::Index => {
                        r.push(copy_span(name.as_slice(), 0, name.len()));
                        assert(name@.subrange(0, name@.len() as int) =~= name@);
                        let ghost middle = r@;
                        assert(names_view(middle) =~= names_view(before).push(name@));
                        file.push(0x6du8);
                        file.push(0x6fu8);
                        file.push(0x64u8);
                        file.push(DOT);
                        append_all(&mut file, extension);
                        assert(file@ =~= index_stem() + seq![DOT] + extension@);
                        r.push(file);
                        assert(names_view(r@) =~= names_view(middle).push(
                            index_stem() + seq![DOT] + extension@,
                        ));
                    },
                }
                r
            },
        }
    }
}

} // verus!
