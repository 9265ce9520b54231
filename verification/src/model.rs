//! What flattening means: the text that a file expands to in a given file system,
//! defined by recursion over the units that the file declares.

use vstd::prelude::*;
use crate::bytes::NEWLINE;
use crate::error::FlattenErrorView;
use crate::path::{DirPathView, FilePathView, Layout};
use crate::scan::{lemma_scan_bounds, scan, Scan};

verus! {

/// A file system, as far as flattening reads it: which paths are regular files,
/// which are directories, and the text of the files that can be read.
pub struct FileSystem {
    pub files: Set<FilePathView>,
    pub dirs: Set<DirPathView>,
    pub texts: Map<FilePathView, Seq<u8>>,
}

impl FileSystem {
    /// Whether `path` is a regular file.
    pub open spec fn is_file(self, path: FilePathView) -> bool {
        self.files.contains(path)
    }

    /// Whether `path` is a directory.
    pub open spec fn is_dir(self, path: DirPathView) -> bool {
        self.dirs.contains(path)
    }

    /// The text of `path`, or `None` where reading it fails.
    pub open spec fn read(self, path: FilePathView) -> Option<Seq<u8>> {
        if self.texts.dom().contains(path) {
            Some(self.texts[path])
        } else {
            None
        }
    }

    /// The file of the unit `name` declared in `base`: `name.<extension>` if that
    /// is a regular file, else the index file of the directory `name`.
    pub open spec fn resolve(self, base: DirPathView, name: Seq<u8>) -> FilePathView {
        if self.is_file(FilePathView::Unit { dir: base, name, layout: Layout::File }) {
            FilePathView::Unit { dir: base, name, layout: Layout::File }
        } else {
            FilePathView::Unit { dir: base, name, layout: Layout::Index }
        }
    }

    /// The directory in which the units declared by `path` are looked for: the
    /// path without its extension if that is a directory, else the directory that
    /// holds the file.
    pub open spec fn base_of(self, path: FilePathView) -> DirPathView {
        if self.is_dir(path.stem()) {
            path.stem()
        } else {
            path.parent()
        }
    }
}

/// What a flattening comes to.
pub enum Outcome {
    /// The flattened text.
    Text(Seq<u8>),
    /// The failure that ended the run.
    Failure(FlattenErrorView),
    /// Units are nested more deeply than the depth that was allowed for.
    TooDeep,
}

/// `// Missing module file`, which stands for a unit whose file is missing when
/// missing units are tolerated.
pub open spec fn placeholder() -> Seq<u8> {
    seq![
        0x2fu8, 0x2fu8, 0x20u8, 0x4du8, 0x69u8, 0x73u8, 0x73u8, 0x69u8, 0x6eu8, 0x67u8, 0x20u8,
        0x6du8, 0x6fu8, 0x64u8, 0x75u8, 0x6cu8, 0x65u8, 0x20u8, 0x66u8, 0x69u8, 0x6cu8, 0x65u8,
    ]
}

/// The block of a unit: the keyword, a space, the unit's name, `{` and a newline,
/// the unit's flattened text, and a newline and `}`.
pub open spec fn block(keyword: Seq<u8>, name: Seq<u8>, child: Seq<u8>) -> Seq<u8> {
    keyword + seq![0x20u8] + name + seq![0x7bu8, 0x0au8] + child + seq![0x0au8, 0x7du8]
}

/// The newline that follows a block where one is needed: none where the text
/// behind the declaration, which ends at `end`, begins with a newline of its own,
/// and one where it begins with anything else or the declaration ends the text.
pub open spec fn closing(text: Seq<u8>, end: int) -> Seq<u8> {
    if 0 <= end < text.len() && text[end] == NEWLINE {
        Seq::empty()
    } else {
        seq![NEWLINE]
    }
}

/// `tail` with `head` before it, where `tail` is a text.
pub open spec fn prepend(head: Seq<u8>, tail: Outcome) -> Outcome {
    match tail {
        Outcome::Text(rest) => Outcome::Text(head + rest),
        other => other,
    }
}

/// What the file `path` expands to, with units nested at most `depth` deep below
/// it.
///
/// A path that is no regular file expands to the placeholder where missing units
/// are tolerated, and fails the run where they are not. A file that cannot be read
/// fails the run. Any other file expands to its flattened text.
pub open spec fn expand_spec(
    fs: FileSystem,
    keyword: Seq<u8>,
    tolerant: bool,
    path: FilePathView,
    depth: nat,
) -> Outcome
    decreases depth, 1nat, 0nat,
{
    if !fs.is_file(path) {
        if tolerant {
            Outcome::Text(placeholder())
        } else {
            Outcome::Failure(FlattenErrorView::FileNotFound(path))
        }
    } else {
        match fs.read(path) {
            None => Outcome::Failure(FlattenErrorView::ReadFailure(path)),
            Some(text) => flatten_spec(fs, keyword, tolerant, fs.base_of(path), path, text, 0, depth),
        }
    }
}

/// The flattened rest of `text` from offset `from`, where the units that `text`
/// declares are looked for in `base`.
///
/// Up to the first declaration the text stands as it is; the declaration gives way
/// to the block of the unit's expansion, followed by a newline where one is needed;
/// the text behind the declaration is flattened in the same way. A text without a declaration stands as it is. An
/// unclosed block comment that the search for declarations reaches fails the run.
pub open spec fn flatten_spec(
    fs: FileSystem,
    keyword: Seq<u8>,
    tolerant: bool,
    base: DirPathView,
    source: FilePathView,
    text: Seq<u8>,
    from: int,
    depth: nat,
) -> Outcome
    decreases depth, 0nat, text.len() - from,
{
    match scan(text, keyword, from) {
        Scan::Malformed(at) => Outcome::Failure(
            FlattenErrorView::MalformedComment { source, at },
        ),
        Scan::Exhausted => Outcome::Text(text.subrange(from, text.len() as int)),
        Scan::Found(d) => {
            if depth == 0 {
                Outcome::TooDeep
            } else {
                proof {
                    if 0 <= from {
                        lemma_scan_bounds(text, keyword, from);
                    }
                }
                let name = text.subrange(d.name_start, d.name_end);
                match expand_spec(
                    fs,
                    keyword,
                    tolerant,
                    fs.resolve(base, name),
                    (depth - 1) as nat,
                ) {
                    Outcome::Text(child) => prepend(
                        text.subrange(from, d.start) + block(keyword, name, child) + closing(
                            text,
                            d.end,
                        ),
                        flatten_spec(fs, keyword, tolerant, base, source, text, d.end, depth),
                    ),
                    other => other,
                }
            }
        },
    }
}

/// Two pieces put before a text one after the other are their concatenation put
/// before it.
pub proof fn lemma_prepend_twice(first: Seq<u8>, second: Seq<u8>, tail: Outcome)
    ensures
        prepend(first, prepend(second, tail)) == prepend(first + second, tail),
{
    if let Outcome::Text(rest) = tail {
        assert(first + (second + rest) =~= (first + second) + rest);
    }
}

/// Nothing put before a text leaves it as it is.
pub proof fn lemma_prepend_nothing(tail: Outcome)
    ensures
        prepend(Seq::empty(), tail) == tail,
{
    if let Outcome::Text(rest) = tail {
        assert(Seq::<u8>::empty() + rest =~= rest);
    }
}

/// The depth that is allowed for does not change what a file expands to: a text
/// or a failure that the model gives at one depth it gives at every greater depth.
pub proof fn lemma_expand_depth(
    fs: FileSystem,
    keyword: Seq<u8>,
    tolerant: bool,
    path: FilePathView,
    depth: nat,
    deeper: nat,
)
    requires
        depth <= deeper,
        !(expand_spec(fs, keyword, tolerant, path, depth) is TooDeep),
    ensures
        expand_spec(fs, keyword, tolerant, path, deeper) == expand_spec(
            fs,
            keyword,
            tolerant,
            path,
            depth,
        ),
    decreases depth, 1nat, 0nat,
{
    if fs.is_file(path) {
        if let Some(text) = fs.read(path) {
            lemma_flatten_depth(fs, keyword, tolerant, fs.base_of(path), path, text, 0, depth, deeper);
        }
    }
}

/// The depth that is allowed for does not change what a text is flattened to.
pub proof fn lemma_flatten_depth(
    fs: FileSystem,
    keyword: Seq<u8>,
    tolerant: bool,
    base: DirPathView,
    source: FilePathView,
    text: Seq<u8>,
    from: int,
    depth: nat,
    deeper: nat,
)
    requires
        depth <= deeper,
        !(flatten_spec(fs, keyword, tolerant, base, source, text, from, depth) is TooDeep),
    ensures
        flatten_spec(fs, keyword, tolerant, base, source, text, from, deeper) == flatten_spec(
            fs,
            keyword,
            tolerant,
            base,
            source,
            text,
            from,
            depth,
        ),
    decreases depth, 0nat, text.len() - from,
{
    if let Scan::Found(d) = scan(text, keyword, from) {
        if 0 <= from {
            lemma_scan_bounds(text, keyword, from);
        }
        let name = text.subrange(d.name_start, d.name_end);
        let path = fs.resolve(base, name);
        lemma_expand_depth(fs, keyword, tolerant, path, (depth - 1) as nat, (deeper - 1) as nat);
        if expand_spec(fs, keyword, tolerant, path, (depth - 1) as nat) is Text {
            lemma_flatten_depth(fs, keyword, tolerant, base, source, text, d.end, depth, deeper);
        }
    }
}

} // verus!
