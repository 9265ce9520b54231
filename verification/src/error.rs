//! The ways in which a flattening fails.

use vstd::prelude::*;
use crate::path::{FilePath, FilePathView};

verus! {

/// Why a flattening was given up. Every failure ends the whole run.
#[derive(Debug, PartialEq, Eq)]
pub enum FlattenError {
    /// A unit's file is no regular file, and missing units are not tolerated.
    FileNotFound(FilePath),
    /// A file could not be read.
    ReadFailure(FilePath),
    /// A block comment that starts at offset `at` of `source` is never closed.
    MalformedComment { source: FilePath, at: usize },
}

/// A failure as specifications see it.
pub enum FlattenErrorView {
    FileNotFound(FilePathView),
    ReadFailure(FilePathView),
    MalformedComment { source: FilePathView, at: int },
}

impl View for FlattenError {
    type V = FlattenErrorView;

    open spec fn view(&self) -> FlattenErrorView {
        match self {
            FlattenError::FileNotFound(path) => FlattenErrorView::FileNotFound(path@),
            FlattenError::ReadFailure(path) => FlattenErrorView::ReadFailure(path@),
            FlattenError::MalformedComment { source, at } => FlattenErrorView::MalformedComment {
                source: source@,
                at: *at as int,
            },
        }
    }
}

} // verus!
