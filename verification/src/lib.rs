//! Flattens a tree of source files into one file.
//!
//! A source file declares a unit with the keyword, the unit's name and `;`. The
//! unit's text lies in a file of its own, named after the unit, or in the index
//! file of a directory named after the unit. Flattening puts the text of every
//! declared unit in the place of its declaration, in a block, and leaves all other
//! text as it is, byte for byte.
//!
//! - [`lexer`] finds the tokens of a text, and [`scan`] the declarations.
//! - [`model`] defines what a file flattens to in a given file system.
//! - [`engine`] computes it: a machine that asks for what it needs of the file
//!   system, one question at a time, and never touches the file system itself.
//! - [`refine`] proves that a run of the engine ends, and ends with what the model
//!   says; [`laws`] states what holds of every flattening.
//! - [`path`] names files and directories relative to the entry file, [`syntax`]
//!   holds the keyword and the extension, and [`guard`] the two checks that come
//!   before a run and before its output is written.

pub mod bytes;
pub mod encoding;
pub mod engine;
pub mod error;
pub mod guard;
pub mod laws;
pub mod lexer;
pub mod model;
pub mod path;
pub mod refine;
pub mod scan;
pub mod syntax;
mod text;
