//! The two words that tell how a source tree declares its units: the keyword of a
//! declaration and the extension of the files that hold the units.

use vstd::prelude::*;
use crate::bytes::{ident_byte, is_ident_byte};

verus! {

/// The keyword that opens a declaration, and the extension of a unit's file.
#[derive(Debug)]
pub struct Syntax {
    pub keyword: Vec<u8>,
    pub extension: Vec<u8>,
}

/// Whether `word` is a run of identifier bytes and not empty.
pub open spec fn is_word(word: Seq<u8>) -> bool {
    word.len() > 0 && forall|i: int| 0 <= i < word.len() ==> is_ident_byte(#[trigger] word[i])
}

/// `mod`, the keyword of Rust's declarations.
pub open spec fn rust_keyword() -> Seq<u8> {
    seq![0x6du8, 0x6fu8, 0x64u8]
}

/// `rs`, the extension of Rust's source files.
pub open spec fn rust_extension() -> Seq<u8> {
    seq![0x72u8, 0x73u8]
}

/// Tells whether `word` is a run of identifier bytes and not empty.
pub fn word(bytes: &[u8]) -> (r: bool)
    ensures
        r == is_word(bytes@),
{
    if bytes.len() == 0 {
        return false;
    }
    let mut i: usize = 0;
    while i < bytes.len()
        invariant
            i <= bytes@.len(),
            forall|j: int| 0 <= j < i ==> is_ident_byte(#[trigger] bytes@[j]),
        decreases bytes@.len() - i,
    {
        if !ident_byte(bytes[i]) {
            return false;
        }
        i += 1;
    }
    true
}

impl Syntax {
    /// A keyword can open a declaration only if the tokenizer reads it as one run of
    /// identifier bytes, and an extension names a unit's file only if it is such a
    /// run too.
    pub open spec fn well_formed(&self) -> bool {
        is_word(self.keyword@) && is_word(self.extension@)
    }

    /// The syntax with the given keyword and extension, if both are runs of
    /// identifier bytes.
    pub fn new(keyword: Vec<u8>, extension: Vec<u8>) -> (r: Option<Syntax>)
        ensures
            r is Some <==> is_word(keyword@) && is_word(extension@),
            r matches Some(s) ==> s.keyword@ == keyword@ && s.extension@ == extension@,
    {
        if word(keyword.as_slice()) && word(extension.as_slice()) {
            Some(Syntax { keyword, extension })
        } else {
            None
        }
    }

    /// The syntax of Rust: `mod name;` declares the unit in `name.rs` or in
    /// `name/mod.rs`.
    pub fn rust() -> (r: Syntax)
        ensures
            r.keyword@ == rust_keyword(),
            r.extension@ == rust_extension(),
            r.well_formed(),
    {
        let keyword: Vec<u8> = vec![0x6du8, 0x6fu8, 0x64u8];
        let extension: Vec<u8> = vec![0x72u8, 0x73u8];
        assert(keyword@ =~= rust_keyword());
        assert(extension@ =~= rust_extension());
        Syntax { keyword, extension }
    }
}

} // verus!
