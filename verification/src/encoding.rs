//! Flattening and UTF-8: a tree of well-formed texts flattens to a well-formed
//! text, because a declaration begins and ends with ASCII bytes, so that no
//! character is ever cut in two.

use vstd::prelude::*;
use vstd::utf8::{
    is_char_boundary, is_char_boundary_iff_not_is_continuation_byte,
    is_char_boundary_start_end_of_seq, length_of_first_scalar, partial_valid_utf8_extend_ascii_block,
    pop_first_scalar, valid_first_scalar, valid_utf8, valid_utf8_concat, valid_utf8_split,
};
use crate::lexer::{char_end, continuation_end, ident_end, lemma_ident_end_bounds};
use crate::model::{
    block, closing, expand_spec, flatten_spec, placeholder, FileSystem, Outcome,
};
use crate::path::{DirPathView, FilePathView};
use crate::scan::{lemma_found_is_declaration, scan, Scan};

verus! {

/// Whether every byte of `bytes` is an ASCII byte.
pub open spec fn is_ascii(bytes: Seq<u8>) -> bool {
    forall|i: int| 0 <= i < bytes.len() ==> #[trigger] bytes[i] <= 0x7f
}

/// Whether every text that can be read in `fs` is well-formed UTF-8.
pub open spec fn texts_are_utf8(fs: FileSystem) -> bool {
    forall|path: FilePathView| fs.texts.dom().contains(path) ==> valid_utf8(#[trigger] fs.texts[path])
}

/// ASCII bytes are well-formed UTF-8.
pub proof fn lemma_ascii_is_utf8(bytes: Seq<u8>)
    requires
        is_ascii(bytes),
    ensures
        valid_utf8(bytes),
{
    assert(valid_utf8(bytes.subrange(0, 0)));
    partial_valid_utf8_extend_ascii_block(bytes, 0, bytes.len() as int);
    assert(bytes.subrange(0, bytes.len() as int) =~= bytes);
}

/// Behind a character boundary within the text, the end of the character that
/// starts there is a character boundary too.
proof fn lemma_next_boundary(bytes: Seq<u8>, i: int)
    requires
        valid_utf8(bytes),
        0 <= i < bytes.len(),
        is_char_boundary(bytes, i),
    ensures
        is_char_boundary(
            bytes,
            i + length_of_first_scalar(bytes.subrange(i, bytes.len() as int)),
        ),
    decreases bytes.len(),
{
    let first = length_of_first_scalar(bytes);
    let rest = pop_first_scalar(bytes);
    assert(valid_utf8(rest));
    if i == 0 {
        assert(bytes.subrange(0, bytes.len() as int) =~= bytes);
        assert(is_char_boundary(rest, 0));
        assert(is_char_boundary(bytes, first));
    } else {
        assert(is_char_boundary(rest, i - first));
        assert(i - first >= 0);
        lemma_next_boundary(rest, i - first);
        assert(rest.subrange(i - first, rest.len() as int) =~= bytes.subrange(
            i,
            bytes.len() as int,
        ));
        let width = length_of_first_scalar(bytes.subrange(i, bytes.len() as int));
        assert(is_char_boundary(rest, i - first + width));
        assert(i - first + width <= rest.len());
        assert(is_char_boundary(bytes, i + width));
    }
}

/// An ASCII byte of a well-formed text starts a character and ends it.
pub proof fn lemma_ascii_byte_is_a_character(bytes: Seq<u8>, i: int)
    requires
        valid_utf8(bytes),
        0 <= i < bytes.len(),
        bytes[i] <= 0x7f,
    ensures
        is_char_boundary(bytes, i),
        is_char_boundary(bytes, i + 1),
{
    is_char_boundary_iff_not_is_continuation_byte(bytes, i);
    lemma_next_boundary(bytes, i);
    assert(bytes.subrange(i, bytes.len() as int)[0] == bytes[i]);
}

/// In a well-formed text, the single character that the tokenizer reads at a
/// character boundary is one character of the text.
pub proof fn law_character_is_one_scalar(text: Seq<u8>, pos: int)
    requires
        valid_utf8(text),
        0 <= pos < text.len(),
        is_char_boundary(text, pos),
    ensures
        char_end(text, pos) == pos + length_of_first_scalar(
            text.subrange(pos, text.len() as int),
        ),
{
    valid_utf8_split(text, pos);
    let tail = text.subrange(pos, text.len() as int);
    assert(valid_first_scalar(tail));
    assert(forall|i: int| 0 <= i < tail.len() ==> #[trigger] tail[i] == text[pos + i]);
    reveal_with_fuel(continuation_end, 4);
}

/// What lies between two character boundaries of a well-formed text is
/// well-formed.
pub proof fn lemma_between_boundaries(bytes: Seq<u8>, from: int, to: int)
    requires
        valid_utf8(bytes),
        0 <= from <= to <= bytes.len(),
        is_char_boundary(bytes, from),
        is_char_boundary(bytes, to),
    ensures
        valid_utf8(bytes.subrange(from, to)),
{
    valid_utf8_split(bytes, from);
    let tail = bytes.subrange(from, bytes.len() as int);
    if to == bytes.len() {
        is_char_boundary_start_end_of_seq(tail);
    } else if to == from {
        is_char_boundary_start_end_of_seq(tail);
    } else {
        is_char_boundary_iff_not_is_continuation_byte(bytes, to);
        is_char_boundary_iff_not_is_continuation_byte(tail, to - from);
    }
    valid_utf8_split(tail, to - from);
    assert(tail.subrange(0, to - from) =~= bytes.subrange(from, to));
}

/// The block of a unit is well-formed if its keyword, its name and the unit's
/// text are.
proof fn lemma_block_is_utf8(keyword: Seq<u8>, name: Seq<u8>, child: Seq<u8>)
    requires
        valid_utf8(keyword),
        valid_utf8(name),
        valid_utf8(child),
    ensures
        valid_utf8(block(keyword, name, child)),
{
    let space = seq![0x20u8];
    let open = seq![0x7bu8, 0x0au8];
    let close = seq![0x0au8, 0x7du8];
    lemma_ascii_is_utf8(space);
    lemma_ascii_is_utf8(open);
    lemma_ascii_is_utf8(close);
    valid_utf8_concat(keyword, space);
    valid_utf8_concat(keyword + space, name);
    valid_utf8_concat(keyword + space + name, open);
    valid_utf8_concat(keyword + space + name + open, child);
    valid_utf8_concat(keyword + space + name + open + child, close);
}

/// A file of a tree of well-formed texts expands to a well-formed text.
pub proof fn law_expansion_is_utf8(
    fs: FileSystem,
    keyword: Seq<u8>,
    tolerant: bool,
    path: FilePathView,
    depth: nat,
)
    requires
        texts_are_utf8(fs),
    ensures
        expand_spec(fs, keyword, tolerant, path, depth) matches Outcome::Text(text) ==> valid_utf8(
            text,
        ),
    decreases depth, 1nat, 0nat,
{
    if !fs.is_file(path) {
        lemma_ascii_is_utf8(placeholder());
    } else if let Some(text) = fs.read(path) {
        assert(valid_utf8(fs.texts[path]));
        law_flattened_text_is_utf8(fs, keyword, tolerant, fs.base_of(path), path, text, 0, depth);
    }
}

/// A well-formed text of a tree of well-formed texts, flattened from a character
/// boundary on, is well-formed.
pub proof fn law_flattened_text_is_utf8(
    fs: FileSystem,
    keyword: Seq<u8>,
    tolerant: bool,
    base: DirPathView,
    source: FilePathView,
    text: Seq<u8>,
    from: int,
    depth: nat,
)
    requires
        texts_are_utf8(fs),
        valid_utf8(text),
        0 <= from <= text.len(),
        is_char_boundary(text, from),
    ensures
        flatten_spec(fs, keyword, tolerant, base, source, text, from, depth) matches Outcome::Text(
            flat,
        ) ==> valid_utf8(flat),
    decreases depth, 0nat, text.len() - from,
{
    is_char_boundary_start_end_of_seq(text);
    match scan(text, keyword, from) {
        Scan::Found(d) => {
            if depth > 0 {
                lemma_found_is_declaration(text, keyword, from);
                lemma_ident_end_bounds(text, d.start);
                lemma_ident_end_bounds(text, d.name_start);
                let name = text.subrange(d.name_start, d.name_end);
                let child = expand_spec(
                    fs,
                    keyword,
                    tolerant,
                    fs.resolve(base, name),
                    (depth - 1) as nat,
                );
                let rest = flatten_spec(fs, keyword, tolerant, base, source, text, d.end, depth);
                if let Outcome::Text(inner) = child {
                    if let Outcome::Text(tail) = rest {
                        let piece = text.subrange(from, d.start);
                        lemma_ascii_byte_is_a_character(text, d.start);
                        lemma_ascii_byte_is_a_character(text, d.end - 1);
                        lemma_between_boundaries(text, from, d.start);
                        assert(is_ascii(name));
                        assert(is_ascii(keyword)) by {
                            let run = text.subrange(d.start, ident_end(text, d.start));
                            assert(forall|i: int|
                                0 <= i < run.len() ==> #[trigger] run[i] == text[d.start + i]);
                        }
                        lemma_ascii_is_utf8(name);
                        lemma_ascii_is_utf8(keyword);
                        law_expansion_is_utf8(
                            fs,
                            keyword,
                            tolerant,
                            fs.resolve(base, name),
                            (depth - 1) as nat,
                        );
                        law_flattened_text_is_utf8(
                            fs,
                            keyword,
                            tolerant,
                            base,
                            source,
                            text,
                            d.end,
                            depth,
                        );
                        lemma_block_is_utf8(keyword, name, inner);
                        lemma_ascii_is_utf8(closing(text, d.end));
                        valid_utf8_concat(piece, block(keyword, name, inner));
                        valid_utf8_concat(
                            piece + block(keyword, name, inner),
                            closing(text, d.end),
                        );
                        valid_utf8_concat(
                            piece + block(keyword, name, inner) + closing(text, d.end),
                            tail,
                        );
                    }
                }
            }
        },
        Scan::Exhausted => {
            lemma_between_boundaries(text, from, text.len() as int);
        },
        Scan::Malformed(at) => {},
    }
}

} // verus!
