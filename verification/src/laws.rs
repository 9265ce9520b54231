//! What holds of every flattening.

use vstd::prelude::*;
use crate::engine::{
    ask_view, expanding, fresh_frame, resume_spec, step_spec, AnswerView, FlattenerView,
    PendingView, StepView,
};
use crate::error::FlattenErrorView;
use crate::lexer::{
    block_close, lemma_block_close_bounds, lemma_lex_bounds, lemma_line_end_bounds, lex,
    line_comment_end, starts_block_comment, starts_line_comment, Lexed, TokenKind,
};
use crate::model::{
    block, closing, expand_spec, flatten_spec, lemma_prepend_twice, placeholder, prepend,
    FileSystem, Outcome,
};
use crate::path::{DirPathView, FilePathView};
use crate::refine::{
    expand_steps, run, theorem_expand_reaches_expansion, theorem_flatten_reaches_flattening,
};
use crate::scan::{declaration_at, lemma_scan_bounds, scan, Scan};

verus! {

/// Whether `pos` is an offset that the token stream pulls from when it starts at
/// `from`: `from` itself, or the end of a token that the stream has yielded.
pub open spec fn pulls_from(text: Seq<u8>, keyword: Seq<u8>, from: int, pos: int) -> bool
    decreases text.len() - from,
{
    if pos == from {
        true
    } else {
        match lex(text, keyword, from) {
            Lexed::Token(t) => {
                proof {
                    if 0 <= from {
                        lemma_lex_bounds(text, keyword, from);
                    }
                }
                pulls_from(text, keyword, t.end, pos)
            },
            _ => false,
        }
    }
}

/// Whether no declaration starts with any token of `text`: wherever the token
/// stream pulls from, the token it yields is not the keyword, or the next is no
/// identifier, or the one after it is not the separator.
pub open spec fn has_no_declaration(text: Seq<u8>, keyword: Seq<u8>, from: int) -> bool {
    forall|pos: int| pulls_from(text, keyword, from, pos) ==> !declaration_at(text, keyword, pos)
}

/// What the token stream pulls from after an offset that it pulls from, it pulls
/// from.
proof fn lemma_pulls_on(text: Seq<u8>, keyword: Seq<u8>, from: int, mid: int, pos: int)
    requires
        pulls_from(text, keyword, from, mid),
        pulls_from(text, keyword, mid, pos),
    ensures
        pulls_from(text, keyword, from, pos),
    decreases text.len() - from,
{
    if mid != from && pos != from {
        if let Lexed::Token(t) = lex(text, keyword, from) {
            if 0 <= from {
                lemma_lex_bounds(text, keyword, from);
            }
            lemma_pulls_on(text, keyword, t.end, mid, pos);
        }
    }
}

/// A text without a declaration has none behind any offset that its token stream
/// pulls from.
proof fn lemma_no_declaration_on(text: Seq<u8>, keyword: Seq<u8>, from: int, mid: int)
    requires
        has_no_declaration(text, keyword, from),
        pulls_from(text, keyword, from, mid),
    ensures
        has_no_declaration(text, keyword, mid),
{
    assert forall|pos: int| pulls_from(text, keyword, mid, pos) implies !declaration_at(
        text,
        keyword,
        pos,
    ) by {
        lemma_pulls_on(text, keyword, from, mid, pos);
    }
}

/// Only the keyword, an identifier and the separator in a row are a declaration:
/// in a text whose token stream never yields such three tokens in a row, a search
/// finds no declaration.
pub proof fn law_search_finds_only_declarations(text: Seq<u8>, keyword: Seq<u8>, from: int)
    requires
        has_no_declaration(text, keyword, from),
    ensures
        !(scan(text, keyword, from) is Found),
    decreases text.len() - from,
{
    if 0 <= from {
        lemma_lex_bounds(text, keyword, from);
        assert(pulls_from(text, keyword, from, from));
        assert(!declaration_at(text, keyword, from));
        if let Lexed::Token(first) = lex(text, keyword, from) {
            lemma_lex_bounds(text, keyword, first.end);
            assert(pulls_from(text, keyword, first.end, first.end));
            assert(pulls_from(text, keyword, from, first.end));
            if first.kind != TokenKind::Keyword {
                lemma_no_declaration_on(text, keyword, from, first.end);
                law_search_finds_only_declarations(text, keyword, first.end);
            } else if let Lexed::Token(second) = lex(text, keyword, first.end) {
                lemma_lex_bounds(text, keyword, second.end);
                assert(pulls_from(text, keyword, second.end, second.end));
                assert(pulls_from(text, keyword, first.end, second.end));
                assert(pulls_from(text, keyword, from, second.end));
                if second.kind != TokenKind::Identifier {
                    lemma_no_declaration_on(text, keyword, from, second.end);
                    law_search_finds_only_declarations(text, keyword, second.end);
                } else if let Lexed::Token(third) = lex(text, keyword, second.end) {
                    assert(pulls_from(text, keyword, third.end, third.end));
                    assert(pulls_from(text, keyword, second.end, third.end));
                    assert(pulls_from(text, keyword, first.end, third.end));
                    assert(pulls_from(text, keyword, from, third.end));
                    if third.kind != TokenKind::Separator {
                        lemma_no_declaration_on(text, keyword, from, third.end);
                        law_search_finds_only_declarations(text, keyword, third.end);
                    }
                }
            }
        }
    }
}

/// What a search passes over is kept as it is: where a search from `from` finds
/// what a search from `to` finds, the text between the two offsets stands unchanged
/// before the flattened rest.
pub proof fn law_passed_over_is_kept(
    fs: FileSystem,
    keyword: Seq<u8>,
    tolerant: bool,
    base: DirPathView,
    source: FilePathView,
    text: Seq<u8>,
    from: int,
    to: int,
    depth: nat,
)
    requires
        0 <= from <= to <= text.len(),
        scan(text, keyword, from) == scan(text, keyword, to),
    ensures
        flatten_spec(fs, keyword, tolerant, base, source, text, from, depth) == prepend(
            text.subrange(from, to),
            flatten_spec(fs, keyword, tolerant, base, source, text, to, depth),
        ),
{
    lemma_scan_bounds(text, keyword, to);
    match scan(text, keyword, from) {
        Scan::Found(d) => {
            if depth > 0 {
                let name = text.subrange(d.name_start, d.name_end);
                let child = expand_spec(
                    fs,
                    keyword,
                    tolerant,
                    fs.resolve(base, name),
                    (depth - 1) as nat,
                );
                if let Outcome::Text(inner) = child {
                    let put = block(keyword, name, inner) + closing(text, d.end);
                    assert(text.subrange(to, d.start) + block(keyword, name, inner) + closing(
                        text,
                        d.end,
                    ) =~= text.subrange(to, d.start) + put);
                    lemma_prepend_twice(
                        text.subrange(from, to),
                        text.subrange(to, d.start) + put,
                        flatten_spec(fs, keyword, tolerant, base, source, text, d.end, depth),
                    );
                    assert(text.subrange(from, to) + (text.subrange(to, d.start) + put)
                        =~= text.subrange(from, d.start) + block(keyword, name, inner) + closing(
                        text,
                        d.end,
                    ));
                }
            }
        },
        Scan::Exhausted => {
            assert(text.subrange(from, to) + text.subrange(to, text.len() as int)
                =~= text.subrange(from, text.len() as int));
        },
        Scan::Malformed(at) => {},
    }
}

/// A text without a declaration is flattened to itself, byte for byte, unless the
/// search for declarations runs into an unclosed block comment.
pub proof fn law_text_without_declaration_is_unchanged(
    fs: FileSystem,
    keyword: Seq<u8>,
    tolerant: bool,
    base: DirPathView,
    source: FilePathView,
    text: Seq<u8>,
    depth: nat,
)
    requires
        has_no_declaration(text, keyword, 0),
    ensures
        flatten_spec(fs, keyword, tolerant, base, source, text, 0, depth) == match scan(
            text,
            keyword,
            0,
        ) {
            Scan::Malformed(at) => Outcome::Failure(
                FlattenErrorView::MalformedComment { source, at },
            ),
            _ => Outcome::Text(text),
        },
{
    law_search_finds_only_declarations(text, keyword, 0);
    assert(text.subrange(0, text.len() as int) =~= text);
}

/// The flattening of a text without a declaration is done at once, with the text
/// as it is: the engine asks nothing.
pub proof fn law_flattening_without_declaration_is_unchanged(
    fs: FileSystem,
    keyword: Seq<u8>,
    tolerant: bool,
    base: DirPathView,
    source: FilePathView,
    text: Seq<u8>,
    extra: nat,
)
    requires
        has_no_declaration(text, keyword, 0),
        !(scan(text, keyword, 0) is Malformed),
    ensures
        resume_spec(keyword, tolerant, Seq::empty(), fresh_frame(source, base, text))
            == StepView::Done(text),
        run(
            fs,
            resume_spec(keyword, tolerant, Seq::empty(), fresh_frame(source, base, text)),
            extra,
        ) == StepView::Done(text),
{
    law_text_without_declaration_is_unchanged(fs, keyword, tolerant, base, source, text, 0);
    law_search_finds_only_declarations(text, keyword, 0);
    theorem_flatten_reaches_flattening(fs, keyword, tolerant, base, source, text, 0, extra);
    theorem_flatten_reaches_flattening(fs, keyword, tolerant, base, source, text, 0, 0);
}

/// A file without a declaration comes out as it is: a run that starts with the
/// expansion of the file is done with the text of the file after three answers.
pub proof fn law_file_without_declaration_is_unchanged(
    fs: FileSystem,
    keyword: Seq<u8>,
    tolerant: bool,
    path: FilePathView,
    text: Seq<u8>,
    extra: nat,
)
    requires
        fs.is_file(path),
        fs.read(path) == Some(text),
        has_no_declaration(text, keyword, 0),
        !(scan(text, keyword, 0) is Malformed),
    ensures
        expand_spec(fs, keyword, tolerant, path, 0) == Outcome::Text(text),
        run(fs, ask_view(expanding(keyword, tolerant, path)), 3 + extra) == StepView::Done(text),
{
    law_text_without_declaration_is_unchanged(
        fs,
        keyword,
        tolerant,
        fs.base_of(path),
        path,
        text,
        0,
    );
    law_search_finds_only_declarations(text, keyword, 0);
    theorem_expand_reaches_expansion(fs, keyword, tolerant, path, 0, extra);
}

/// A declaration gives way to the block of its unit: the text before it stands as
/// it is, the block holds what the unit's file expands to, one newline follows the
/// block unless the text behind the declaration begins with one, and the text
/// behind the declaration is flattened in the same way.
pub proof fn law_declaration_becomes_block(
    fs: FileSystem,
    keyword: Seq<u8>,
    tolerant: bool,
    base: DirPathView,
    source: FilePathView,
    text: Seq<u8>,
    from: int,
    depth: nat,
)
    requires
        scan(text, keyword, from) is Found,
        depth > 0,
    ensures
        ({
            let d = scan(text, keyword, from)->Found_0;
            let name = text.subrange(d.name_start, d.name_end);
            flatten_spec(fs, keyword, tolerant, base, source, text, from, depth) == match expand_spec(
                fs,
                keyword,
                tolerant,
                fs.resolve(base, name),
                (depth - 1) as nat,
            ) {
                Outcome::Text(child) => prepend(
                    text.subrange(from, d.start) + block(keyword, name, child) + closing(
                        text,
                        d.end,
                    ),
                    flatten_spec(fs, keyword, tolerant, base, source, text, d.end, depth),
                ),
                other => other,
            }
        }),
{
}

/// A path that is no regular file fails the run unless missing units are
/// tolerated, and expands to the placeholder where they are. The run ends with
/// the first answer: nothing is read.
pub proof fn law_missing_file(
    fs: FileSystem,
    keyword: Seq<u8>,
    tolerant: bool,
    path: FilePathView,
    depth: nat,
    extra: nat,
)
    requires
        !fs.is_file(path),
    ensures
        expand_spec(fs, keyword, tolerant, path, depth) == if tolerant {
            Outcome::Text(placeholder())
        } else {
            Outcome::Failure(FlattenErrorView::FileNotFound(path))
        },
        expand_steps(fs, keyword, tolerant, path, depth) == 1,
        run(fs, ask_view(expanding(keyword, tolerant, path)), 1 + extra) == if tolerant {
            StepView::Done(placeholder())
        } else {
            StepView::Failed(FlattenErrorView::FileNotFound(path))
        },
{
    theorem_expand_reaches_expansion(fs, keyword, tolerant, path, depth, extra);
}

/// An engine that does not tolerate missing units, told that the file it is to
/// expand is no regular file, fails with that file, whatever is suspended.
pub proof fn law_missing_file_fails_the_run(machine: FlattenerView, path: FilePathView)
    requires
        machine.pending == (PendingView::Locate { path }),
        !machine.tolerant,
    ensures
        step_spec(machine, AnswerView::Flag(false)) == StepView::Failed(
            FlattenErrorView::FileNotFound(path),
        ),
{
}

/// A unit whose file is no regular file fails the run unless missing units are
/// tolerated; where they are, the placeholder stands for the unit's text, and the
/// flattening goes on behind the declaration.
pub proof fn law_missing_unit(
    fs: FileSystem,
    keyword: Seq<u8>,
    tolerant: bool,
    base: DirPathView,
    source: FilePathView,
    text: Seq<u8>,
    from: int,
    depth: nat,
)
    requires
        scan(text, keyword, from) is Found,
        depth > 0,
        ({
            let d = scan(text, keyword, from)->Found_0;
            !fs.is_file(fs.resolve(base, text.subrange(d.name_start, d.name_end)))
        }),
    ensures
        ({
            let d = scan(text, keyword, from)->Found_0;
            let name = text.subrange(d.name_start, d.name_end);
            flatten_spec(fs, keyword, tolerant, base, source, text, from, depth) == if tolerant {
                prepend(
                    text.subrange(from, d.start) + block(keyword, name, placeholder()) + closing(
                        text,
                        d.end,
                    ),
                    flatten_spec(fs, keyword, tolerant, base, source, text, d.end, depth),
                )
            } else {
                Outcome::Failure(FlattenErrorView::FileNotFound(fs.resolve(base, name)))
            }
        }),
{
    let d = scan(text, keyword, from)->Found_0;
    let path = fs.resolve(base, text.subrange(d.name_start, d.name_end));
    assert(expand_spec(fs, keyword, tolerant, path, (depth - 1) as nat) == if tolerant {
        Outcome::Text(placeholder())
    } else {
        Outcome::Failure(FlattenErrorView::FileNotFound(path))
    });
}

/// A line comment is never searched: what a search finds from the start of the
/// comment is what it finds behind the comment, which ends behind the next newline
/// or at the end of the text, and the comment stands unchanged in the flattened
/// text.
pub proof fn law_line_comment_is_kept(
    fs: FileSystem,
    keyword: Seq<u8>,
    tolerant: bool,
    base: DirPathView,
    source: FilePathView,
    text: Seq<u8>,
    start: int,
    depth: nat,
)
    requires
        starts_line_comment(text, start),
    ensures
        ({
            let end = line_comment_end(text, start);
            &&& start < end <= text.len()
            &&& lex(text, keyword, start) == lex(text, keyword, end)
            &&& scan(text, keyword, start) == scan(text, keyword, end)
            &&& flatten_spec(fs, keyword, tolerant, base, source, text, start, depth) == prepend(
                text.subrange(start, end),
                flatten_spec(fs, keyword, tolerant, base, source, text, end, depth),
            )
        }),
{
    let end = line_comment_end(text, start);
    lemma_line_end_bounds(text, start + 2);
    law_passed_over_is_kept(fs, keyword, tolerant, base, source, text, start, end, depth);
}

/// A block comment that is closed is never searched: what a search finds from the
/// start of the comment is what it finds behind the comment's end, and the comment
/// stands unchanged in the flattened text.
pub proof fn law_block_comment_is_kept(
    fs: FileSystem,
    keyword: Seq<u8>,
    tolerant: bool,
    base: DirPathView,
    source: FilePathView,
    text: Seq<u8>,
    start: int,
    depth: nat,
)
    requires
        starts_block_comment(text, start),
        block_close(text, start + 2) < text.len(),
    ensures
        ({
            let end = block_close(text, start + 2) + 2;
            &&& start < end <= text.len()
            &&& lex(text, keyword, start) == lex(text, keyword, end)
            &&& scan(text, keyword, start) == scan(text, keyword, end)
            &&& flatten_spec(fs, keyword, tolerant, base, source, text, start, depth) == prepend(
                text.subrange(start, end),
                flatten_spec(fs, keyword, tolerant, base, source, text, end, depth),
            )
        }),
{
    let end = block_close(text, start + 2) + 2;
    lemma_block_close_bounds(text, start + 2);
    law_passed_over_is_kept(fs, keyword, tolerant, base, source, text, start, end, depth);
}

/// A block comment that is never closed fails the run, whatever stands in it.
pub proof fn law_unclosed_comment_fails(
    fs: FileSystem,
    keyword: Seq<u8>,
    tolerant: bool,
    base: DirPathView,
    source: FilePathView,
    text: Seq<u8>,
    start: int,
    depth: nat,
)
    requires
        starts_block_comment(text, start),
        block_close(text, start + 2) >= text.len(),
    ensures
        lex(text, keyword, start) == Lexed::Malformed(start),
        scan(text, keyword, start) == Scan::Malformed(start),
        flatten_spec(fs, keyword, tolerant, base, source, text, start, depth) == Outcome::Failure(
            FlattenErrorView::MalformedComment { source, at: start },
        ),
{
}

/// Whether `text`, the text of `path`, declares one unit and no more, and `child`
/// is the file of that unit.
pub open spec fn declares_only(
    fs: FileSystem,
    keyword: Seq<u8>,
    path: FilePathView,
    text: Seq<u8>,
    child: FilePathView,
) -> bool {
    &&& scan(text, keyword, 0) matches Scan::Found(d)
    &&& scan(text, keyword, d.end) is Exhausted
    &&& child == fs.resolve(fs.base_of(path), text.subrange(d.name_start, d.name_end))
}

/// Whether `paths` is a chain of files with the texts `texts`: each file but the
/// last declares the next one and nothing else, and the last declares nothing.
pub open spec fn is_chain(
    fs: FileSystem,
    keyword: Seq<u8>,
    paths: Seq<FilePathView>,
    texts: Seq<Seq<u8>>,
) -> bool {
    &&& paths.len() == texts.len()
    &&& texts.len() > 0
    &&& forall|i: int|
        0 <= i < paths.len() ==> fs.is_file(#[trigger] paths[i]) && fs.read(paths[i]) == Some(
            texts[i],
        )
    &&& forall|i: int|
        0 <= i < texts.len() - 1 ==> declares_only(
            fs,
            keyword,
            paths[i],
            #[trigger] texts[i],
            paths[i + 1],
        )
    &&& scan(texts.last(), keyword, 0) is Exhausted
}

/// The blocks of a chain from its file `i` on, one within the other: the text of
/// the file with the block of the next file in the place of its declaration, and
/// the text of the last file as it is.
pub open spec fn nested(keyword: Seq<u8>, texts: Seq<Seq<u8>>, i: int) -> Seq<u8>
    decreases texts.len() - i,
{
    if 0 <= i < texts.len() - 1 {
        let d = scan(texts[i], keyword, 0)->Found_0;
        texts[i].subrange(0, d.start) + block(
            keyword,
            texts[i].subrange(d.name_start, d.name_end),
            nested(keyword, texts, i + 1),
        ) + closing(texts[i], d.end) + texts[i].subrange(d.end, texts[i].len() as int)
    } else if i == texts.len() - 1 {
        texts[i]
    } else {
        Seq::empty()
    }
}

/// A chain of files, each declared by the one before it, flattens to as many
/// blocks, one within the other, in the order of the chain; the innermost holds the
/// text of the last file.
pub proof fn law_chain_nests(
    fs: FileSystem,
    keyword: Seq<u8>,
    tolerant: bool,
    paths: Seq<FilePathView>,
    texts: Seq<Seq<u8>>,
    i: int,
)
    requires
        is_chain(fs, keyword, paths, texts),
        0 <= i < paths.len(),
    ensures
        expand_spec(fs, keyword, tolerant, paths[i], (paths.len() - 1 - i) as nat) == Outcome::Text(
            nested(keyword, texts, i),
        ),
    decreases paths.len() - i,
{
    let text = texts[i];
    let path = paths[i];
    let depth = (paths.len() - 1 - i) as nat;
    assert(fs.is_file(path) && fs.read(path) == Some(text));
    if i < paths.len() - 1 {
        law_chain_nests(fs, keyword, tolerant, paths, texts, i + 1);
        assert(declares_only(fs, keyword, path, text, paths[i + 1]));
        let d = scan(text, keyword, 0)->Found_0;
        let base = fs.base_of(path);
        assert(flatten_spec(fs, keyword, tolerant, base, path, text, d.end, depth) == Outcome::Text(
            text.subrange(d.end, text.len() as int),
        ));
        assert(expand_spec(fs, keyword, tolerant, paths[i + 1], (depth - 1) as nat)
            == Outcome::Text(nested(keyword, texts, i + 1)));
        assert(flatten_spec(fs, keyword, tolerant, base, path, text, 0, depth) == Outcome::Text(
            nested(keyword, texts, i),
        ));
    } else {
        assert(text.subrange(0, text.len() as int) =~= text);
    }
}

/// A run of the engine that starts with the expansion of the first file of a
/// chain is done with the nested blocks of the chain.
pub proof fn law_chain_run(
    fs: FileSystem,
    keyword: Seq<u8>,
    tolerant: bool,
    paths: Seq<FilePathView>,
    texts: Seq<Seq<u8>>,
    extra: nat,
)
    requires
        is_chain(fs, keyword, paths, texts),
    ensures
        run(
            fs,
            ask_view(expanding(keyword, tolerant, paths[0])),
            expand_steps(fs, keyword, tolerant, paths[0], (paths.len() - 1) as nat) + extra,
        ) == StepView::Done(nested(keyword, texts, 0)),
{
    law_chain_nests(fs, keyword, tolerant, paths, texts, 0);
    theorem_expand_reaches_expansion(
        fs,
        keyword,
        tolerant,
        paths[0],
        (paths.len() - 1) as nat,
        extra,
    );
}

} // verus!
