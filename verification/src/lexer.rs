//! The tokenizer: it finds the next token of a text from a given offset, passing
//! over white space and comments.
//!
//! A text is a sequence of bytes. Offsets count bytes, and every token carries the
//! span `[start, end)` that it was read from.

use vstd::prelude::*;
use crate::bytes::{
    announced_len, continuation, ident_byte, is_continuation, is_ident_byte, is_space, scalar_len,
    space, NEWLINE, SEMICOLON, SLASH, STAR,
};

verus! {

/// What a token is. Comments are no tokens: the tokenizer passes over them.
#[derive(Clone, Copy, Debug, PartialEq, Eq, Structural)]
pub enum TokenKind {
    /// The keyword that opens a declaration.
    Keyword,
    /// `;`
    Separator,
    /// A run of letters, digits and underscores that is not the keyword.
    Identifier,
    /// Any other single character.
    Other,
}

/// A token with the span of bytes that it covers.
#[derive(Clone, Copy, Debug, PartialEq, Eq, Structural)]
pub struct Token {
    pub kind: TokenKind,
    pub start: usize,
    pub end: usize,
}

/// A block comment that is opened at `start` and never closed.
#[derive(Clone, Copy, Debug, PartialEq, Eq, Structural)]
pub struct MalformedComment {
    pub start: usize,
}

/// A token as specifications see it, with mathematical offsets.
pub struct Lexeme {
    pub kind: TokenKind,
    pub start: int,
    pub end: int,
}

/// What one pull of the tokenizer yields.
pub enum Lexed {
    /// The next token.
    Token(Lexeme),
    /// Nothing but white space and comments is left.
    End,
    /// A block comment opened at this offset is not closed.
    Malformed(int),
}

impl View for Token {
    type V = Lexeme;

    open spec fn view(&self) -> Lexeme {
        Lexeme { kind: self.kind, start: self.start as int, end: self.end as int }
    }
}

/// The outcome of a pull, as `Lexed`.
pub open spec fn lexed(r: Result<Option<Token>, MalformedComment>) -> Lexed {
    match r {
        Ok(Some(t)) => Lexed::Token(t@),
        Ok(None) => Lexed::End,
        Err(e) => Lexed::Malformed(e.start as int),
    }
}

/// The end of the run of identifier bytes that starts at `i`.
pub open spec fn ident_end(text: Seq<u8>, i: int) -> int
    decreases text.len() - i,
{
    if 0 <= i < text.len() && is_ident_byte(text[i]) {
        ident_end(text, i + 1)
    } else {
        i
    }
}

/// The offset of the first newline at or after `i`; `text.len()` if there is none.
pub open spec fn line_end(text: Seq<u8>, i: int) -> int
    decreases text.len() - i,
{
    if 0 <= i < text.len() && text[i] != NEWLINE {
        line_end(text, i + 1)
    } else {
        i
    }
}

/// Whether `*/` stands at `i`.
pub open spec fn closes_at(text: Seq<u8>, i: int) -> bool {
    0 <= i && i + 1 < text.len() && text[i] == STAR && text[i + 1] == SLASH
}

/// The offset of the first `*/` at or after `i`; `text.len()` if there is none.
pub open spec fn block_close(text: Seq<u8>, i: int) -> int
    decreases text.len() - i,
{
    if 0 <= i < text.len() && !closes_at(text, i) {
        block_close(text, i + 1)
    } else {
        i
    }
}

/// The end of the run of continuation bytes that starts at `i`, cut at `limit`.
pub open spec fn continuation_end(text: Seq<u8>, i: int, limit: int) -> int
    decreases limit - i,
{
    if 0 <= i < limit && i < text.len() && is_continuation(text[i]) {
        continuation_end(text, i + 1, limit)
    } else {
        i
    }
}

/// The end of the single character that starts at `pos`: its leading byte and the
/// continuation bytes behind it, as many as the leading byte announces.
pub open spec fn char_end(text: Seq<u8>, pos: int) -> int {
    continuation_end(text, pos + 1, pos + scalar_len(text[pos]))
}

/// Whether a line comment starts at `pos`: `//` stands there.
pub open spec fn starts_line_comment(text: Seq<u8>, pos: int) -> bool {
    &&& 0 <= pos
    &&& pos + 1 < text.len()
    &&& text[pos] == SLASH
    &&& text[pos + 1] == SLASH
}

/// Where the line comment that starts at `pos` ends: behind the next newline, or
/// at the end of the text if no newline follows.
pub open spec fn line_comment_end(text: Seq<u8>, pos: int) -> int {
    let newline = line_end(text, pos + 2);
    if newline < text.len() {
        newline + 1
    } else {
        newline
    }
}

/// Whether `/*` stands at `pos`.
pub open spec fn starts_block_comment(text: Seq<u8>, pos: int) -> bool {
    &&& 0 <= pos
    &&& pos + 1 < text.len()
    &&& text[pos] == SLASH
    &&& text[pos + 1] == STAR
}

/// The token that starts at `pos`, where `pos` holds neither white space nor the
/// start of a comment. A run of identifier bytes is the keyword if it equals
/// `keyword` and an identifier if not; `;` is the separator; anything else is one
/// character of its own.
pub open spec fn token_at(text: Seq<u8>, keyword: Seq<u8>, pos: int) -> Lexeme {
    if is_ident_byte(text[pos]) {
        let end = ident_end(text, pos);
        Lexeme {
            kind: if text.subrange(pos, end) == keyword {
                TokenKind::Keyword
            } else {
                TokenKind::Identifier
            },
            start: pos,
            end,
        }
    } else if text[pos] == SEMICOLON {
        Lexeme { kind: TokenKind::Separator, start: pos, end: pos + 1 }
    } else {
        Lexeme { kind: TokenKind::Other, start: pos, end: char_end(text, pos) }
    }
}

/// What the tokenizer yields when it pulls from offset `pos`.
///
/// White space is passed over. So is a line comment, from `//` up to and including
/// the next newline or, without one, up to the end of the text, and a block
/// comment, from `/*` up to and including the next `*/`; a `/*` with no `*/` behind
/// it is malformed.
pub open spec fn lex(text: Seq<u8>, keyword: Seq<u8>, pos: int) -> Lexed
    decreases text.len() - pos,
{
    if pos < 0 || pos >= text.len() {
        Lexed::End
    } else if is_space(text[pos]) {
        lex(text, keyword, pos + 1)
    } else if starts_line_comment(text, pos) {
        proof {
            lemma_line_end_bounds(text, pos + 2);
        }
        lex(text, keyword, line_comment_end(text, pos))
    } else if starts_block_comment(text, pos) {
        let close = block_close(text, pos + 2);
        if close < text.len() {
            proof {
                lemma_block_close_bounds(text, pos + 2);
            }
            lex(text, keyword, close + 2)
        } else {
            Lexed::Malformed(pos)
        }
    } else {
        Lexed::Token(token_at(text, keyword, pos))
    }
}

/// A run of identifier bytes lies within the text and is not empty.
pub proof fn lemma_ident_end_bounds(text: Seq<u8>, i: int)
    requires
        0 <= i <= text.len(),
    ensures
        i <= ident_end(text, i) <= text.len(),
        i < text.len() && is_ident_byte(text[i]) ==> i < ident_end(text, i),
        forall|j: int| i <= j < ident_end(text, i) ==> is_ident_byte(#[trigger] text[j]),
        ident_end(text, i) < text.len() ==> !is_ident_byte(text[ident_end(text, i)]),
    decreases text.len() - i,
{
    if i < text.len() && is_ident_byte(text[i]) {
        lemma_ident_end_bounds(text, i + 1);
    }
}

/// The first newline at or after `i` has no newline before it.
pub proof fn lemma_line_end_bounds(text: Seq<u8>, i: int)
    requires
        0 <= i <= text.len(),
    ensures
        i <= line_end(text, i) <= text.len(),
        forall|j: int| i <= j < line_end(text, i) ==> #[trigger] text[j] != NEWLINE,
        line_end(text, i) < text.len() ==> text[line_end(text, i)] == NEWLINE,
    decreases text.len() - i,
{
    if i < text.len() && text[i] != NEWLINE {
        lemma_line_end_bounds(text, i + 1);
    }
}

/// The first `*/` at or after `i` has no `*/` before it.
pub proof fn lemma_block_close_bounds(text: Seq<u8>, i: int)
    requires
        0 <= i <= text.len(),
    ensures
        i <= block_close(text, i) <= text.len(),
        forall|j: int| i <= j < block_close(text, i) ==> !closes_at(text, j),
        block_close(text, i) < text.len() ==> closes_at(text, block_close(text, i)),
    decreases text.len() - i,
{
    if i < text.len() && !closes_at(text, i) {
        lemma_block_close_bounds(text, i + 1);
    }
}

/// A run of continuation bytes ends within the text and within its limit.
pub proof fn lemma_continuation_end_bounds(text: Seq<u8>, i: int, limit: int)
    requires
        0 <= i <= text.len(),
        i <= limit,
    ensures
        i <= continuation_end(text, i, limit) <= text.len(),
        continuation_end(text, i, limit) <= limit,
    decreases limit - i,
{
    if i < limit && i < text.len() && is_continuation(text[i]) {
        lemma_continuation_end_bounds(text, i + 1, limit);
    }
}

/// A token that starts within the text is not empty and ends within the text.
pub proof fn lemma_token_at_bounds(text: Seq<u8>, keyword: Seq<u8>, pos: int)
    requires
        0 <= pos < text.len(),
    ensures
        token_at(text, keyword, pos).start == pos,
        pos < token_at(text, keyword, pos).end <= text.len(),
{
    lemma_ident_end_bounds(text, pos);
    lemma_continuation_end_bounds(text, pos + 1, pos + scalar_len(text[pos]));
}

/// Every token that the tokenizer yields lies at or after the offset it pulled
/// from, is not empty and ends within the text.
pub proof fn lemma_lex_bounds(text: Seq<u8>, keyword: Seq<u8>, pos: int)
    requires
        0 <= pos,
    ensures
        match lex(text, keyword, pos) {
            Lexed::Token(t) => pos <= t.start < t.end <= text.len(),
            Lexed::End => true,
            Lexed::Malformed(at) => pos <= at < text.len(),
        },
    decreases text.len() - pos,
{
    if pos >= text.len() {
    } else if is_space(text[pos]) {
        lemma_lex_bounds(text, keyword, pos + 1);
    } else if starts_line_comment(text, pos) {
        lemma_line_end_bounds(text, pos + 2);
        lemma_lex_bounds(text, keyword, line_comment_end(text, pos));
    } else if starts_block_comment(text, pos) {
        lemma_block_close_bounds(text, pos + 2);
        if block_close(text, pos + 2) < text.len() {
            lemma_lex_bounds(text, keyword, block_close(text, pos + 2) + 2);
        }
    } else {
        lemma_token_at_bounds(text, keyword, pos);
    }
}

/// A token that the tokenizer yields is the token that stands at its start, and
/// a pull from its start yields it again: only white space and comments lie
/// between the offset of a pull and the token.
pub proof fn lemma_lex_token(text: Seq<u8>, keyword: Seq<u8>, pos: int)
    requires
        0 <= pos,
    ensures
        lex(text, keyword, pos) matches Lexed::Token(t) ==> {
            &&& pos <= t.start < text.len()
            &&& t == token_at(text, keyword, t.start)
            &&& lex(text, keyword, t.start) == Lexed::Token(t)
        },
    decreases text.len() - pos,
{
    if pos >= text.len() {
    } else if is_space(text[pos]) {
        lemma_lex_token(text, keyword, pos + 1);
    } else if starts_line_comment(text, pos) {
        lemma_line_end_bounds(text, pos + 2);
        lemma_lex_token(text, keyword, line_comment_end(text, pos));
    } else if starts_block_comment(text, pos) {
        lemma_block_close_bounds(text, pos + 2);
        if block_close(text, pos + 2) < text.len() {
            lemma_lex_token(text, keyword, block_close(text, pos + 2) + 2);
        }
    } else {
    }
}

/// Finds the first newline at or after `from`.
pub fn find_newline(text: &[u8], from: usize) -> (r: usize)
    ensures
        r == line_end(text@, from as int),
        from <= text@.len() ==> from <= r <= text@.len(),
{
    let n = text.len();
    let mut i = from;
    while i < n && text[i] != NEWLINE
        invariant
            n == text@.len(),
            from <= i,
            from <= n ==> i <= n,
            line_end(text@, from as int) == line_end(text@, i as int),
        decreases n - i,
    {
        i += 1;
    }
    i
}

/// Passes over the rest of a block comment: `from` is the offset behind its `/*`.
/// Returns the offset behind the first `*/` at or after `from`, or `None` if the
/// comment is never closed.
pub fn multiline_comment_skip(text: &[u8], from: usize) -> (r: Option<usize>)
    ensures
        match r {
            Some(end) => block_close(text@, from as int) < text@.len() && end == block_close(
                text@,
                from as int,
            ) + 2,
            None => block_close(text@, from as int) >= text@.len(),
        },
{
    let n = text.len();
    let mut i = from;
    while i < n
        invariant
            n == text@.len(),
            from <= i,
            block_close(text@, from as int) == block_close(text@, i as int),
        decreases n - i,
    {
        if text[i] == STAR && i + 1 < n && text[i + 1] == SLASH {
            return Some(i + 2);
        }
        i += 1;
    }
    None
}

/// Finds the end of the run of identifier bytes that starts at `from`.
pub fn identifier_end(text: &[u8], from: usize) -> (r: usize)
    ensures
        r == ident_end(text@, from as int),
        from <= text@.len() ==> from <= r <= text@.len(),
{
    let n = text.len();
    let mut i = from;
    while i < n && ident_byte(text[i])
        invariant
            n == text@.len(),
            from <= i,
            from <= n ==> i <= n,
            ident_end(text@, from as int) == ident_end(text@, i as int),
        decreases n - i,
    {
        i += 1;
    }
    i
}

/// Finds the end of the character that starts at `pos`.
fn character_end(text: &[u8], pos: usize) -> (r: usize)
    requires
        pos < text@.len(),
    ensures
        r == char_end(text@, pos as int),
        pos < r <= text@.len(),
{
    let n = text.len();
    let width = announced_len(text[pos]);
    let limit: usize = if width <= n - pos {
        pos + width
    } else {
        n
    };
    let mut i = pos + 1;
    proof {
        lemma_continuation_end_clip(text@, pos as int + 1, pos as int + width as int);
    }
    while i < limit && continuation(text[i])
        invariant
            n == text@.len(),
            pos < i <= limit <= n,
            continuation_end(text@, pos as int + 1, limit as int) == continuation_end(
                text@,
                i as int,
                limit as int,
            ),
        decreases limit - i,
    {
        i += 1;
    }
    i
}

/// A limit beyond the end of the text cuts a run of continuation bytes where the
/// end of the text does.
proof fn lemma_continuation_end_clip(text: Seq<u8>, i: int, limit: int)
    requires
        0 <= i <= text.len(),
        i <= limit,
    ensures
        continuation_end(text, i, limit) == continuation_end(
            text,
            i,
            if limit <= text.len() {
                limit
            } else {
                text.len() as int
            },
        ),
    decreases text.len() - i,
{
    if i < limit && i < text.len() && is_continuation(text[i]) {
        lemma_continuation_end_clip(text, i + 1, limit);
    }
}

/// Tells whether the bytes of `text` in `[start, end)` are exactly `word`.
fn span_equals(text: &[u8], start: usize, end: usize, word: &[u8]) -> (r: bool)
    requires
        start <= end <= text@.len(),
    ensures
        r == (text@.subrange(start as int, end as int) == word@),
{
    if end - start != word.len() {
        return false;
    }
    let mut i: usize = 0;
    while i < word.len()
        invariant
            start <= end <= text@.len(),
            end - start == word@.len(),
            0 <= i <= word@.len(),
            forall|j: int| 0 <= j < i ==> text@[start + j] == word@[j],
        decreases word@.len() - i,
    {
        if text[start + i] != word[i] {
            assert(text@.subrange(start as int, end as int)[i as int] != word@[i as int]);
            return false;
        }
        i += 1;
    }
    assert(text@.subrange(start as int, end as int) =~= word@);
    true
}

/// Reads the token that starts at `pos`, where `pos` holds neither white space nor
/// the start of a comment.
fn read_token(text: &[u8], keyword: &[u8], pos: usize) -> (t: Token)
    requires
        pos < text@.len(),
    ensures
        t@ == token_at(text@, keyword@, pos as int),
        t.start == pos,
        pos < t.end <= text@.len(),
{
    let b = text[pos];
    if ident_byte(b) {
        let end = identifier_end(text, pos);
        proof {
            lemma_ident_end_bounds(text@, pos as int);
        }
        let kind = if span_equals(text, pos, end, keyword) {
            TokenKind::Keyword
        } else {
            TokenKind::Identifier
        };
        Token { kind, start: pos, end }
    } else if b == SEMICOLON {
        Token { kind: TokenKind::Separator, start: pos, end: pos + 1 }
    } else {
        let end = character_end(text, pos);
        Token { kind: TokenKind::Other, start: pos, end }
    }
}

/// Pulls the next token of `text` at or after `pos`.
///
/// Returns `Ok(None)` when only white space and comments are left, and the
/// malformed comment when a `/*` that the tokenizer reaches is never closed.
pub fn next_token(text: &[u8], keyword: &[u8], pos: usize) -> (r: Result<
    Option<Token>,
    MalformedComment,
>)
    ensures
        lexed(r) == lex(text@, keyword@, pos as int),
        r matches Ok(Some(t)) ==> pos <= t.start < t.end <= text@.len(),
{
    let n = text.len();
    let mut i = pos;
    while i < n
        invariant
            n == text@.len(),
            pos <= i,
            lex(text@, keyword@, pos as int) == lex(text@, keyword@, i as int),
        decreases n - i,
    {
        let b = text[i];
        if space(b) {
            i += 1;
        } else if b == SLASH && i + 1 < n && text[i + 1] == SLASH {
            let newline = find_newline(text, i + 2);
            i = if newline < n {
                newline + 1
            } else {
                newline
            };
        } else if b == SLASH && i + 1 < n && text[i + 1] == STAR {
            match multiline_comment_skip(text, i + 2) {
                Some(end) => {
                    proof {
                        lemma_block_close_bounds(text@, i as int + 2);
                    }
                    i = end;
                },
                None => {
                    return Err(MalformedComment { start: i });
                },
            }
        } else {
            return Ok(Some(read_token(text, keyword, i)));
        }
    }
    Ok(None)
}

} // verus!
