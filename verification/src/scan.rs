//! Finding declarations: the keyword, an identifier and the separator, as three
//! tokens in a row.

use vstd::prelude::*;
use crate::bytes::{is_ident_byte, SEMICOLON};
use crate::lexer::{
    ident_end, lemma_ident_end_bounds, lemma_lex_bounds, lemma_lex_token, lex, next_token, Lexed,
    MalformedComment, TokenKind,
};

verus! {

/// The spans of a declaration within its text.
#[derive(Clone, Copy, Debug, PartialEq, Eq, Structural)]
pub struct Declaration {
    /// Where the keyword starts.
    pub start: usize,
    /// Where the declared name starts.
    pub name_start: usize,
    /// Where the declared name ends.
    pub name_end: usize,
    /// Where the separator ends.
    pub end: usize,
}

/// A declaration as specifications see it, with mathematical offsets.
pub struct DeclSpan {
    pub start: int,
    pub name_start: int,
    pub name_end: int,
    pub end: int,
}

/// What a search for the next declaration finds.
pub enum Scan {
    /// The first declaration.
    Found(DeclSpan),
    /// The text ends before any declaration.
    Exhausted,
    /// A block comment opened at this offset is not closed.
    Malformed(int),
}

impl View for Declaration {
    type V = DeclSpan;

    open spec fn view(&self) -> DeclSpan {
        DeclSpan {
            start: self.start as int,
            name_start: self.name_start as int,
            name_end: self.name_end as int,
            end: self.end as int,
        }
    }
}

/// The outcome of a search, as `Scan`.
pub open spec fn scanned(r: Result<Option<Declaration>, MalformedComment>) -> Scan {
    match r {
        Ok(Some(d)) => Scan::Found(d@),
        Ok(None) => Scan::Exhausted,
        Err(e) => Scan::Malformed(e.start as int),
    }
}

/// The declaration that starts with the token that is pulled from `pos`, if that
/// token is the keyword, the next an identifier and the one after it the separator.
pub open spec fn declaration_from(text: Seq<u8>, keyword: Seq<u8>, pos: int) -> Option<DeclSpan> {
    match lex(text, keyword, pos) {
        Lexed::Token(first) => match lex(text, keyword, first.end) {
            Lexed::Token(second) => match lex(text, keyword, second.end) {
                Lexed::Token(third) => {
                    if first.kind == TokenKind::Keyword && second.kind == TokenKind::Identifier
                        && third.kind == TokenKind::Separator {
                        Some(
                            DeclSpan {
                                start: first.start,
                                name_start: second.start,
                                name_end: second.end,
                                end: third.end,
                            },
                        )
                    } else {
                        None
                    }
                },
                _ => None,
            },
            _ => None,
        },
        _ => None,
    }
}

/// Whether a declaration starts with the token that is pulled from `pos`.
pub open spec fn declaration_at(text: Seq<u8>, keyword: Seq<u8>, pos: int) -> bool {
    declaration_from(text, keyword, pos) is Some
}

/// Whether `d` has the shape of a declaration in `text`: the keyword as a whole
/// run of identifier bytes at its start, a run of identifier bytes as its name,
/// and the separator as its last byte.
pub open spec fn has_shape(text: Seq<u8>, keyword: Seq<u8>, d: DeclSpan) -> bool {
    &&& 0 <= d.start < d.name_start < d.name_end < d.end <= text.len()
    &&& is_ident_byte(text[d.start])
    &&& ident_end(text, d.start) <= d.name_start
    &&& text.subrange(d.start, ident_end(text, d.start)) == keyword
    &&& is_ident_byte(text[d.name_start])
    &&& d.name_end == ident_end(text, d.name_start)
    &&& text[d.end - 1] == SEMICOLON
}

/// The first declaration that a search from `pos` finds.
///
/// The search pulls tokens until one is the keyword. If the token behind the
/// keyword is no identifier, or the token behind that identifier is not the
/// separator, the keyword opens no declaration; the search has consumed the token
/// that told it so and goes on behind it.
pub open spec fn scan(text: Seq<u8>, keyword: Seq<u8>, pos: int) -> Scan
    decreases text.len() - pos,
{
    match lex(text, keyword, pos) {
        Lexed::End => Scan::Exhausted,
        Lexed::Malformed(at) => Scan::Malformed(at),
        Lexed::Token(first) => {
            proof {
                if 0 <= pos {
                    lemma_lex_bounds(text, keyword, pos);
                    lemma_lex_bounds(text, keyword, first.end);
                    if let Lexed::Token(second) = lex(text, keyword, first.end) {
                        lemma_lex_bounds(text, keyword, second.end);
                    }
                }
            }
            if first.kind != TokenKind::Keyword {
                scan(text, keyword, first.end)
            } else {
                match lex(text, keyword, first.end) {
                    Lexed::End => Scan::Exhausted,
                    Lexed::Malformed(at) => Scan::Malformed(at),
                    Lexed::Token(second) => {
                        if second.kind != TokenKind::Identifier {
                            scan(text, keyword, second.end)
                        } else {
                            match lex(text, keyword, second.end) {
                                Lexed::End => Scan::Exhausted,
                                Lexed::Malformed(at) => Scan::Malformed(at),
                                Lexed::Token(third) => {
                                    if third.kind != TokenKind::Separator {
                                        scan(text, keyword, third.end)
                                    } else {
                                        Scan::Found(
                                            DeclSpan {
                                                start: first.start,
                                                name_start: second.start,
                                                name_end: second.end,
                                                end: third.end,
                                            },
                                        )
                                    }
                                },
                            }
                        }
                    },
                }
            }
        },
    }
}

/// A declaration that a search finds lies at or after the offset the search began
/// at, in the order keyword, name, separator, and within the text.
pub proof fn lemma_scan_bounds(text: Seq<u8>, keyword: Seq<u8>, pos: int)
    requires
        0 <= pos,
    ensures
        match scan(text, keyword, pos) {
            Scan::Found(d) => pos <= d.start < d.name_start < d.name_end < d.end <= text.len(),
            Scan::Exhausted => true,
            Scan::Malformed(at) => pos <= at < text.len(),
        },
    decreases text.len() - pos,
{
    lemma_lex_bounds(text, keyword, pos);
    if let Lexed::Token(first) = lex(text, keyword, pos) {
        lemma_lex_bounds(text, keyword, first.end);
        if first.kind != TokenKind::Keyword {
            lemma_scan_bounds(text, keyword, first.end);
        } else if let Lexed::Token(second) = lex(text, keyword, first.end) {
            lemma_lex_bounds(text, keyword, second.end);
            if second.kind != TokenKind::Identifier {
                lemma_scan_bounds(text, keyword, second.end);
            } else if let Lexed::Token(third) = lex(text, keyword, second.end) {
                if third.kind != TokenKind::Separator {
                    lemma_scan_bounds(text, keyword, third.end);
                }
            }
        }
    }
}

/// What a search finds is a declaration: the three tokens stand in a row from the
/// offset where the found declaration starts, and it has the shape of one.
pub proof fn lemma_found_is_declaration(text: Seq<u8>, keyword: Seq<u8>, from: int)
    requires
        0 <= from,
    ensures
        scan(text, keyword, from) matches Scan::Found(d) ==> {
            &&& from <= d.start
            &&& declaration_from(text, keyword, d.start) == Some(d)
            &&& has_shape(text, keyword, d)
        },
    decreases text.len() - from,
{
    lemma_lex_bounds(text, keyword, from);
    lemma_lex_token(text, keyword, from);
    if let Lexed::Token(first) = lex(text, keyword, from) {
        lemma_lex_bounds(text, keyword, first.end);
        lemma_lex_token(text, keyword, first.end);
        if first.kind != TokenKind::Keyword {
            lemma_found_is_declaration(text, keyword, first.end);
        } else if let Lexed::Token(second) = lex(text, keyword, first.end) {
            lemma_lex_bounds(text, keyword, second.end);
            lemma_lex_token(text, keyword, second.end);
            if second.kind != TokenKind::Identifier {
                lemma_found_is_declaration(text, keyword, second.end);
            } else if let Lexed::Token(third) = lex(text, keyword, second.end) {
                if third.kind != TokenKind::Separator {
                    lemma_found_is_declaration(text, keyword, third.end);
                } else {
                    lemma_ident_end_bounds(text, first.start);
                    lemma_ident_end_bounds(text, second.start);
                }
            }
        }
    }
}

/// Searches `text` from `from` for the next declaration.
///
/// Returns `Ok(None)` when the text ends before one is found, and the malformed
/// comment when the search reaches a block comment that is never closed.
pub fn next_declaration(text: &[u8], keyword: &[u8], from: usize) -> (r: Result<
    Option<Declaration>,
    MalformedComment,
>)
    ensures
        scanned(r) == scan(text@, keyword@, from as int),
        r matches Ok(Some(d)) ==> from <= d.start < d.name_start < d.name_end < d.end
            <= text@.len(),
{
    let mut pos = from;
    loop
        invariant
            from <= pos,
            scan(text@, keyword@, from as int) == scan(text@, keyword@, pos as int),
        decreases text@.len() - pos,
    {
        let first = match next_token(text, keyword, pos) {
            Ok(Some(t)) => t,
            Ok(None) => {
                return Ok(None);
            },
            Err(e) => {
                return Err(e);
            },
        };
        if first.kind != TokenKind::Keyword {
            pos = first.end;
            continue ;
        }
        let second = match next_token(text, keyword, first.end) {
            Ok(Some(t)) => t,
            Ok(None) => {
                return Ok(None);
            },
            Err(e) => {
                return Err(e);
            },
        };
        if second.kind != TokenKind::Identifier {
            pos = second.end;
            continue ;
        }
        let third = match next_token(text, keyword, second.end) {
            Ok(Some(t)) => t,
            Ok(None) => {
                return Ok(None);
            },
            Err(e) => {
                return Err(e);
            },
        };
        if third.kind != TokenKind::Separator {
            pos = third.end;
            continue ;
        }
        return Ok(
            Some(
                Declaration {
                    start: first.start,
                    name_start: second.start,
                    name_end: second.end,
                    end: third.end,
                },
            ),
        );
    }
}

} // verus!
