use flattener::lexer::MalformedComment;
use flattener::scan::{next_declaration, Declaration};

fn found(
    start: usize,
    name_start: usize,
    name_end: usize,
    end: usize,
) -> Result<Option<Declaration>, MalformedComment> {
    Ok(Some(Declaration { start, name_start, name_end, end }))
}

#[test]
fn a_declaration_is_keyword_name_separator() {
    assert_eq!(next_declaration(b"mod foo;", b"mod", 0), found(0, 4, 7, 8));
    assert_eq!(next_declaration(b"unit foo;\nrest", b"unit", 0), found(0, 5, 8, 9));
    assert_eq!(next_declaration(b"a b mod foo ; c", b"mod", 0), found(4, 8, 11, 13));
    assert_eq!(next_declaration(b"mod\n\tfoo\n;", b"mod", 0), found(0, 5, 8, 10));
    assert_eq!(next_declaration(b"pub mod foo;", b"mod", 0), found(4, 8, 11, 12));
    assert_eq!(next_declaration(b"mod 123;", b"mod", 0), found(0, 4, 7, 8));
}

#[test]
fn comments_may_stand_within_a_declaration() {
    assert_eq!(next_declaration(b"mod /* a */ foo // b\n;", b"mod", 0), found(0, 12, 15, 22));
}

#[test]
fn the_search_starts_where_it_is_told() {
    let text = b"mod a; mod b;";
    assert_eq!(next_declaration(text, b"mod", 0), found(0, 4, 5, 6));
    assert_eq!(next_declaration(text, b"mod", 6), found(7, 11, 12, 13));
    assert_eq!(next_declaration(text, b"mod", 1), found(7, 11, 12, 13));
    assert_eq!(next_declaration(text, b"mod", 13), Ok(None));
    assert_eq!(next_declaration(text, b"mod", 99), Ok(None));
}

#[test]
fn a_keyword_without_a_name_opens_nothing() {
    assert_eq!(next_declaration(b"unit = 5;", b"unit", 0), Ok(None));
    assert_eq!(next_declaration(b"mod = 5;", b"mod", 0), Ok(None));
    assert_eq!(next_declaration(b"mod;", b"mod", 0), Ok(None));
    assert_eq!(next_declaration(b"mod", b"mod", 0), Ok(None));
    assert_eq!(next_declaration(b"mod ", b"mod", 0), Ok(None));
}

#[test]
fn a_name_without_a_separator_opens_nothing() {
    assert_eq!(next_declaration(b"unit foo + 1;", b"unit", 0), Ok(None));
    assert_eq!(next_declaration(b"mod foo + 1;", b"mod", 0), Ok(None));
    assert_eq!(next_declaration(b"mod foo { }", b"mod", 0), Ok(None));
    assert_eq!(next_declaration(b"mod foo bar;", b"mod", 0), Ok(None));
    assert_eq!(next_declaration(b"mod foo", b"mod", 0), Ok(None));
}

#[test]
fn the_token_that_rules_a_declaration_out_is_consumed() {
    // The second keyword is the token that tells that the first opens nothing.
    assert_eq!(next_declaration(b"mod mod foo;", b"mod", 0), Ok(None));
    assert_eq!(next_declaration(b"mod foo mod bar;", b"mod", 0), Ok(None));
    // Behind the consumed token the search goes on.
    assert_eq!(next_declaration(b"mod = mod foo;", b"mod", 0), found(6, 10, 13, 14));
    assert_eq!(next_declaration(b"mod foo + mod bar;", b"mod", 0), found(10, 14, 17, 18));
}

#[test]
fn declarations_in_comments_are_not_found() {
    assert_eq!(next_declaration(b"// mod foo;\n", b"mod", 0), Ok(None));
    assert_eq!(next_declaration(b"/* mod foo; */", b"mod", 0), Ok(None));
    assert_eq!(next_declaration(b"// mod a;\nmod b;", b"mod", 0), found(10, 14, 15, 16));
    assert_eq!(next_declaration(b"/* mod a; */mod b;", b"mod", 0), found(12, 16, 17, 18));
}

#[test]
fn a_line_comment_at_the_end_of_the_text_is_not_searched() {
    assert_eq!(next_declaration(b"// mod foo;", b"mod", 0), Ok(None));
    assert_eq!(next_declaration(b"// unit foo;", b"unit", 0), Ok(None));
    assert_eq!(next_declaration(b"mod a; // mod b;", b"mod", 6), Ok(None));
    assert_eq!(next_declaration(b"mod // x", b"mod", 0), Ok(None));
}

#[test]
fn an_unclosed_comment_ends_the_search() {
    assert_eq!(next_declaration(b"/* never closed", b"mod", 0), Err(MalformedComment { start: 0 }));
    assert_eq!(next_declaration(b"a /* mod foo;", b"mod", 0), Err(MalformedComment { start: 2 }));
    assert_eq!(next_declaration(b"mod /* foo;", b"mod", 0), Err(MalformedComment { start: 4 }));
    assert_eq!(next_declaration(b"mod foo /* ;", b"mod", 0), Err(MalformedComment { start: 8 }));
    // A declaration before the comment is found first.
    assert_eq!(next_declaration(b"mod foo; /* open", b"mod", 0), found(0, 4, 7, 8));
    assert_eq!(next_declaration(b"mod foo; /* open", b"mod", 8), Err(MalformedComment { start: 9 }));
}

#[test]
fn text_in_a_string_literal_is_searched_like_any_other() {
    assert_eq!(next_declaration(b"let s = \"mod foo;\";", b"mod", 0), found(9, 13, 16, 17));
}
