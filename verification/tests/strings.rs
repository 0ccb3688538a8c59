use lira::lexer::str_litteral::{StringPart, process_string_literal};
use lira::{Lexer, LexingError, Token};

fn lex_all(input: &str) -> Result<Vec<(usize, Token, usize)>, LexingError> {
    let mut lexer = Lexer::new(input);
    let mut out = Vec::new();
    while let Some(result) = lexer.next() {
        out.push(result?);
    }
    Ok(out)
}

#[test]
fn every_escape_decodes_in_place() {
    let table = [
        ('n', '\n'),
        ('r', '\r'),
        ('t', '\t'),
        ('\\', '\\'),
        ('0', '\0'),
        ('"', '"'),
        ('\'', '\''),
        ('#', '#'),
    ];
    for (written, decoded) in table {
        let input = format!("ab\\{written}cd");
        let parts = process_string_literal(&input).unwrap();
        assert_eq!(
            parts,
            vec![
                StringPart::Text("ab".into()),
                StringPart::EscapeChar(decoded),
                StringPart::Text("cd".into()),
            ],
            "escape \\{written}"
        );
    }
}

#[test]
fn interpolation_relexes_like_direct_lexing() {
    let parts = process_string_literal("hi #{x + 1}").unwrap();
    let direct = lex_all("x + 1").unwrap();
    assert_eq!(
        parts,
        vec![
            StringPart::Text("hi ".into()),
            StringPart::Expression(direct),
        ]
    );
}

#[test]
fn unbalanced_interpolation_is_rejected_whole() {
    // an extra opening brace: the braces never rebalance
    let r = process_string_literal("a#{ {x }");
    assert_eq!(
        r,
        Err(LexingError::UnterminatedString(
            "Unterminated expression in string interpolation".into()
        ))
    );
    // no closing brace at all
    let r2 = process_string_literal("a#{x");
    assert_eq!(
        r2,
        Err(LexingError::UnterminatedString(
            "Unterminated expression in string interpolation".into()
        ))
    );
}

#[test]
fn escape_and_unicode_failures_are_typed() {
    assert_eq!(
        process_string_literal("a\\qb"),
        Err(LexingError::UnterminatedString(
            "Unknown escape sequence: \\q".into()
        ))
    );
    assert_eq!(
        process_string_literal("a\\"),
        Err(LexingError::UnterminatedString(
            "String terminated with escape character".into()
        ))
    );
    assert_eq!(
        process_string_literal("\\u{}"),
        Err(LexingError::UnterminatedString(
            "Unicode escape must have 1-6 hex digits".into()
        ))
    );
    assert_eq!(
        process_string_literal("\\u{1234567}"),
        Err(LexingError::UnterminatedString(
            "Unicode escape must have 1-6 hex digits".into()
        ))
    );
    assert_eq!(
        process_string_literal("\\u{D800}"),
        Err(LexingError::UnterminatedString(
            "Invalid Unicode code point".into()
        ))
    );
    assert_eq!(
        process_string_literal("\\u{xy}"),
        Err(LexingError::UnterminatedString(
            "Invalid character in Unicode escape: x".into()
        ))
    );
    assert_eq!(
        process_string_literal("\\u1234"),
        Err(LexingError::UnterminatedString(
            "Invalid start of Unicode escape sequence: 1".into()
        ))
    );
    assert_eq!(
        process_string_literal("\\u{12"),
        Err(LexingError::UnterminatedString(
            "Incomplete Unicode escape sequence".into()
        ))
    );
}

#[test]
fn bad_escape_fails_only_that_string_token() {
    let mut lexer = Lexer::new("\"\\q\" let");
    assert_eq!(
        lexer.next(),
        Some(Err(LexingError::UnterminatedString(
            "Unknown escape sequence: \\q".into()
        )))
    );
    assert_eq!(lexer.next(), Some(Ok((5, Token::Let, 8))));
}

#[test]
fn hash_without_brace_is_plain_text() {
    let parts = process_string_literal("a#b").unwrap();
    assert_eq!(parts, vec![StringPart::Text("a#b".into())]);
}
