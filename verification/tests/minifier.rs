use lira::Lexer;
use lira::ast::Expr;
use lira::lexer::str_litteral::StringPart;
use lira::minifier::{flush_space, minify, needs_space_between};
use lira::parser::string::{ParserStringPart, process_parser_string};
use lira::Token;

#[test]
fn minify_drops_spaces_and_reinserts_terminators() {
    let out = minify(Lexer::new("let x = 1 + 2\n"));
    assert_eq!(out, "let x=1+2;");
}

#[test]
fn minify_keeps_comments_on_their_own_lines() {
    let out = minify(Lexer::new("// note \nlet x = 1;"));
    assert_eq!(out, "// note\nlet x=1;");
    let out2 = minify(Lexer::new("/*  boxed  */ let y = 2"));
    assert_eq!(out2, "/*boxed*/\nlet y=2");
}

#[test]
fn minify_separates_tokens_that_would_merge() {
    let out = minify(Lexer::new("for   item   in   items { }"));
    assert_eq!(out, "for item in items{}");
}

#[test]
fn minify_terminator_only_after_an_expression_ender() {
    // after `{` a line break carries no statement, so no terminator appears
    let out = minify(Lexer::new("fn f() {\n  return 1\n}\n"));
    assert_eq!(out, "fn f(){return 1;};");
}

#[test]
fn flush_space_respects_soft_endings() {
    let mut s = String::from("a");
    flush_space(&mut s, true);
    assert_eq!(s, "a ");
    flush_space(&mut s, true);
    assert_eq!(s, "a ");
    let mut t = String::from("(");
    flush_space(&mut t, true);
    assert_eq!(t, "(");
    let mut u = String::from("b");
    flush_space(&mut u, false);
    assert_eq!(u, "b");
}

#[test]
fn needs_space_between_keyword_and_ident() {
    assert!(needs_space_between(
        &Some(Token::Let),
        &Token::Ident("x".into())
    ));
    assert!(needs_space_between(
        &Some(Token::Ident("a".into())),
        &Token::Ident("b".into())
    ));
    assert!(!needs_space_between(&Some(Token::Plus), &Token::Int(1)));
    assert!(!needs_space_between(&None, &Token::Ident("x".into())));
}

#[test]
fn parser_string_merges_adjacent_text() {
    let parts = vec![
        StringPart::Text("a".into()),
        StringPart::EscapeChar('\n'),
        StringPart::Unicode('\u{1F600}'),
        StringPart::Expression(vec![(0, Token::Ident("x".into()), 1)]),
        StringPart::Text("b".into()),
    ];
    let exprs = vec![Expr::Ident("x".into())];
    let merged = process_parser_string(parts, exprs);
    assert_eq!(merged.len(), 3);
    assert!(matches!(&merged[0], ParserStringPart::Text(t) if t == "a\n\u{1F600}"));
    assert!(matches!(&merged[1], ParserStringPart::Expression(Expr::Ident(n)) if n == "x"));
    assert!(matches!(&merged[2], ParserStringPart::Text(t) if t == "b"));
}

#[test]
fn parser_string_with_only_expressions() {
    let parts = vec![StringPart::Expression(vec![(
        0,
        Token::Ident("x".into()),
        1,
    )])];
    let exprs = vec![Expr::Literal(lira::ast::Literal::Int(7))];
    let merged = process_parser_string(parts, exprs);
    assert_eq!(merged.len(), 1);
    assert!(matches!(
        &merged[0],
        ParserStringPart::Expression(Expr::Literal(lira::ast::Literal::Int(7)))
    ));
}
