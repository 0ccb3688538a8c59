//! The token model: every lexical category the scanner can produce, and the
//! typed errors it reports.
//!
//! A token is always paired with a span, the pair of character offsets into
//! the source text where its lexeme starts and one past where it ends.

use vstd::prelude::*;

use crate::lexer::str_litteral::{StringPart, StringPartView, parts_views};

verus! {

/// A typed scanning failure. Each carries the offending lexeme, or, for a
/// string literal, the reason the literal's content was rejected.
#[derive(Default, Debug, Clone, PartialEq)]
pub enum LexingError {
    InvalidInteger(String),
    InvalidFloat(String),
    InvalidBinary(String),
    InvalidOctal(String),
    InvalidHex(String),
    #[default]
    InvalidToken,
    UnterminatedString(String),
}

/// The mathematical model of a `LexingError`.
pub enum LexingErrorView {
    InvalidInteger(Seq<char>),
    InvalidFloat(Seq<char>),
    InvalidBinary(Seq<char>),
    InvalidOctal(Seq<char>),
    InvalidHex(Seq<char>),
    InvalidToken,
    UnterminatedString(Seq<char>),
}

/// Model of a `LexingError`.
pub open spec fn err_view(e: LexingError) -> LexingErrorView {
    match e {
        LexingError::InvalidInteger(s) => LexingErrorView::InvalidInteger(s@),
        LexingError::InvalidFloat(s) => LexingErrorView::InvalidFloat(s@),
        LexingError::InvalidBinary(s) => LexingErrorView::InvalidBinary(s@),
        LexingError::InvalidOctal(s) => LexingErrorView::InvalidOctal(s@),
        LexingError::InvalidHex(s) => LexingErrorView::InvalidHex(s@),
        LexingError::InvalidToken => LexingErrorView::InvalidToken,
        LexingError::UnterminatedString(s) => LexingErrorView::UnterminatedString(s@),
    }
}

/// One lexical unit of the language.
///
/// Literal kinds carry their decoded payload; a float literal carries its
/// lexeme verbatim, since the core never computes with its numeric value.
/// Comments carry their text, which the minifier re-emits verbatim.
#[derive(Debug)]
pub enum Token {
    // Keywords
    Fn,
    Let,
    Struct,
    If,
    Elsif,
    Else,
    Spawn,
    Shared,
    With,
    Atomic,
    Match,
    Lazy,
    Mut,
    Inf,
    For,
    In,
    While,
    Break,
    True,
    False,
    Use,
    Async,
    Await,
    Enum,
    TypeAlias,
    As,
    // Identifiers
    Ident(String),
    // Literals
    Int(i32),
    Float(String),
    Binary(i32),
    Octal(i32),
    Hex(i32),
    String(Vec<StringPart>),
    // Symbols and punctuation
    Colon,
    Arrow,
    LParen,
    RParen,
    LBracket,
    RBracket,
    LBrace,
    RBrace,
    Comma,
    Dot,
    Range,
    Wildcard,
    // Assignment operators
    Equals,
    PlusEquals,
    MinusEquals,
    StarEquals,
    SlashEquals,
    PercentEquals,
    AndEquals,
    OrEquals,
    XorEquals,
    ShlEquals,
    ShrEquals,
    // Arithmetic operators
    Plus,
    Minus,
    Star,
    Slash,
    Percent,
    // Logical operators
    And,
    Or,
    Not,
    // Comparison operators
    EqualsEquals,
    NotEquals,
    Less,
    LessEquals,
    Greater,
    GreaterEquals,
    // Bitwise operators
    BitAnd,
    BitOr,
    BitXor,
    BitNot,
    Shl,
    Shr,
    // Pipe operator
    Pipe,
    // `return` and `:>` both signal a return; `=>` introduces a match arm
    Return,
    MatchReturn,
    // Comments and layout
    LineComment(String),
    BlockComment(String),
    DocComment(String),
    Whitespace,
    LineEnd,
}

/// The mathematical model of a `Token`.
pub enum TokenView {
    Fn,
    Let,
    Struct,
    If,
    Elsif,
    Else,
    Spawn,
    Shared,
    With,
    Atomic,
    Match,
    Lazy,
    Mut,
    Inf,
    For,
    In,
    While,
    Break,
    True,
    False,
    Use,
    Async,
    Await,
    Enum,
    TypeAlias,
    As,
    Ident(Seq<char>),
    Int(int),
    Float(Seq<char>),
    Binary(int),
    Octal(int),
    Hex(int),
    String(Seq<StringPartView>),
    Colon,
    Arrow,
    LParen,
    RParen,
    LBracket,
    RBracket,
    LBrace,
    RBrace,
    Comma,
    Dot,
    Range,
    Wildcard,
    Equals,
    PlusEquals,
    MinusEquals,
    StarEquals,
    SlashEquals,
    PercentEquals,
    AndEquals,
    OrEquals,
    XorEquals,
    ShlEquals,
    ShrEquals,
    Plus,
    Minus,
    Star,
    Slash,
    Percent,
    And,
    Or,
    Not,
    EqualsEquals,
    NotEquals,
    Less,
    LessEquals,
    Greater,
    GreaterEquals,
    BitAnd,
    BitOr,
    BitXor,
    BitNot,
    Shl,
    Shr,
    Pipe,
    Return,
    MatchReturn,
    LineComment(Seq<char>),
    BlockComment(Seq<char>),
    DocComment(Seq<char>),
    Whitespace,
    LineEnd,
}

/// Model of a `Token`.
pub open spec fn token_view(t: Token) -> TokenView
    decreases t,
{
    match t {
        Token::Fn => TokenView::Fn,
        Token::Let => TokenView::Let,
        Token::Struct => TokenView::Struct,
        Token::If => TokenView::If,
        Token::Elsif => TokenView::Elsif,
        Token::Else => TokenView::Else,
        Token::Spawn => TokenView::Spawn,
        Token::Shared => TokenView::Shared,
        Token::With => TokenView::With,
        Token::Atomic => TokenView::Atomic,
        Token::Match => TokenView::Match,
        Token::Lazy => TokenView::Lazy,
        Token::Mut => TokenView::Mut,
        Token::Inf => TokenView::Inf,
        Token::For => TokenView::For,
        Token::In => TokenView::In,
        Token::While => TokenView::While,
        Token::Break => TokenView::Break,
        Token::True => TokenView::True,
        Token::False => TokenView::False,
        Token::Use => TokenView::Use,
        Token::Async => TokenView::Async,
        Token::Await => TokenView::Await,
        Token::Enum => TokenView::Enum,
        Token::TypeAlias => TokenView::TypeAlias,
        Token::As => TokenView::As,
        Token::Ident(s) => TokenView::Ident(s@),
        Token::Int(i) => TokenView::Int(i as int),
        Token::Float(s) => TokenView::Float(s@),
        Token::Binary(i) => TokenView::Binary(i as int),
        Token::Octal(i) => TokenView::Octal(i as int),
        Token::Hex(i) => TokenView::Hex(i as int),
        Token::String(parts) => TokenView::String(parts_views(parts@)),
        Token::Colon => TokenView::Colon,
        Token::Arrow => TokenView::Arrow,
        Token::LParen => TokenView::LParen,
        Token::RParen => TokenView::RParen,
        Token::LBracket => TokenView::LBracket,
        Token::RBracket => TokenView::RBracket,
        Token::LBrace => TokenView::LBrace,
        Token::RBrace => TokenView::RBrace,
        Token::Comma => TokenView::Comma,
        Token::Dot => TokenView::Dot,
        Token::Range => TokenView::Range,
        Token::Wildcard => TokenView::Wildcard,
        Token::Equals => TokenView::Equals,
        Token::PlusEquals => TokenView::PlusEquals,
        Token::MinusEquals => TokenView::MinusEquals,
        Token::StarEquals => TokenView::StarEquals,
        Token::SlashEquals => TokenView::SlashEquals,
        Token::PercentEquals => TokenView::PercentEquals,
        Token::AndEquals => TokenView::AndEquals,
        Token::OrEquals => TokenView::OrEquals,
        Token::XorEquals => TokenView::XorEquals,
        Token::ShlEquals => TokenView::ShlEquals,
        Token::ShrEquals => TokenView::ShrEquals,
        Token::Plus => TokenView::Plus,
        Token::Minus => TokenView::Minus,
        Token::Star => TokenView::Star,
        Token::Slash => TokenView::Slash,
        Token::Percent => TokenView::Percent,
        Token::And => TokenView::And,
        Token::Or => TokenView::Or,
        Token::Not => TokenView::Not,
        Token::EqualsEquals => TokenView::EqualsEquals,
        Token::NotEquals => TokenView::NotEquals,
        Token::Less => TokenView::Less,
        Token::LessEquals => TokenView::LessEquals,
        Token::Greater => TokenView::Greater,
        Token::GreaterEquals => TokenView::GreaterEquals,
        Token::BitAnd => TokenView::BitAnd,
        Token::BitOr => TokenView::BitOr,
        Token::BitXor => TokenView::BitXor,
        Token::BitNot => TokenView::BitNot,
        Token::Shl => TokenView::Shl,
        Token::Shr => TokenView::Shr,
        Token::Pipe => TokenView::Pipe,
        Token::Return => TokenView::Return,
        Token::MatchReturn => TokenView::MatchReturn,
        Token::LineComment(s) => TokenView::LineComment(s@),
        Token::BlockComment(s) => TokenView::BlockComment(s@),
        Token::DocComment(s) => TokenView::DocComment(s@),
        Token::Whitespace => TokenView::Whitespace,
        Token::LineEnd => TokenView::LineEnd,
    }
}

/// Relies on String::push: appends exactly one character.
#[verifier::external_body]
pub(crate) fn push_char(s: &mut String, c: char)
    ensures
        final(s)@ == old(s)@ + seq![c],
{
    s.push(c)
}

/// Model of one scanning result: a token or a typed error.
pub open spec fn res_view(r: Result<Token, LexingError>) -> Result<TokenView, LexingErrorView> {
    match r {
        Ok(t) => Ok(token_view(t)),
        Err(e) => Err(err_view(e)),
    }
}

impl PartialEq for Token {
    /// Two tokens are equal exactly when their models are.
    fn eq(&self, other: &Self) -> (r: bool)
        decreases self,
    {
        match (self, other) {
            (Token::Fn, Token::Fn) => true,
            (Token::Let, Token::Let) => true,
            (Token::Struct, Token::Struct) => true,
            (Token::If, Token::If) => true,
            (Token::Elsif, Token::Elsif) => true,
            (Token::Else, Token::Else) => true,
            (Token::Spawn, Token::Spawn) => true,
            (Token::Shared, Token::Shared) => true,
            (Token::With, Token::With) => true,
            (Token::Atomic, Token::Atomic) => true,
            (Token::Match, Token::Match) => true,
            (Token::Lazy, Token::Lazy) => true,
            (Token::Mut, Token::Mut) => true,
            (Token::Inf, Token::Inf) => true,
            (Token::For, Token::For) => true,
            (Token::In, Token::In) => true,
            (Token::While, Token::While) => true,
            (Token::Break, Token::Break) => true,
            (Token::True, Token::True) => true,
            (Token::False, Token::False) => true,
            (Token::Use, Token::Use) => true,
            (Token::Async, Token::Async) => true,
            (Token::Await, Token::Await) => true,
            (Token::Enum, Token::Enum) => true,
            (Token::TypeAlias, Token::TypeAlias) => true,
            (Token::As, Token::As) => true,
            (Token::Ident(a), Token::Ident(b)) => *a == *b,
            (Token::Int(a), Token::Int(b)) => *a == *b,
            (Token::Float(a), Token::Float(b)) => *a == *b,
            (Token::Binary(a), Token::Binary(b)) => *a == *b,
            (Token::Octal(a), Token::Octal(b)) => *a == *b,
            (Token::Hex(a), Token::Hex(b)) => *a == *b,
            (Token::String(p), Token::String(q)) => crate::lexer::str_litteral::parts_eq(p, q),
            (Token::Colon, Token::Colon) => true,
            (Token::Arrow, Token::Arrow) => true,
            (Token::LParen, Token::LParen) => true,
            (Token::RParen, Token::RParen) => true,
            (Token::LBracket, Token::LBracket) => true,
            (Token::RBracket, Token::RBracket) => true,
            (Token::LBrace, Token::LBrace) => true,
            (Token::RBrace, Token::RBrace) => true,
            (Token::Comma, Token::Comma) => true,
            (Token::Dot, Token::Dot) => true,
            (Token::Range, Token::Range) => true,
            (Token::Wildcard, Token::Wildcard) => true,
            (Token::Equals, Token::Equals) => true,
            (Token::PlusEquals, Token::PlusEquals) => true,
            (Token::MinusEquals, Token::MinusEquals) => true,
            (Token::StarEquals, Token::StarEquals) => true,
            (Token::SlashEquals, Token::SlashEquals) => true,
            (Token::PercentEquals, Token::PercentEquals) => true,
            (Token::AndEquals, Token::AndEquals) => true,
            (Token::OrEquals, Token::OrEquals) => true,
            (Token::XorEquals, Token::XorEquals) => true,
            (Token::ShlEquals, Token::ShlEquals) => true,
            (Token::ShrEquals, Token::ShrEquals) => true,
            (Token::Plus, Token::Plus) => true,
            (Token::Minus, Token::Minus) => true,
            (Token::Star, Token::Star) => true,
            (Token::Slash, Token::Slash) => true,
            (Token::Percent, Token::Percent) => true,
            (Token::And, Token::And) => true,
            (Token::Or, Token::Or) => true,
            (Token::Not, Token::Not) => true,
            (Token::EqualsEquals, Token::EqualsEquals) => true,
            (Token::NotEquals, Token::NotEquals) => true,
            (Token::Less, Token::Less) => true,
            (Token::LessEquals, Token::LessEquals) => true,
            (Token::Greater, Token::Greater) => true,
            (Token::GreaterEquals, Token::GreaterEquals) => true,
            (Token::BitAnd, Token::BitAnd) => true,
            (Token::BitOr, Token::BitOr) => true,
            (Token::BitXor, Token::BitXor) => true,
            (Token::BitNot, Token::BitNot) => true,
            (Token::Shl, Token::Shl) => true,
            (Token::Shr, Token::Shr) => true,
            (Token::Pipe, Token::Pipe) => true,
            (Token::Return, Token::Return) => true,
            (Token::MatchReturn, Token::MatchReturn) => true,
            (Token::LineComment(a), Token::LineComment(b)) => *a == *b,
            (Token::BlockComment(a), Token::BlockComment(b)) => *a == *b,
            (Token::DocComment(a), Token::DocComment(b)) => *a == *b,
            (Token::Whitespace, Token::Whitespace) => true,
            (Token::LineEnd, Token::LineEnd) => true,
            _ => false,
        }
    }
}

impl vstd::std_specs::cmp::PartialEqSpecImpl for Token {
    open spec fn obeys_eq_spec() -> bool {
        true
    }

    open spec fn eq_spec(&self, other: &Self) -> bool {
        token_view(*self) == token_view(*other)
    }
}

impl Clone for Token {
    /// A copy equal to the original in model.
    fn clone(&self) -> (r: Self)
        ensures
            token_view(r) == token_view(*self),
        decreases self,
    {
        match self {
            Token::Fn => Token::Fn,
            Token::Let => Token::Let,
            Token::Struct => Token::Struct,
            Token::If => Token::If,
            Token::Elsif => Token::Elsif,
            Token::Else => Token::Else,
            Token::Spawn => Token::Spawn,
            Token::Shared => Token::Shared,
            Token::With => Token::With,
            Token::Atomic => Token::Atomic,
            Token::Match => Token::Match,
            Token::Lazy => Token::Lazy,
            Token::Mut => Token::Mut,
            Token::Inf => Token::Inf,
            Token::For => Token::For,
            Token::In => Token::In,
            Token::While => Token::While,
            Token::Break => Token::Break,
            Token::True => Token::True,
            Token::False => Token::False,
            Token::Use => Token::Use,
            Token::Async => Token::Async,
            Token::Await => Token::Await,
            Token::Enum => Token::Enum,
            Token::TypeAlias => Token::TypeAlias,
            Token::As => Token::As,
            Token::Ident(s) => Token::Ident(s.clone()),
            Token::Int(i) => Token::Int(*i),
            Token::Float(s) => Token::Float(s.clone()),
            Token::Binary(i) => Token::Binary(*i),
            Token::Octal(i) => Token::Octal(*i),
            Token::Hex(i) => Token::Hex(*i),
            Token::String(parts) => Token::String(crate::lexer::str_litteral::clone_parts(parts)),
            Token::Colon => Token::Colon,
            Token::Arrow => Token::Arrow,
            Token::LParen => Token::LParen,
            Token::RParen => Token::RParen,
            Token::LBracket => Token::LBracket,
            Token::RBracket => Token::RBracket,
            Token::LBrace => Token::LBrace,
            Token::RBrace => Token::RBrace,
            Token::Comma => Token::Comma,
            Token::Dot => Token::Dot,
            Token::Range => Token::Range,
            Token::Wildcard => Token::Wildcard,
            Token::Equals => Token::Equals,
            Token::PlusEquals => Token::PlusEquals,
            Token::MinusEquals => Token::MinusEquals,
            Token::StarEquals => Token::StarEquals,
            Token::SlashEquals => Token::SlashEquals,
            Token::PercentEquals => Token::PercentEquals,
            Token::AndEquals => Token::AndEquals,
            Token::OrEquals => Token::OrEquals,
            Token::XorEquals => Token::XorEquals,
            Token::ShlEquals => Token::ShlEquals,
            Token::ShrEquals => Token::ShrEquals,
            Token::Plus => Token::Plus,
            Token::Minus => Token::Minus,
            Token::Star => Token::Star,
            Token::Slash => Token::Slash,
            Token::Percent => Token::Percent,
            Token::And => Token::And,
            Token::Or => Token::Or,
            Token::Not => Token::Not,
            Token::EqualsEquals => Token::EqualsEquals,
            Token::NotEquals => Token::NotEquals,
            Token::Less => Token::Less,
            Token::LessEquals => Token::LessEquals,
            Token::Greater => Token::Greater,
            Token::GreaterEquals => Token::GreaterEquals,
            Token::BitAnd => Token::BitAnd,
            Token::BitOr => Token::BitOr,
            Token::BitXor => Token::BitXor,
            Token::BitNot => Token::BitNot,
            Token::Shl => Token::Shl,
            Token::Shr => Token::Shr,
            Token::Pipe => Token::Pipe,
            Token::Return => Token::Return,
            Token::MatchReturn => Token::MatchReturn,
            Token::LineComment(s) => Token::LineComment(s.clone()),
            Token::BlockComment(s) => Token::BlockComment(s.clone()),
            Token::DocComment(s) => Token::DocComment(s.clone()),
            Token::Whitespace => Token::Whitespace,
            Token::LineEnd => Token::LineEnd,
        }
    }
}

} // verus!
