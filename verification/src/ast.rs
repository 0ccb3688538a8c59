//! The abstract syntax tree: a pure data model of a parsed program, built by
//! the grammar-driven parser and consumed by the lowering pass.
//!
//! A float literal carries its lexeme verbatim: the front end never computes
//! with its numeric value, which belongs to later stages.

use vstd::prelude::*;

use crate::parser::string::ParserStringPart;

verus! {

/// An ordered list of top-level statements.
#[derive(Debug)]
pub struct Program {
    pub statements: Vec<Statement>,
}

/// One statement.
#[derive(Debug)]
pub enum Statement {
    FnDecl {
        name: String,
        is_async: bool,
        params: Vec<(String, Option<Type>)>,
        return_type: Option<Type>,
        body: Vec<Statement>,
    },
    Let {
        atomic: bool,
        lazy: bool,
        mutable: bool,
        name: LetName,
        ty: Option<Type>,
        value: Expr,
    },
    Match(Match),
    Spawn { body: Vec<Statement>, with: Option<Expr> },
    ForLoop { iterator: String, range: Expr, body: Vec<Statement> },
    WhileLoop { condition: Expr, body: Vec<Statement> },
    If {
        condition: Expr,
        body: Vec<Statement>,
        else_ifs: Vec<(Expr, Vec<Statement>)>,
        else_body: Option<Vec<Statement>>,
    },
    Expr(Expr),
    Return(Expr),
    Break,
    TypeAlias { name: String, ty: Type },
    Struct { name: String, fields: Vec<(String, Type)> },
    Enum { name: String, variants: Vec<EnumVariant> },
    Use { path: Vec<String>, alias: Option<String> },
}

/// A `match` over an expression, with its ordered arms.
#[derive(Debug)]
pub struct Match {
    pub expr: Expr,
    pub arms: Vec<MatchArm>,
}

/// The binding shape of a `let`: one name, or a destructuring pattern that
/// binds several names at once.
#[derive(Debug)]
pub enum LetName {
    Ident(String),
    ArrayDestructure(Vec<LetName>),
    TupleDestructure(Vec<LetName>),
    StructDestructure(String, Vec<(String, Option<String>)>),
}

/// One variant of an `enum` declaration.
#[derive(Debug)]
pub enum EnumVariant {
    Unit(String),
    Tuple(String, Vec<Type>),
    Struct(String, Vec<(String, Option<Type>)>),
}

/// The data carried by a non-unit enum variant.
#[derive(Debug)]
pub enum EnumVariantData {
    Tuple(Vec<Type>),
    Struct(Vec<(String, Option<Type>)>),
}

/// One arm of a `match`: a pattern, an optional guard, and a body.
#[derive(Debug)]
pub struct MatchArm {
    pub pattern: Pattern,
    pub body: Vec<Statement>,
    pub guard: Option<Expr>,
}

/// A pattern in a `match` arm.
#[derive(Debug)]
pub enum Pattern {
    Literal(Literal),
    Ident(String),
    FunctionDestructor(String, Vec<String>),
    StructLikeDestructor(String, Vec<(String, Option<String>)>),
    Wildcard,
}

/// One expression.
#[derive(Debug)]
pub enum Expr {
    Literal(Literal),
    Ident(String),
    Array(Vec<Expr>),
    Match(Box<Match>),
    Awaitable(Box<Expr>),
    // a parenthesized expression list is a tuple
    Tuple(Vec<Expr>),
    Binary(Box<Expr>, BinOp, Box<Expr>),
    Pipe(Box<Expr>, Box<Expr>),
    Call(Box<Expr>, Vec<Expr>),
    Range(Box<Expr>, Box<Expr>),
    Assign(Box<Expr>, BinOp, Box<Expr>),
    Unary(UnaryOp, Box<Expr>),
    FieldAccess(Box<Expr>, String),
    Index(Box<Expr>, Box<Expr>),
    Closure(Vec<(String, Option<Type>)>, Vec<Statement>),
}

/// A comment, with its text.
#[derive(Debug)]
pub enum Comment {
    Line(String),
    Block(String),
    Doc(String),
}

/// A type expression.
#[derive(Debug)]
pub enum Type {
    Ident(String),
    Tuple(Vec<Type>),
    Function(Vec<Type>, Box<Type>),
    AsyncFunction(Vec<Type>, Box<Type>),
    Array(Vec<Type>),
    Awaitable(Box<Type>),
}

/// A literal value. A float keeps its lexeme; a string keeps its parsed
/// parts, text interleaved with embedded expressions.
#[derive(Debug)]
pub enum Literal {
    Int(i32),
    Float(String),
    String(Vec<ParserStringPart>),
    Inf,
    Bool(bool),
}

/// A binary operator.
#[derive(Debug, PartialEq, Eq, Structural, Clone, Copy)]
pub enum BinOp {
    Plus,
    Minus,
    Multiply,
    Divide,
    Modulo,
    Eq,
    Neq,
    Lt,
    Le,
    Gt,
    Ge,
    And,
    Or,
    BitAnd,
    BitOr,
    BitXor,
    ShiftLeft,
    ShiftRight,
}

/// A unary operator.
#[derive(Debug, PartialEq, Eq, Structural, Clone, Copy)]
pub enum UnaryOp {
    Not,
    Minus,
    Plus,
    BitNot,
}

} // verus!
