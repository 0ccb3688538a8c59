//! The intermediate representation: the abstract syntax tree with every
//! free-text identifier replaced by an interned symbol, ready for the stages
//! after the front end.

use vstd::prelude::*;

use crate::ast::{BinOp, UnaryOp};
use crate::ir::interner::Symbol;

pub mod context;
pub mod interner;
pub mod table;

verus! {

/// A lowered program: an ordered list of lowered statements.
#[derive(Debug)]
pub struct IrProgram {
    pub statements: Vec<IrStatement>,
}

/// One lowered statement.
#[derive(Debug)]
pub enum IrStatement {
    FnDecl {
        name: Symbol,
        is_async: bool,
        params: Vec<(Symbol, Option<IrType>)>,
        return_type: Option<IrType>,
        body: Vec<IrStatement>,
    },
    Let {
        atomic: bool,
        lazy: bool,
        mutable: bool,
        name: IrLetPattern,
        ty: Option<IrType>,
        value: IrExpr,
    },
    Match(IrMatch),
    Spawn { body: Vec<IrStatement>, with: Option<IrExpr> },
    ForLoop { iterator: Symbol, range: IrExpr, body: Vec<IrStatement> },
    WhileLoop { condition: IrExpr, body: Vec<IrStatement> },
    If {
        condition: IrExpr,
        body: Vec<IrStatement>,
        else_ifs: Vec<(IrExpr, Vec<IrStatement>)>,
        else_body: Option<Vec<IrStatement>>,
    },
    Expr(IrExpr),
    Return(IrExpr),
    Break,
    TypeAlias { name: Symbol, ty: IrType },
    Struct { name: Symbol, fields: Vec<(Symbol, IrType)> },
    Enum { name: Symbol, variants: Vec<IrEnumVariant> },
    Use { path: Vec<Symbol>, alias: Option<Symbol> },
}

/// A lowered `let` binding shape.
#[derive(Debug)]
pub enum IrLetPattern {
    Ident(Symbol),
    Array(Vec<IrLetPattern>),
    Tuple(Vec<IrLetPattern>),
    Struct(Symbol, Vec<(Symbol, Option<Symbol>)>),
}

/// A lowered enum variant.
#[derive(Debug)]
pub enum IrEnumVariant {
    Unit(Symbol),
    Tuple(Symbol, Vec<IrType>),
    Struct(Symbol, Vec<(Symbol, Option<IrType>)>),
}

/// A lowered `match`.
#[derive(Debug)]
pub struct IrMatch {
    pub expr: IrExpr,
    pub arms: Vec<IrMatchArm>,
}

/// A lowered match arm.
#[derive(Debug)]
pub struct IrMatchArm {
    pub pattern: IrPattern,
    pub body: Vec<IrStatement>,
    pub guard: Option<IrExpr>,
}

/// A lowered pattern.
#[derive(Debug)]
pub enum IrPattern {
    Literal(IrLiteral),
    Ident(Symbol),
    FunctionDestructor(Symbol, Vec<Symbol>),
    StructLikeDestructor(Symbol, Vec<(Symbol, Option<Symbol>)>),
    Wildcard,
}

/// One lowered expression.
#[derive(Debug)]
pub enum IrExpr {
    Literal(IrLiteral),
    Symbol(Symbol),
    Array(Vec<IrExpr>),
    Match(Box<IrMatch>),
    Awaitable(Box<IrExpr>),
    Tuple(Vec<IrExpr>),
    Binary(Box<IrExpr>, BinOp, Box<IrExpr>),
    Pipe(Box<IrExpr>, Box<IrExpr>),
    Call(Box<IrExpr>, Vec<IrExpr>),
    Range(Box<IrExpr>, Box<IrExpr>),
    Assign(Box<IrExpr>, BinOp, Box<IrExpr>),
    Unary(UnaryOp, Box<IrExpr>),
    FieldAccess(Box<IrExpr>, Symbol),
    Index(Box<IrExpr>, Box<IrExpr>),
    Closure(Vec<(Symbol, Option<IrType>)>, Vec<IrStatement>),
}

/// A lowered literal. A float keeps its lexeme; a string keeps its parts,
/// each embedded expression lowered like any other expression.
#[derive(Debug)]
pub enum IrLiteral {
    Int(i32),
    Float(String),
    String(Vec<IrStringPart>),
    Inf,
    Bool(bool),
}

/// One part of a lowered string literal.
#[derive(Debug)]
pub enum IrStringPart {
    Text(String),
    Expression(IrExpr),
}

/// A lowered type expression.
#[derive(Debug)]
pub enum IrType {
    Ident(Symbol),
    Tuple(Vec<IrType>),
    Function(Vec<IrType>, Box<IrType>),
    AsyncFunction(Vec<IrType>, Box<IrType>),
    Array(Vec<IrType>),
    Awaitable(Box<IrType>),
}

} // verus!
