//! The lowering pass: a deterministic, structure-preserving rewrite of the
//! abstract syntax tree into the intermediate representation, interning every
//! free-text name at a binding or use site.
//!
//! The contract of each lowering function is a relation between its input
//! tree and its output tree over the final interner contents: the output
//! mirrors the input node for node, and every symbol in it resolves to the
//! name it replaced. A construct outside the implemented subset fails with an
//! explicit not-implemented error carrying the offending node — it never
//! vanishes silently.

use vstd::prelude::*;

use crate::ast::{Expr, LetName, Literal, Program, Statement, Type};
use vstd::std_specs::vec::axiom_vec_decreases_to_view;
use vstd::std_specs::vec::axiom_vec_index_decreases;
use crate::ir::interner::{Interner, Symbol, distinct_strings, intern_contents, intern_sym, interner_capacity};
use crate::ir::table::SymbolTable;
use crate::ir::{IrExpr, IrLetPattern, IrLiteral, IrProgram, IrStatement, IrStringPart, IrType};
use crate::parser::string::ParserStringPart;

verus! {

broadcast use vstd::seq::axiom_seq_index_decreases, axiom_vec_decreases_to_view, axiom_vec_index_decreases;

/// The not-implemented signal: lowering met a construct outside the
/// implemented subset, and carries that construct.
#[derive(Debug)]
pub enum LoweringError {
    NotImplementedStatement(Statement),
    NotImplementedExpression(Expr),
}

// ---------------------------------------------------------------------------
// What the implemented subset is
// ---------------------------------------------------------------------------

/// Whether a statement is inside the implemented lowering subset.
pub open spec fn stmt_supported(s: Statement) -> bool
    decreases s,
{
    match s {
        Statement::FnDecl { body, .. } => stmts_supported(body@),
        Statement::Let { value, .. } => expr_supported(value),
        Statement::Expr(e) => expr_supported(e),
        Statement::Return(e) => expr_supported(e),
        Statement::Break => true,
        _ => false,
    }
}

pub open spec fn stmts_supported(v: Seq<Statement>) -> bool
    decreases v,
{
    forall|i: int| 0 <= i < v.len() ==> stmt_supported(#[trigger] v[i])
}

/// Whether an expression is inside the implemented lowering subset.
pub open spec fn expr_supported(e: Expr) -> bool
    decreases e,
{
    match e {
        Expr::Literal(l) => lit_supported(l),
        Expr::Ident(_) => true,
        Expr::Array(v) => exprs_supported(v@),
        Expr::Tuple(v) => exprs_supported(v@),
        Expr::Call(f, a) => expr_supported(*f) && exprs_supported(a@),
        Expr::Binary(l, _, r) => expr_supported(*l) && expr_supported(*r),
        Expr::Unary(_, x) => expr_supported(*x),
        Expr::Index(a, b) => expr_supported(*a) && expr_supported(*b),
        Expr::FieldAccess(o, _) => expr_supported(*o),
        _ => false,
    }
}

pub open spec fn exprs_supported(v: Seq<Expr>) -> bool
    decreases v,
{
    forall|i: int| 0 <= i < v.len() ==> expr_supported(#[trigger] v[i])
}

/// Whether a literal is inside the implemented lowering subset.
pub open spec fn lit_supported(l: Literal) -> bool
    decreases l,
{
    match l {
        Literal::String(parts) => pparts_supported(parts@),
        _ => true,
    }
}

pub open spec fn pparts_supported(v: Seq<ParserStringPart>) -> bool
    decreases v,
{
    forall|i: int|
        0 <= i < v.len() ==> (match #[trigger] v[i] {
            ParserStringPart::Text(_) => true,
            ParserStringPart::Expression(e) => expr_supported(e),
        })
}

/// Whether an unsupported construct stands at the node's own root: what a
/// not-implemented error is allowed to carry.
pub open spec fn stmt_unimplemented(s: Statement) -> bool {
    match s {
        Statement::FnDecl { .. } => false,
        Statement::Let { .. } => false,
        Statement::Expr(_) => false,
        Statement::Return(_) => false,
        Statement::Break => false,
        _ => true,
    }
}

pub open spec fn expr_unimplemented(e: Expr) -> bool {
    match e {
        Expr::Literal(_) => false,
        Expr::Ident(_) => false,
        Expr::Array(_) => false,
        Expr::Tuple(_) => false,
        Expr::Call(..) => false,
        Expr::Binary(..) => false,
        Expr::Unary(..) => false,
        Expr::Index(..) => false,
        Expr::FieldAccess(..) => false,
        _ => true,
    }
}

/// A well-formed not-implemented signal: it carries a construct whose own
/// root the pass does not handle.
pub open spec fn error_carries_unimplemented(e: LoweringError) -> bool {
    match e {
        LoweringError::NotImplementedStatement(s) => stmt_unimplemented(s),
        LoweringError::NotImplementedExpression(x) => expr_unimplemented(x),
    }
}

// ---------------------------------------------------------------------------
// The offending node: what a not-implemented signal carries
// ---------------------------------------------------------------------------
// For an unsupported input, these name the first construct, in lowering
// order, that the pass does not handle. They are meaningful only on
// unsupported input; elsewhere they are arbitrary.

/// The signal lowering an unsupported statement raises.
pub open spec fn stmt_offender(s: Statement) -> LoweringError
    decreases s,
{
    match s {
        Statement::FnDecl { body, .. } => stmts_offender(body@),
        Statement::Let { value, .. } => expr_offender(value),
        Statement::Expr(e) => expr_offender(e),
        Statement::Return(e) => expr_offender(e),
        Statement::Break => arbitrary(),
        other => LoweringError::NotImplementedStatement(other),
    }
}

/// The signal lowering a statement list with an unsupported member raises:
/// the first unsupported member decides.
pub open spec fn stmts_offender(v: Seq<Statement>) -> LoweringError
    decreases v,
{
    if v.len() == 0 {
        arbitrary()
    } else if !stmt_supported(v[0]) {
        stmt_offender(v[0])
    } else {
        stmts_offender(v.drop_first())
    }
}

/// The signal lowering an unsupported expression raises.
pub open spec fn expr_offender(e: Expr) -> LoweringError
    decreases e,
{
    match e {
        Expr::Literal(l) => lit_offender(l),
        Expr::Ident(_) => arbitrary(),
        Expr::Array(v) => exprs_offender(v@),
        Expr::Tuple(v) => exprs_offender(v@),
        Expr::Call(f, a) => if !expr_supported(*f) {
            expr_offender(*f)
        } else {
            exprs_offender(a@)
        },
        Expr::Binary(l, _, r) => if !expr_supported(*l) {
            expr_offender(*l)
        } else {
            expr_offender(*r)
        },
        Expr::Unary(_, x) => expr_offender(*x),
        Expr::Index(a, b) => if !expr_supported(*a) {
            expr_offender(*a)
        } else {
            expr_offender(*b)
        },
        Expr::FieldAccess(o, _) => expr_offender(*o),
        other => LoweringError::NotImplementedExpression(other),
    }
}

/// The signal lowering an expression list with an unsupported member raises.
pub open spec fn exprs_offender(v: Seq<Expr>) -> LoweringError
    decreases v,
{
    if v.len() == 0 {
        arbitrary()
    } else if !expr_supported(v[0]) {
        expr_offender(v[0])
    } else {
        exprs_offender(v.drop_first())
    }
}

/// The signal lowering an unsupported literal raises.
pub open spec fn lit_offender(l: Literal) -> LoweringError
    decreases l,
{
    match l {
        Literal::String(parts) => pparts_offender(parts@),
        _ => arbitrary(),
    }
}

/// The signal lowering string parts with an unsupported embedded expression
/// raises.
pub open spec fn pparts_offender(v: Seq<ParserStringPart>) -> LoweringError
    decreases v,
{
    if v.len() == 0 {
        arbitrary()
    } else {
        match v[0] {
            ParserStringPart::Text(_) => pparts_offender(v.drop_first()),
            ParserStringPart::Expression(e) => if !expr_supported(e) {
                expr_offender(e)
            } else {
                pparts_offender(v.drop_first())
            },
        }
    }
}

// ---------------------------------------------------------------------------
// How many names a construct can intern
// ---------------------------------------------------------------------------

pub open spec fn opt_type_size(t: Option<Type>) -> nat {
    match t {
        Option::Some(x) => type_size(x),
        Option::None => 0,
    }
}

pub open spec fn type_size(t: Type) -> nat
    decreases t,
{
    match t {
        Type::Ident(_) => 1,
        Type::Tuple(v) => 1 + types_size(v@),
        Type::Array(v) => 1 + types_size(v@),
        Type::Function(a, r) => 1 + types_size(a@) + type_size(*r),
        Type::AsyncFunction(a, r) => 1 + types_size(a@) + type_size(*r),
        Type::Awaitable(b) => 1 + type_size(*b),
    }
}

pub open spec fn types_size(v: Seq<Type>) -> nat
    decreases v,
{
    if v.len() == 0 {
        0
    } else {
        type_size(v[0]) + types_size(v.drop_first())
    }
}

pub open spec fn letname_size(n: LetName) -> nat
    decreases n,
{
    match n {
        LetName::Ident(_) => 1,
        LetName::ArrayDestructure(v) => 1 + letnames_size(v@),
        LetName::TupleDestructure(v) => 1 + letnames_size(v@),
        LetName::StructDestructure(_, fields) => 2 + 2 * fields@.len(),
    }
}

pub open spec fn letnames_size(v: Seq<LetName>) -> nat
    decreases v,
{
    if v.len() == 0 {
        0
    } else {
        letname_size(v[0]) + letnames_size(v.drop_first())
    }
}

pub open spec fn expr_size(e: Expr) -> nat
    decreases e,
{
    match e {
        Expr::Literal(l) => 1 + lit_size(l),
        Expr::Ident(_) => 1,
        Expr::Array(v) => 1 + exprs_size(v@),
        Expr::Tuple(v) => 1 + exprs_size(v@),
        Expr::Call(f, a) => 1 + expr_size(*f) + exprs_size(a@),
        Expr::Binary(l, _, r) => 1 + expr_size(*l) + expr_size(*r),
        Expr::Unary(_, x) => 1 + expr_size(*x),
        Expr::Index(a, b) => 1 + expr_size(*a) + expr_size(*b),
        Expr::FieldAccess(o, _) => 2 + expr_size(*o),
        _ => 1,
    }
}

pub open spec fn exprs_size(v: Seq<Expr>) -> nat
    decreases v,
{
    if v.len() == 0 {
        0
    } else {
        expr_size(v[0]) + exprs_size(v.drop_first())
    }
}

pub open spec fn lit_size(l: Literal) -> nat
    decreases l,
{
    match l {
        Literal::String(parts) => 1 + pparts_size(parts@),
        _ => 1,
    }
}

pub open spec fn pparts_size(v: Seq<ParserStringPart>) -> nat
    decreases v,
{
    if v.len() == 0 {
        0
    } else {
        (match v[0] {
            ParserStringPart::Text(_) => 1,
            ParserStringPart::Expression(e) => 1 + expr_size(e),
        }) + pparts_size(v.drop_first())
    }
}

pub open spec fn params_size(v: Seq<(String, Option<Type>)>) -> nat
    decreases v,
{
    if v.len() == 0 {
        0
    } else {
        1 + opt_type_size(v[0].1) + params_size(v.drop_first())
    }
}

pub open spec fn stmt_size(s: Statement) -> nat
    decreases s,
{
    match s {
        Statement::FnDecl { params, return_type, body, .. } => 2 + params_size(params@)
            + opt_type_size(return_type) + stmts_size(body@),
        Statement::Let { name, ty, value, .. } => 1 + letname_size(name) + opt_type_size(ty)
            + expr_size(value),
        Statement::Expr(e) => 1 + expr_size(e),
        Statement::Return(e) => 1 + expr_size(e),
        _ => 1,
    }
}

pub open spec fn stmts_size(v: Seq<Statement>) -> nat
    decreases v,
{
    if v.len() == 0 {
        0
    } else {
        stmt_size(v[0]) + stmts_size(v.drop_first())
    }
}

// ---------------------------------------------------------------------------
// What lowering interns: the final contents as a function of the input
// ---------------------------------------------------------------------------
// Lowering is deterministic: on success the interner's final contents are
// exactly these functions of the prior contents and the input, every name
// interned in lowering order; and since the contents stay distinct, each
// symbol is the unique index of its name.

pub open spec fn type_interned(c: Seq<Seq<char>>, t: Type) -> Seq<Seq<char>>
    decreases t,
{
    match t {
        Type::Ident(n) => intern_contents(c, n@),
        Type::Tuple(v) => types_interned(c, v@),
        Type::Array(v) => types_interned(c, v@),
        Type::Function(a, r) => type_interned(types_interned(c, a@), *r),
        Type::AsyncFunction(a, r) => type_interned(types_interned(c, a@), *r),
        Type::Awaitable(b) => type_interned(c, *b),
    }
}

pub open spec fn types_interned(c: Seq<Seq<char>>, v: Seq<Type>) -> Seq<Seq<char>>
    decreases v,
{
    if v.len() == 0 {
        c
    } else {
        types_interned(type_interned(c, v[0]), v.drop_first())
    }
}

pub open spec fn opt_type_interned(c: Seq<Seq<char>>, t: Option<Type>) -> Seq<Seq<char>>
    decreases t,
{
    match t {
        Option::Some(x) => type_interned(c, x),
        Option::None => c,
    }
}

pub open spec fn field_interned(c: Seq<Seq<char>>, f: (String, Option<String>)) -> Seq<Seq<char>> {
    match f.1 {
        Option::Some(v) => intern_contents(intern_contents(c, f.0@), v@),
        Option::None => intern_contents(c, f.0@),
    }
}

pub open spec fn fields_interned(c: Seq<Seq<char>>, fs: Seq<(String, Option<String>)>) -> Seq<
    Seq<char>,
>
    decreases fs,
{
    if fs.len() == 0 {
        c
    } else {
        fields_interned(field_interned(c, fs[0]), fs.drop_first())
    }
}

pub open spec fn letname_interned(c: Seq<Seq<char>>, n: LetName) -> Seq<Seq<char>>
    decreases n,
{
    match n {
        LetName::Ident(x) => intern_contents(c, x@),
        LetName::ArrayDestructure(v) => letnames_interned(c, v@),
        LetName::TupleDestructure(v) => letnames_interned(c, v@),
        LetName::StructDestructure(x, fields) => fields_interned(intern_contents(c, x@), fields@),
    }
}

pub open spec fn letnames_interned(c: Seq<Seq<char>>, v: Seq<LetName>) -> Seq<Seq<char>>
    decreases v,
{
    if v.len() == 0 {
        c
    } else {
        letnames_interned(letname_interned(c, v[0]), v.drop_first())
    }
}

pub open spec fn expr_interned(c: Seq<Seq<char>>, e: Expr) -> Seq<Seq<char>>
    decreases e,
{
    match e {
        Expr::Literal(l) => lit_interned(c, l),
        Expr::Ident(n) => intern_contents(c, n@),
        Expr::Array(v) => exprs_interned(c, v@),
        Expr::Tuple(v) => exprs_interned(c, v@),
        Expr::Call(f, a) => exprs_interned(expr_interned(c, *f), a@),
        Expr::Binary(l, _, r) => expr_interned(expr_interned(c, *l), *r),
        Expr::Unary(_, x) => expr_interned(c, *x),
        Expr::Index(a, b) => expr_interned(expr_interned(c, *a), *b),
        Expr::FieldAccess(o, fname) => intern_contents(expr_interned(c, *o), fname@),
        _ => c,
    }
}

pub open spec fn exprs_interned(c: Seq<Seq<char>>, v: Seq<Expr>) -> Seq<Seq<char>>
    decreases v,
{
    if v.len() == 0 {
        c
    } else {
        exprs_interned(expr_interned(c, v[0]), v.drop_first())
    }
}

pub open spec fn lit_interned(c: Seq<Seq<char>>, l: Literal) -> Seq<Seq<char>>
    decreases l,
{
    match l {
        Literal::String(parts) => pparts_interned(c, parts@),
        _ => c,
    }
}

pub open spec fn pparts_interned(c: Seq<Seq<char>>, v: Seq<ParserStringPart>) -> Seq<Seq<char>>
    decreases v,
{
    if v.len() == 0 {
        c
    } else {
        pparts_interned(
            match v[0] {
                ParserStringPart::Text(_) => c,
                ParserStringPart::Expression(e) => expr_interned(c, e),
            },
            v.drop_first(),
        )
    }
}

pub open spec fn params_interned(c: Seq<Seq<char>>, ps: Seq<(String, Option<Type>)>) -> Seq<
    Seq<char>,
>
    decreases ps,
{
    if ps.len() == 0 {
        c
    } else {
        params_interned(
            opt_type_interned(intern_contents(c, ps[0].0@), ps[0].1),
            ps.drop_first(),
        )
    }
}

pub open spec fn stmt_interned(c: Seq<Seq<char>>, s: Statement) -> Seq<Seq<char>>
    decreases s,
{
    match s {
        Statement::FnDecl { name, params, return_type, body, .. } => stmts_interned(
            opt_type_interned(params_interned(intern_contents(c, name@), params@), return_type),
            body@,
        ),
        Statement::Let { name, ty, value, .. } => expr_interned(
            opt_type_interned(letname_interned(c, name), ty),
            value,
        ),
        Statement::Expr(e) => expr_interned(c, e),
        Statement::Return(e) => expr_interned(c, e),
        _ => c,
    }
}

pub open spec fn stmts_interned(c: Seq<Seq<char>>, v: Seq<Statement>) -> Seq<Seq<char>>
    decreases v,
{
    if v.len() == 0 {
        c
    } else {
        stmts_interned(stmt_interned(c, v[0]), v.drop_first())
    }
}

// ---------------------------------------------------------------------------
// The lowering relation: the output mirrors the input, names resolved
// ---------------------------------------------------------------------------

/// `sym` stands for `name` in the interner contents `c`.
pub open spec fn resolves(c: Seq<Seq<char>>, sym: Symbol, name: Seq<char>) -> bool {
    sym.0 < c.len() && c[sym.0 as int] == name
}

/// `c2` keeps every entry of `c1` where it stood.
pub open spec fn extends(c2: Seq<Seq<char>>, c1: Seq<Seq<char>>) -> bool {
    c1.len() <= c2.len() && forall|k: int| 0 <= k < c1.len() ==> c2[k] == c1[k]
}

/// With distinct contents, a name resolves through exactly one symbol; with
/// the final contents pinned below, this makes the lowered output a function
/// of the input and the interner's prior state.
pub proof fn lemma_resolves_unique(c: Seq<Seq<char>>, s1: Symbol, s2: Symbol, name: Seq<char>)
    requires
        distinct_strings(c),
        resolves(c, s1, name),
        resolves(c, s2, name),
    ensures
        s1 == s2,
{
    if s1.0 < s2.0 {
        assert(c[s1.0 as int] != c[s2.0 as int]);
    } else if s2.0 < s1.0 {
        assert(c[s2.0 as int] != c[s1.0 as int]);
    }
}

pub open spec fn type_rel(ir: IrType, t: Type, c: Seq<Seq<char>>) -> bool
    decreases t,
{
    match t {
        Type::Ident(n) => ir matches IrType::Ident(s) && resolves(c, s, n@),
        Type::Tuple(v) => ir matches IrType::Tuple(w) && types_rel(w@, v@, c),
        Type::Array(v) => ir matches IrType::Array(w) && types_rel(w@, v@, c),
        Type::Function(a, r) => ir matches IrType::Function(b, q) && types_rel(b@, a@, c)
            && type_rel(*q, *r, c),
        Type::AsyncFunction(a, r) => ir matches IrType::AsyncFunction(b, q) && types_rel(
            b@,
            a@,
            c,
        ) && type_rel(*q, *r, c),
        Type::Awaitable(x) => ir matches IrType::Awaitable(y) && type_rel(*y, *x, c),
    }
}

pub open spec fn types_rel(irs: Seq<IrType>, ts: Seq<Type>, c: Seq<Seq<char>>) -> bool
    decreases ts,
{
    irs.len() == ts.len() && forall|i: int|
        0 <= i < ts.len() ==> type_rel(irs[i], #[trigger] ts[i], c)
}

pub open spec fn opt_type_rel(ir: Option<IrType>, t: Option<Type>, c: Seq<Seq<char>>) -> bool {
    match t {
        Option::Some(x) => ir matches Option::Some(y) && type_rel(y, x, c),
        Option::None => ir is None,
    }
}

pub open spec fn letname_rel(ir: IrLetPattern, n: LetName, c: Seq<Seq<char>>) -> bool
    decreases n,
{
    match n {
        LetName::Ident(x) => ir matches IrLetPattern::Ident(s) && resolves(c, s, x@),
        LetName::ArrayDestructure(v) => ir matches IrLetPattern::Array(w) && letnames_rel(
            w@,
            v@,
            c,
        ),
        LetName::TupleDestructure(v) => ir matches IrLetPattern::Tuple(w) && letnames_rel(
            w@,
            v@,
            c,
        ),
        LetName::StructDestructure(x, fields) => ir matches IrLetPattern::Struct(s, irf)
            && resolves(c, s, x@) && irf@.len() == fields@.len() && forall|i: int|
            0 <= i < fields@.len() ==> field_rel(irf@[i], #[trigger] fields@[i], c),
    }
}

pub open spec fn field_rel(
    ir: (Symbol, Option<Symbol>),
    f: (String, Option<String>),
    c: Seq<Seq<char>>,
) -> bool {
    resolves(c, ir.0, f.0@) && (match f.1 {
        Option::Some(v) => ir.1 matches Option::Some(s) && resolves(c, s, v@),
        Option::None => ir.1 is None,
    })
}

pub open spec fn letnames_rel(irs: Seq<IrLetPattern>, ns: Seq<LetName>, c: Seq<Seq<char>>) -> bool
    decreases ns,
{
    irs.len() == ns.len() && forall|i: int|
        0 <= i < ns.len() ==> letname_rel(irs[i], #[trigger] ns[i], c)
}

pub open spec fn expr_rel(ir: IrExpr, e: Expr, c: Seq<Seq<char>>) -> bool
    decreases e,
{
    match e {
        Expr::Literal(l) => ir matches IrExpr::Literal(il) && lit_rel(il, l, c),
        Expr::Ident(n) => ir matches IrExpr::Symbol(s) && resolves(c, s, n@),
        Expr::Array(v) => ir matches IrExpr::Array(w) && exprs_rel(w@, v@, c),
        Expr::Tuple(v) => ir matches IrExpr::Tuple(w) && exprs_rel(w@, v@, c),
        Expr::Call(f, a) => ir matches IrExpr::Call(g, b) && expr_rel(*g, *f, c) && exprs_rel(
            b@,
            a@,
            c,
        ),
        Expr::Binary(l, op, r) => ir matches IrExpr::Binary(il, iop, irr) && iop == op && expr_rel(
            *il,
            *l,
            c,
        ) && expr_rel(*irr, *r, c),
        Expr::Unary(op, x) => ir matches IrExpr::Unary(iop, y) && iop == op && expr_rel(*y, *x, c),
        Expr::Index(a, b) => ir matches IrExpr::Index(x, y) && expr_rel(*x, *a, c) && expr_rel(
            *y,
            *b,
            c,
        ),
        Expr::FieldAccess(o, fname) => ir matches IrExpr::FieldAccess(io, s) && expr_rel(
            *io,
            *o,
            c,
        ) && resolves(c, s, fname@),
        _ => false,
    }
}

pub open spec fn exprs_rel(irs: Seq<IrExpr>, es: Seq<Expr>, c: Seq<Seq<char>>) -> bool
    decreases es,
{
    irs.len() == es.len() && forall|i: int|
        0 <= i < es.len() ==> expr_rel(irs[i], #[trigger] es[i], c)
}

pub open spec fn lit_rel(ir: IrLiteral, l: Literal, c: Seq<Seq<char>>) -> bool
    decreases l,
{
    match l {
        Literal::Int(i) => ir matches IrLiteral::Int(j) && j == i,
        Literal::Float(f) => ir matches IrLiteral::Float(g) && g@ == f@,
        Literal::String(parts) => ir matches IrLiteral::String(ip) && pparts_rel(ip@, parts@, c),
        Literal::Inf => ir is Inf,
        Literal::Bool(b) => ir matches IrLiteral::Bool(b2) && b2 == b,
    }
}

pub open spec fn ppart_rel(ir: IrStringPart, p: ParserStringPart, c: Seq<Seq<char>>) -> bool
    decreases p,
{
    match p {
        ParserStringPart::Text(t) => ir matches IrStringPart::Text(u) && u@ == t@,
        ParserStringPart::Expression(e) => ir matches IrStringPart::Expression(ie) && expr_rel(
            ie,
            e,
            c,
        ),
    }
}

pub open spec fn pparts_rel(
    irs: Seq<IrStringPart>,
    ps: Seq<ParserStringPart>,
    c: Seq<Seq<char>>,
) -> bool
    decreases ps,
{
    irs.len() == ps.len() && forall|i: int|
        0 <= i < ps.len() ==> ppart_rel(irs[i], #[trigger] ps[i], c)
}

pub open spec fn param_rel(
    ir: (Symbol, Option<IrType>),
    p: (String, Option<Type>),
    c: Seq<Seq<char>>,
) -> bool {
    resolves(c, ir.0, p.0@) && opt_type_rel(ir.1, p.1, c)
}

pub open spec fn params_rel(
    irs: Seq<(Symbol, Option<IrType>)>,
    ps: Seq<(String, Option<Type>)>,
    c: Seq<Seq<char>>,
) -> bool
    decreases ps,
{
    irs.len() == ps.len() && forall|i: int|
        0 <= i < ps.len() ==> param_rel(irs[i], #[trigger] ps[i], c)
}

pub open spec fn stmt_rel(ir: IrStatement, s: Statement, c: Seq<Seq<char>>) -> bool
    decreases s,
{
    match s {
        Statement::FnDecl { name, is_async, params, return_type, body } => ir
            matches IrStatement::FnDecl {
            name: iname,
            is_async: iasync,
            params: iparams,
            return_type: iret,
            body: ibody,
        } && resolves(c, iname, name@) && iasync == is_async && params_rel(iparams@, params@, c)
            && opt_type_rel(iret, return_type, c) && stmts_rel(ibody@, body@, c),
        Statement::Let { atomic, lazy, mutable, name, ty, value } => ir
            matches IrStatement::Let {
            atomic: iatomic,
            lazy: ilazy,
            mutable: imutable,
            name: iname,
            ty: ity,
            value: ivalue,
        } && iatomic == atomic && ilazy == lazy && imutable == mutable && letname_rel(
            iname,
            name,
            c,
        ) && opt_type_rel(ity, ty, c) && expr_rel(ivalue, value, c),
        Statement::Expr(e) => ir matches IrStatement::Expr(ie) && expr_rel(ie, e, c),
        Statement::Return(e) => ir matches IrStatement::Return(ie) && expr_rel(ie, e, c),
        Statement::Break => ir is Break,
        _ => false,
    }
}

pub open spec fn stmts_rel(irs: Seq<IrStatement>, ss: Seq<Statement>, c: Seq<Seq<char>>) -> bool
    decreases ss,
{
    irs.len() == ss.len() && forall|i: int|
        0 <= i < ss.len() ==> stmt_rel(irs[i], #[trigger] ss[i], c)
}

pub open spec fn prog_rel(ir: IrProgram, p: Program, c: Seq<Seq<char>>) -> bool {
    stmts_rel(ir.statements@, p.statements@, c)
}

// ---------------------------------------------------------------------------
// The relation only looks names up, so growing the interner preserves it
// ---------------------------------------------------------------------------

pub proof fn lemma_extends_trans(c3: Seq<Seq<char>>, c2: Seq<Seq<char>>, c1: Seq<Seq<char>>)
    requires
        extends(c3, c2),
        extends(c2, c1),
    ensures
        extends(c3, c1),
{
}

pub proof fn lemma_type_rel_mono(ir: IrType, t: Type, c1: Seq<Seq<char>>, c2: Seq<Seq<char>>)
    requires
        type_rel(ir, t, c1),
        extends(c2, c1),
    ensures
        type_rel(ir, t, c2),
    decreases t,
{
    match t {
        Type::Ident(_) => {},
        Type::Tuple(v) => {
            if let IrType::Tuple(w) = ir {
                assert(types_rel(w@, v@, c1));
                assert forall|i: int| 0 <= i < v@.len() implies type_rel(
                    w@[i],
                    #[trigger] v@[i],
                    c2,
                ) by {
                    assert(type_rel(w@[i], v@[i], c1));
                    lemma_type_rel_mono(w@[i], v@[i], c1, c2);
                }
                assert(types_rel(w@, v@, c2));
            }
        },
        Type::Array(v) => {
            if let IrType::Array(w) = ir {
                assert(types_rel(w@, v@, c1));
                assert forall|i: int| 0 <= i < v@.len() implies type_rel(
                    w@[i],
                    #[trigger] v@[i],
                    c2,
                ) by {
                    assert(type_rel(w@[i], v@[i], c1));
                    lemma_type_rel_mono(w@[i], v@[i], c1, c2);
                }
                assert(types_rel(w@, v@, c2));
            }
        },
        Type::Function(a, r) => {
            if let IrType::Function(b, q) = ir {
                assert(types_rel(b@, a@, c1));
                assert forall|i: int| 0 <= i < a@.len() implies type_rel(
                    b@[i],
                    #[trigger] a@[i],
                    c2,
                ) by {
                    assert(type_rel(b@[i], a@[i], c1));
                    lemma_type_rel_mono(b@[i], a@[i], c1, c2);
                }
                assert(types_rel(b@, a@, c2));
                assert(type_rel(*q, *r, c1));
                lemma_type_rel_mono(*q, *r, c1, c2);
            }
        },
        Type::AsyncFunction(a, r) => {
            if let IrType::AsyncFunction(b, q) = ir {
                assert(types_rel(b@, a@, c1));
                assert forall|i: int| 0 <= i < a@.len() implies type_rel(
                    b@[i],
                    #[trigger] a@[i],
                    c2,
                ) by {
                    assert(type_rel(b@[i], a@[i], c1));
                    lemma_type_rel_mono(b@[i], a@[i], c1, c2);
                }
                assert(types_rel(b@, a@, c2));
                assert(type_rel(*q, *r, c1));
                lemma_type_rel_mono(*q, *r, c1, c2);
            }
        },
        Type::Awaitable(x) => {
            if let IrType::Awaitable(y) = ir {
                assert(type_rel(*y, *x, c1));
                lemma_type_rel_mono(*y, *x, c1, c2);
            }
        },
    }
}

pub proof fn lemma_types_rel_mono_all(irs: Seq<IrType>, ts: Seq<Type>, c1: Seq<Seq<char>>, c2: Seq<Seq<char>>)
    requires
        types_rel(irs, ts, c1),
        extends(c2, c1),
    ensures
        types_rel(irs, ts, c2),
{
    assert forall|i: int| 0 <= i < ts.len() implies type_rel(irs[i], #[trigger] ts[i], c2) by {
        assert(type_rel(irs[i], ts[i], c1));
        lemma_type_rel_mono(irs[i], ts[i], c1, c2);
    }
}

pub proof fn lemma_params_rel_mono_all(
    irs: Seq<(Symbol, Option<IrType>)>,
    ps: Seq<(String, Option<Type>)>,
    c1: Seq<Seq<char>>,
    c2: Seq<Seq<char>>,
)
    requires
        params_rel(irs, ps, c1),
        extends(c2, c1),
    ensures
        params_rel(irs, ps, c2),
{
    assert forall|i: int| 0 <= i < ps.len() implies param_rel(irs[i], #[trigger] ps[i], c2) by {
        assert(param_rel(irs[i], ps[i], c1));
        assert(opt_type_rel(irs[i].1, ps[i].1, c1));
        lemma_opt_type_rel_mono(irs[i].1, ps[i].1, c1, c2);
    }
}

pub proof fn lemma_opt_type_rel_mono(
    ir: Option<IrType>,
    t: Option<Type>,
    c1: Seq<Seq<char>>,
    c2: Seq<Seq<char>>,
)
    requires
        opt_type_rel(ir, t, c1),
        extends(c2, c1),
    ensures
        opt_type_rel(ir, t, c2),
{
    if let Option::Some(x) = t {
        if let Option::Some(y) = ir {
            assert(type_rel(y, x, c1));
            lemma_type_rel_mono(y, x, c1, c2);
        }
    }
}

pub proof fn lemma_letname_rel_mono(ir: IrLetPattern, n: LetName, c1: Seq<Seq<char>>, c2: Seq<Seq<char>>)
    requires
        letname_rel(ir, n, c1),
        extends(c2, c1),
    ensures
        letname_rel(ir, n, c2),
    decreases n,
{
    match n {
        LetName::Ident(_) => {},
        LetName::ArrayDestructure(v) => {
            if let IrLetPattern::Array(w) = ir {
                assert(letnames_rel(w@, v@, c1));
                assert forall|i: int| 0 <= i < v@.len() implies letname_rel(
                    w@[i],
                    #[trigger] v@[i],
                    c2,
                ) by {
                    assert(letname_rel(w@[i], v@[i], c1));
                    lemma_letname_rel_mono(w@[i], v@[i], c1, c2);
                }
                assert(letnames_rel(w@, v@, c2));
            }
        },
        LetName::TupleDestructure(v) => {
            if let IrLetPattern::Tuple(w) = ir {
                assert(letnames_rel(w@, v@, c1));
                assert forall|i: int| 0 <= i < v@.len() implies letname_rel(
                    w@[i],
                    #[trigger] v@[i],
                    c2,
                ) by {
                    assert(letname_rel(w@[i], v@[i], c1));
                    lemma_letname_rel_mono(w@[i], v@[i], c1, c2);
                }
                assert(letnames_rel(w@, v@, c2));
            }
        },
        LetName::StructDestructure(_, _) => {},
    }
}

pub proof fn lemma_expr_rel_mono(ir: IrExpr, e: Expr, c1: Seq<Seq<char>>, c2: Seq<Seq<char>>)
    requires
        expr_rel(ir, e, c1),
        extends(c2, c1),
    ensures
        expr_rel(ir, e, c2),
    decreases e,
{
    match e {
        Expr::Literal(l) => {
            if let IrExpr::Literal(il) = ir {
                assert(lit_rel(il, l, c1));
                lemma_lit_rel_mono(il, l, c1, c2);
            }
        },
        Expr::Ident(_) => {},
        Expr::Array(v) => {
            if let IrExpr::Array(w) = ir {
                assert(exprs_rel(w@, v@, c1));
                assert forall|i: int| 0 <= i < v@.len() implies expr_rel(
                    w@[i],
                    #[trigger] v@[i],
                    c2,
                ) by {
                    assert(expr_rel(w@[i], v@[i], c1));
                    lemma_expr_rel_mono(w@[i], v@[i], c1, c2);
                }
                assert(exprs_rel(w@, v@, c2));
            }
        },
        Expr::Tuple(v) => {
            if let IrExpr::Tuple(w) = ir {
                assert(exprs_rel(w@, v@, c1));
                assert forall|i: int| 0 <= i < v@.len() implies expr_rel(
                    w@[i],
                    #[trigger] v@[i],
                    c2,
                ) by {
                    assert(expr_rel(w@[i], v@[i], c1));
                    lemma_expr_rel_mono(w@[i], v@[i], c1, c2);
                }
                assert(exprs_rel(w@, v@, c2));
            }
        },
        Expr::Call(f, a) => {
            if let IrExpr::Call(g, b) = ir {
                assert(expr_rel(*g, *f, c1));
                lemma_expr_rel_mono(*g, *f, c1, c2);
                assert(exprs_rel(b@, a@, c1));
                assert forall|i: int| 0 <= i < a@.len() implies expr_rel(
                    b@[i],
                    #[trigger] a@[i],
                    c2,
                ) by {
                    assert(expr_rel(b@[i], a@[i], c1));
                    lemma_expr_rel_mono(b@[i], a@[i], c1, c2);
                }
                assert(exprs_rel(b@, a@, c2));
            }
        },
        Expr::Binary(l, _, r) => {
            if let IrExpr::Binary(il, _, irr) = ir {
                assert(expr_rel(*il, *l, c1));
                lemma_expr_rel_mono(*il, *l, c1, c2);
                assert(expr_rel(*irr, *r, c1));
                lemma_expr_rel_mono(*irr, *r, c1, c2);
            }
        },
        Expr::Unary(_, x) => {
            if let IrExpr::Unary(_, y) = ir {
                assert(expr_rel(*y, *x, c1));
                lemma_expr_rel_mono(*y, *x, c1, c2);
            }
        },
        Expr::Index(a, b) => {
            if let IrExpr::Index(x, y) = ir {
                assert(expr_rel(*x, *a, c1));
                lemma_expr_rel_mono(*x, *a, c1, c2);
                assert(expr_rel(*y, *b, c1));
                lemma_expr_rel_mono(*y, *b, c1, c2);
            }
        },
        Expr::FieldAccess(o, _) => {
            if let IrExpr::FieldAccess(io, _) = ir {
                assert(expr_rel(*io, *o, c1));
                lemma_expr_rel_mono(*io, *o, c1, c2);
            }
        },
        _ => {},
    }
}

pub proof fn lemma_lit_rel_mono(ir: IrLiteral, l: Literal, c1: Seq<Seq<char>>, c2: Seq<Seq<char>>)
    requires
        lit_rel(ir, l, c1),
        extends(c2, c1),
    ensures
        lit_rel(ir, l, c2),
    decreases l,
{
    if let Literal::String(parts) = l {
        if let IrLiteral::String(ip) = ir {
            assert(pparts_rel(ip@, parts@, c1));
            assert forall|i: int| 0 <= i < parts@.len() implies ppart_rel(
                ip@[i],
                #[trigger] parts@[i],
                c2,
            ) by {
                let p = parts@[i];
                if let ParserStringPart::Expression(e) = p {
                    if let IrStringPart::Expression(ie) = ip@[i] {
                        assert(expr_rel(ie, e, c1));
                        lemma_expr_rel_mono(ie, e, c1, c2);
                    }
                }
            }
            assert(pparts_rel(ip@, parts@, c2));
        }
    }
}

pub proof fn lemma_stmt_rel_mono(ir: IrStatement, s: Statement, c1: Seq<Seq<char>>, c2: Seq<Seq<char>>)
    requires
        stmt_rel(ir, s, c1),
        extends(c2, c1),
    ensures
        stmt_rel(ir, s, c2),
    decreases s,
{
    match s {
        Statement::FnDecl { name, is_async, params, return_type, body } => {
            if let IrStatement::FnDecl {
                name: _,
                is_async: _,
                params: iparams,
                return_type: iret,
                body: ibody,
            } = ir {
                assert(params_rel(iparams@, params@, c1));
                assert forall|i: int| 0 <= i < params@.len() implies param_rel(
                    iparams@[i],
                    #[trigger] params@[i],
                    c2,
                ) by {
                    assert(opt_type_rel(iparams@[i].1, params@[i].1, c1));
                    lemma_opt_type_rel_mono(iparams@[i].1, params@[i].1, c1, c2);
                }
                assert(params_rel(iparams@, params@, c2));
                assert(opt_type_rel(iret, return_type, c1));
                lemma_opt_type_rel_mono(iret, return_type, c1, c2);
                assert(stmts_rel(ibody@, body@, c1));
                assert forall|i: int| 0 <= i < body@.len() implies stmt_rel(
                    ibody@[i],
                    #[trigger] body@[i],
                    c2,
                ) by {
                    assert(stmt_rel(ibody@[i], body@[i], c1));
                    lemma_stmt_rel_mono(ibody@[i], body@[i], c1, c2);
                }
                assert(stmts_rel(ibody@, body@, c2));
            }
        },
        Statement::Let { atomic: _, lazy: _, mutable: _, name, ty, value } => {
            if let IrStatement::Let {
                atomic: _,
                lazy: _,
                mutable: _,
                name: iname,
                ty: ity,
                value: ivalue,
            } = ir {
                assert(letname_rel(iname, name, c1));
                lemma_letname_rel_mono(iname, name, c1, c2);
                assert(opt_type_rel(ity, ty, c1));
                lemma_opt_type_rel_mono(ity, ty, c1, c2);
                assert(expr_rel(ivalue, value, c1));
                lemma_expr_rel_mono(ivalue, value, c1, c2);
            }
        },
        Statement::Expr(e) => {
            if let IrStatement::Expr(ie) = ir {
                assert(expr_rel(ie, e, c1));
                lemma_expr_rel_mono(ie, e, c1, c2);
            }
        },
        Statement::Return(e) => {
            if let IrStatement::Return(ie) = ir {
                assert(expr_rel(ie, e, c1));
                lemma_expr_rel_mono(ie, e, c1, c2);
            }
        },
        _ => {},
    }
}

// ---------------------------------------------------------------------------
// The pass itself
// ---------------------------------------------------------------------------

/// One lowering session: the scoped symbol table with its interning session.
pub struct LoweringContext {
    pub symbols: SymbolTable,
}

impl LoweringContext {
    /// The session's interner and table are in shape.
    pub open spec fn wf(&self) -> bool {
        self.symbols.wf()
    }

    /// The interner contents of this session.
    pub open spec fn contents(&self) -> Seq<Seq<char>> {
        self.symbols.contents()
    }

    /// A fresh lowering session over the given interning session.
    pub fn new(interner: Interner) -> (r: Self)
        requires
            distinct_strings(crate::ir::interner::interner_strings(&interner)),
        ensures
            r.wf(),
            r.contents() == crate::ir::interner::interner_strings(&interner),
    {
        LoweringContext { symbols: SymbolTable::new(interner) }
    }

    /// Interns one name and hands back a symbol that resolves to it.
    fn intern_name(&mut self, name: &str) -> (sym: Symbol)
        requires
            old(self).wf(),
            old(self).contents().len() < interner_capacity(),
        ensures
            final(self).wf(),
            extends(final(self).contents(), old(self).contents()),
            final(self).contents().len() <= old(self).contents().len() + 1,
            final(self).contents() == intern_contents(old(self).contents(), name@),
            sym.0 as int == intern_sym(old(self).contents(), name@),
            resolves(final(self).contents(), sym, name@),
    {
        proof {
            crate::ir::interner::lemma_intern(self.symbols.contents(), name@);
        }
        self.symbols.get_or_intern(name)
    }

    /// Lowers a type expression, interning every type name in it.
    fn lower_type(&mut self, ty: Type) -> (r: IrType)
        requires
            old(self).wf(),
            old(self).contents().len() + type_size(ty) <= interner_capacity(),
        ensures
            final(self).wf(),
            extends(final(self).contents(), old(self).contents()),
            final(self).contents().len() <= old(self).contents().len() + type_size(ty),
            final(self).contents() == type_interned(old(self).contents(), ty),
            type_rel(r, ty, final(self).contents()),
        decreases type_size(ty), 0int,
    {
        let ghost c_in = self.contents();
        match ty {
            Type::Ident(name) => {
                let sym = self.intern_name(name.as_str());
                IrType::Ident(sym)
            },
            Type::Tuple(v) => {
                let out = self.lower_types(v);
                IrType::Tuple(out)
            },
            Type::Array(v) => {
                let out = self.lower_types(v);
                IrType::Array(out)
            },
            Type::Function(a, r0) => {
                let out = self.lower_types(a);
                let ghost c_mid = self.contents();
                let ret = self.lower_type(*r0);
                proof {
                    lemma_extends_trans(self.contents(), c_mid, c_in);
                    lemma_types_rel_mono_all(out@, a@, c_mid, self.contents());
                }
                IrType::Function(out, Box::new(ret))
            },
            Type::AsyncFunction(a, r0) => {
                let out = self.lower_types(a);
                let ghost c_mid = self.contents();
                let ret = self.lower_type(*r0);
                proof {
                    lemma_extends_trans(self.contents(), c_mid, c_in);
                    lemma_types_rel_mono_all(out@, a@, c_mid, self.contents());
                }
                IrType::AsyncFunction(out, Box::new(ret))
            },
            Type::Awaitable(inner) => {
                let out = self.lower_type(*inner);
                IrType::Awaitable(Box::new(out))
            },
        }
    }

    /// Lowers a list of type expressions in order.
    fn lower_types(&mut self, v: Vec<Type>) -> (r: Vec<IrType>)
        requires
            old(self).wf(),
            old(self).contents().len() + types_size(v@) <= interner_capacity(),
        ensures
            final(self).wf(),
            extends(final(self).contents(), old(self).contents()),
            final(self).contents().len() <= old(self).contents().len() + types_size(v@),
            final(self).contents() == types_interned(old(self).contents(), v@),
            types_rel(r@, v@, final(self).contents()),
        decreases types_size(v@), 1int,
    {
        let ghost c_in = self.contents();
        let ghost items0 = v@;
        let mut v = v;
        if v.len() == 0 {
            proof {
                assert(types_rel(Seq::<IrType>::empty(), items0, self.contents()));
            }
            return Vec::new();
        }
        let first = v.remove(0);
        proof {
            assert(first == items0[0]);
            assert(v@ =~= items0.drop_first());
        }
        let ir = self.lower_type(first);
        let ghost c_mid = self.contents();
        let mut rest_ir = self.lower_types(v);
        proof {
            lemma_extends_trans(self.contents(), c_mid, c_in);
            assert(type_rel(ir, items0[0], c_mid));
            lemma_type_rel_mono(ir, items0[0], c_mid, self.contents());
        }
        let ghost ir_v = ir;
        let mut out: Vec<IrType> = Vec::new();
        out.push(ir);
        let ghost rest_v = rest_ir@;
        out.append(&mut rest_ir);
        proof {
            assert(out@ =~= seq![ir_v] + rest_v);
            assert(types_rel(rest_v, items0.drop_first(), self.contents()));
            assert forall|i: int| 0 <= i < items0.len() implies type_rel(
                out@[i],
                #[trigger] items0[i],
                self.contents(),
            ) by {
                if i == 0 {
                    assert(out@[0] == ir_v);
                } else {
                    assert(out@[i] == rest_v[i - 1]);
                    assert(items0.drop_first()[i - 1] == items0[i]);
                    assert(type_rel(rest_v[i - 1], items0.drop_first()[i - 1], self.contents()));
                }
            }
            assert(types_rel(out@, items0, self.contents()));
        }
        out
    }

    /// Lowers an optional type annotation.
    fn lower_opt_type(&mut self, ty: Option<Type>) -> (r: Option<IrType>)
        requires
            old(self).wf(),
            old(self).contents().len() + opt_type_size(ty) <= interner_capacity(),
        ensures
            final(self).wf(),
            extends(final(self).contents(), old(self).contents()),
            final(self).contents().len() <= old(self).contents().len() + opt_type_size(ty),
            final(self).contents() == opt_type_interned(old(self).contents(), ty),
            opt_type_rel(r, ty, final(self).contents()),
        decreases opt_type_size(ty), 1int,
    {
        match ty {
            Option::Some(t) => Option::Some(self.lower_type(t)),
            Option::None => Option::None,
        }
    }

    /// Lowers a `let` binding shape, interning every bound name.
    fn lower_let_pattern(&mut self, name: LetName) -> (r: IrLetPattern)
        requires
            old(self).wf(),
            old(self).contents().len() + letname_size(name) <= interner_capacity(),
        ensures
            final(self).wf(),
            extends(final(self).contents(), old(self).contents()),
            final(self).contents().len() <= old(self).contents().len() + letname_size(name),
            final(self).contents() == letname_interned(old(self).contents(), name),
            letname_rel(r, name, final(self).contents()),
        decreases letname_size(name), 0int,
    {
        let ghost c_in = self.contents();
        match name {
            LetName::Ident(n) => {
                let sym = self.intern_name(n.as_str());
                IrLetPattern::Ident(sym)
            },
            LetName::ArrayDestructure(v) => {
                let out = self.lower_let_patterns(v);
                IrLetPattern::Array(out)
            },
            LetName::TupleDestructure(v) => {
                let out = self.lower_let_patterns(v);
                IrLetPattern::Tuple(out)
            },
            LetName::StructDestructure(n, fields) => {
                let sym = self.intern_name(n.as_str());
                let ghost c_sym = self.contents();
                let out = self.lower_fields(fields);
                proof {
                    lemma_extends_trans(self.contents(), c_sym, c_in);
                }
                IrLetPattern::Struct(sym, out)
            },
        }
    }

    /// Lowers a list of binding shapes in order.
    fn lower_let_patterns(&mut self, v: Vec<LetName>) -> (r: Vec<IrLetPattern>)
        requires
            old(self).wf(),
            old(self).contents().len() + letnames_size(v@) <= interner_capacity(),
        ensures
            final(self).wf(),
            extends(final(self).contents(), old(self).contents()),
            final(self).contents().len() <= old(self).contents().len() + letnames_size(v@),
            final(self).contents() == letnames_interned(old(self).contents(), v@),
            letnames_rel(r@, v@, final(self).contents()),
        decreases letnames_size(v@), 1int,
    {
        let ghost c_in = self.contents();
        let ghost items0 = v@;
        let mut v = v;
        if v.len() == 0 {
            proof {
                assert(letnames_rel(Seq::<IrLetPattern>::empty(), items0, self.contents()));
            }
            return Vec::new();
        }
        let first = v.remove(0);
        proof {
            assert(first == items0[0]);
            assert(v@ =~= items0.drop_first());
        }
        let ir = self.lower_let_pattern(first);
        let ghost c_mid = self.contents();
        let mut rest_ir = self.lower_let_patterns(v);
        proof {
            lemma_extends_trans(self.contents(), c_mid, c_in);
            assert(letname_rel(ir, items0[0], c_mid));
            lemma_letname_rel_mono(ir, items0[0], c_mid, self.contents());
        }
        let ghost ir_v = ir;
        let mut out: Vec<IrLetPattern> = Vec::new();
        out.push(ir);
        let ghost rest_v = rest_ir@;
        out.append(&mut rest_ir);
        proof {
            assert(out@ =~= seq![ir_v] + rest_v);
            assert(letnames_rel(rest_v, items0.drop_first(), self.contents()));
            assert forall|i: int| 0 <= i < items0.len() implies letname_rel(
                out@[i],
                #[trigger] items0[i],
                self.contents(),
            ) by {
                if i == 0 {
                    assert(out@[0] == ir_v);
                } else {
                    assert(out@[i] == rest_v[i - 1]);
                    assert(items0.drop_first()[i - 1] == items0[i]);
                    assert(letname_rel(rest_v[i - 1], items0.drop_first()[i - 1], self.contents()));
                }
            }
            assert(letnames_rel(out@, items0, self.contents()));
        }
        out
    }

    /// Interns the field names of a struct-shaped binding, in order.
    fn lower_fields(&mut self, fields: Vec<(String, Option<String>)>) -> (r: Vec<
        (Symbol, Option<Symbol>),
    >)
        requires
            old(self).wf(),
            old(self).contents().len() + 2 * fields@.len() <= interner_capacity(),
        ensures
            final(self).wf(),
            extends(final(self).contents(), old(self).contents()),
            final(self).contents().len() <= old(self).contents().len() + 2 * fields@.len(),
            final(self).contents() == fields_interned(old(self).contents(), fields@),
            r@.len() == fields@.len(),
            ({
                let c = final(self).contents();
                forall|i: int| 0 <= i < fields@.len() ==> field_rel(#[trigger] r@[i], fields@[i], c)
            }),
        decreases fields@.len(),
    {
        let ghost c_in = self.contents();
        let ghost items0 = fields@;
        let mut fields = fields;
        if fields.len() == 0 {
            return Vec::new();
        }
        let (k, ov) = fields.remove(0);
        proof {
            assert((k, ov) == items0[0]);
            assert(fields@ =~= items0.drop_first());
        }
        let ks = self.intern_name(k.as_str());
        let ghost c_k = self.contents();
        let vs = match ov {
            Option::Some(vn) => Option::Some(self.intern_name(vn.as_str())),
            Option::None => Option::None,
        };
        let ghost c_mid = self.contents();
        proof {
            lemma_extends_trans(self.contents(), c_k, c_in);
        }
        let mut rest_ir = self.lower_fields(fields);
        proof {
            lemma_extends_trans(self.contents(), c_mid, c_in);
            assert(field_rel((ks, vs), items0[0], c_mid));
        }
        let mut out: Vec<(Symbol, Option<Symbol>)> = Vec::new();
        out.push((ks, vs));
        let ghost rest_v = rest_ir@;
        out.append(&mut rest_ir);
        proof {
            assert(out@ =~= seq![(ks, vs)] + rest_v);
            assert forall|i: int| 0 <= i < items0.len() implies field_rel(
                #[trigger] out@[i],
                items0[i],
                self.contents(),
            ) by {
                if i == 0 {
                    assert(out@[0] == (ks, vs));
                } else {
                    assert(out@[i] == rest_v[i - 1]);
                    assert(items0.drop_first()[i - 1] == items0[i]);
                    assert(field_rel(rest_v[i - 1], items0.drop_first()[i - 1], self.contents()));
                }
            }
        }
        out
    }

    /// Lowers one expression; a construct outside the implemented subset
    /// fails with the not-implemented signal carrying that construct.
    fn lower_expr(&mut self, expr: Expr) -> (r: Result<IrExpr, LoweringError>)
        requires
            old(self).wf(),
            old(self).contents().len() + expr_size(expr) <= interner_capacity(),
        ensures
            final(self).wf(),
            extends(final(self).contents(), old(self).contents()),
            final(self).contents().len() <= old(self).contents().len() + expr_size(expr),
            r is Ok <==> expr_supported(expr),
            r is Ok ==> final(self).contents() == expr_interned(old(self).contents(), expr),
            r matches Ok(ir) ==> expr_rel(ir, expr, final(self).contents()),
            r matches Err(e) ==> e == expr_offender(expr) && e is NotImplementedExpression
                && error_carries_unimplemented(e),
        decreases expr_size(expr), 0int,
    {
        let ghost c_in = self.contents();
        match expr {
            Expr::Literal(lit) => match self.lower_literal(lit) {
                Ok(l) => Ok(IrExpr::Literal(l)),
                Err(e) => Err(e),
            },
            Expr::Ident(name) => {
                let sym = self.intern_name(name.as_str());
                Ok(IrExpr::Symbol(sym))
            },
            Expr::Array(items) => match self.lower_exprs(items) {
                Ok(out) => Ok(IrExpr::Array(out)),
                Err(e) => Err(e),
            },
            Expr::Tuple(items) => match self.lower_exprs(items) {
                Ok(out) => Ok(IrExpr::Tuple(out)),
                Err(e) => Err(e),
            },
            Expr::Call(f, args) => match self.lower_expr(*f) {
                Err(e) => Err(e),
                Ok(g) => {
                    let ghost c_mid = self.contents();
                    match self.lower_exprs(args) {
                        Err(e) => Err(e),
                        Ok(b) => {
                            proof {
                                lemma_extends_trans(self.contents(), c_mid, c_in);
                                lemma_expr_rel_mono(g, *f, c_mid, self.contents());
                            }
                            Ok(IrExpr::Call(Box::new(g), b))
                        },
                    }
                },
            },
            Expr::Binary(l, op, r0) => match self.lower_expr(*l) {
                Err(e) => Err(e),
                Ok(il) => {
                    let ghost c_mid = self.contents();
                    match self.lower_expr(*r0) {
                        Err(e) => Err(e),
                        Ok(irr) => {
                            proof {
                                lemma_extends_trans(self.contents(), c_mid, c_in);
                                lemma_expr_rel_mono(il, *l, c_mid, self.contents());
                            }
                            Ok(IrExpr::Binary(Box::new(il), op, Box::new(irr)))
                        },
                    }
                },
            },
            Expr::Unary(op, x) => match self.lower_expr(*x) {
                Err(e) => Err(e),
                Ok(y) => Ok(IrExpr::Unary(op, Box::new(y))),
            },
            Expr::Index(a, b) => match self.lower_expr(*a) {
                Err(e) => Err(e),
                Ok(x) => {
                    let ghost c_mid = self.contents();
                    match self.lower_expr(*b) {
                        Err(e) => Err(e),
                        Ok(y) => {
                            proof {
                                lemma_extends_trans(self.contents(), c_mid, c_in);
                                lemma_expr_rel_mono(x, *a, c_mid, self.contents());
                            }
                            Ok(IrExpr::Index(Box::new(x), Box::new(y)))
                        },
                    }
                },
            },
            Expr::FieldAccess(o, fname) => match self.lower_expr(*o) {
                Err(e) => Err(e),
                Ok(io) => {
                    let ghost c_mid = self.contents();
                    let sym = self.intern_name(fname.as_str());
                    proof {
                        lemma_extends_trans(self.contents(), c_mid, c_in);
                        lemma_expr_rel_mono(io, *o, c_mid, self.contents());
                    }
                    Ok(IrExpr::FieldAccess(Box::new(io), sym))
                },
            },
            other => Err(LoweringError::NotImplementedExpression(other)),
        }
    }

    /// Lowers a list of expressions in order, stopping at the first failure.
    fn lower_exprs(&mut self, v: Vec<Expr>) -> (r: Result<Vec<IrExpr>, LoweringError>)
        requires
            old(self).wf(),
            old(self).contents().len() + exprs_size(v@) <= interner_capacity(),
        ensures
            final(self).wf(),
            extends(final(self).contents(), old(self).contents()),
            final(self).contents().len() <= old(self).contents().len() + exprs_size(v@),
            r is Ok <==> exprs_supported(v@),
            r is Ok ==> final(self).contents() == exprs_interned(old(self).contents(), v@),
            r matches Ok(out) ==> exprs_rel(out@, v@, final(self).contents()),
            r matches Err(e) ==> e == exprs_offender(v@) && e is NotImplementedExpression
                && error_carries_unimplemented(e),
        decreases exprs_size(v@), 1int,
    {
        let ghost c_in = self.contents();
        let ghost items0 = v@;
        let mut v = v;
        if v.len() == 0 {
            proof {
                assert(exprs_rel(Seq::<IrExpr>::empty(), items0, self.contents()));
            }
            return Ok(Vec::new());
        }
        let first = v.remove(0);
        proof {
            assert(first == items0[0]);
            assert(v@ =~= items0.drop_first());
        }
        match self.lower_expr(first) {
            Err(e) => {
                proof {
                    assert(!expr_supported(items0[0]));
                }
                Err(e)
            },
            Ok(ir) => {
                let ghost c_mid = self.contents();
                match self.lower_exprs(v) {
                    Err(e) => {
                        proof {
                            lemma_extends_trans(self.contents(), c_mid, c_in);
                            if exprs_supported(items0) {
                                assert forall|w: int|
                                    0 <= w < items0.drop_first().len() implies expr_supported(
                                    #[trigger] items0.drop_first()[w],
                                ) by {
                                    assert(items0.drop_first()[w] == items0[w + 1]);
                                }
                                assert(exprs_supported(items0.drop_first()));
                                assert(false);
                            }
                        }
                        Err(e)
                    },
                    Ok(mut rest_ir) => {
                        proof {
                            lemma_extends_trans(self.contents(), c_mid, c_in);
                            assert(expr_rel(ir, items0[0], c_mid));
                            lemma_expr_rel_mono(ir, items0[0], c_mid, self.contents());
                        }
                        let ghost ir_v = ir;
                        let mut out: Vec<IrExpr> = Vec::new();
                        out.push(ir);
                        let ghost rest_v = rest_ir@;
                        out.append(&mut rest_ir);
                        proof {
                            assert(out@ =~= seq![ir_v] + rest_v);
                            assert(exprs_rel(rest_v, items0.drop_first(), self.contents()));
                            assert forall|i: int| 0 <= i < items0.len() implies expr_rel(
                                out@[i],
                                #[trigger] items0[i],
                                self.contents(),
                            ) by {
                                if i == 0 {
                                    assert(out@[0] == ir_v);
                                } else {
                                    assert(out@[i] == rest_v[i - 1]);
                                    assert(items0.drop_first()[i - 1] == items0[i]);
                                    assert(expr_rel(
                                        rest_v[i - 1],
                                        items0.drop_first()[i - 1],
                                        self.contents(),
                                    ));
                                }
                            }
                            assert(exprs_rel(out@, items0, self.contents()));
                            assert forall|i: int| 0 <= i < items0.len() implies expr_supported(
                                #[trigger] items0[i],
                            ) by {
                                if i > 0 {
                                    assert(expr_supported(items0.drop_first()[i - 1]));
                                }
                            }
                        }
                        Ok(out)
                    },
                }
            },
        }
    }

    /// Lowers one literal; the parts of a string literal are lowered with
    /// each embedded expression lowered like any other expression.
    fn lower_literal(&mut self, lit: Literal) -> (r: Result<IrLiteral, LoweringError>)
        requires
            old(self).wf(),
            old(self).contents().len() + lit_size(lit) <= interner_capacity(),
        ensures
            final(self).wf(),
            extends(final(self).contents(), old(self).contents()),
            final(self).contents().len() <= old(self).contents().len() + lit_size(lit),
            r is Ok <==> lit_supported(lit),
            r is Ok ==> final(self).contents() == lit_interned(old(self).contents(), lit),
            r matches Ok(ir) ==> lit_rel(ir, lit, final(self).contents()),
            r matches Err(e) ==> e == lit_offender(lit) && e is NotImplementedExpression
                && error_carries_unimplemented(e),
        decreases lit_size(lit), 1int,
    {
        match lit {
            Literal::Int(i) => Ok(IrLiteral::Int(i)),
            Literal::Float(f) => Ok(IrLiteral::Float(f)),
            Literal::Inf => Ok(IrLiteral::Inf),
            Literal::Bool(b) => Ok(IrLiteral::Bool(b)),
            Literal::String(parts) => match self.lower_parts(parts) {
                Ok(out) => Ok(IrLiteral::String(out)),
                Err(e) => Err(e),
            },
        }
    }

    /// Lowers the parts of a string literal in order.
    fn lower_parts(&mut self, v: Vec<ParserStringPart>) -> (r: Result<
        Vec<IrStringPart>,
        LoweringError,
    >)
        requires
            old(self).wf(),
            old(self).contents().len() + pparts_size(v@) <= interner_capacity(),
        ensures
            final(self).wf(),
            extends(final(self).contents(), old(self).contents()),
            final(self).contents().len() <= old(self).contents().len() + pparts_size(v@),
            r is Ok <==> pparts_supported(v@),
            r is Ok ==> final(self).contents() == pparts_interned(old(self).contents(), v@),
            r matches Ok(out) ==> pparts_rel(out@, v@, final(self).contents()),
            r matches Err(e) ==> e == pparts_offender(v@) && e is NotImplementedExpression
                && error_carries_unimplemented(e),
        decreases pparts_size(v@), 0int,
    {
        let ghost c_in = self.contents();
        let ghost items0 = v@;
        let mut v = v;
        if v.len() == 0 {
            proof {
                assert(pparts_rel(Seq::<IrStringPart>::empty(), items0, self.contents()));
            }
            return Ok(Vec::new());
        }
        let first = v.remove(0);
        proof {
            assert(first == items0[0]);
            assert(v@ =~= items0.drop_first());
        }
        let ir: IrStringPart = match first {
            ParserStringPart::Text(t) => IrStringPart::Text(t),
            ParserStringPart::Expression(e) => match self.lower_expr(e) {
                Err(err) => {
                    proof {
                        assert(!expr_supported(e));
                    }
                    return Err(err);
                },
                Ok(ie) => IrStringPart::Expression(ie),
            },
        };
        let ghost c_mid = self.contents();
        proof {
            assert(ppart_rel(ir, items0[0], c_mid));
        }
        match self.lower_parts(v) {
            Err(e) => {
                proof {
                    lemma_extends_trans(self.contents(), c_mid, c_in);
                    if pparts_supported(items0) {
                        assert forall|w: int| 0 <= w < items0.drop_first().len() implies (
                        match #[trigger] items0.drop_first()[w] {
                            ParserStringPart::Text(_) => true,
                            ParserStringPart::Expression(x) => expr_supported(x),
                        }) by {
                            assert(items0.drop_first()[w] == items0[w + 1]);
                            assert(match items0[w + 1] {
                                ParserStringPart::Text(_) => true,
                                ParserStringPart::Expression(x) => expr_supported(x),
                            });
                        }
                        assert(pparts_supported(items0.drop_first()));
                        assert(false);
                    }
                }
                Err(e)
            },
            Ok(mut rest_ir) => {
                proof {
                    lemma_extends_trans(self.contents(), c_mid, c_in);
                    if let ParserStringPart::Expression(e0) = items0[0] {
                        if let IrStringPart::Expression(ie0) = &ir {
                            assert(expr_rel(*ie0, e0, c_mid));
                            lemma_expr_rel_mono(*ie0, e0, c_mid, self.contents());
                        }
                    }
                    assert(ppart_rel(ir, items0[0], self.contents()));
                }
                let ghost ir_v = ir;
                let mut out: Vec<IrStringPart> = Vec::new();
                out.push(ir);
                let ghost rest_v = rest_ir@;
                out.append(&mut rest_ir);
                proof {
                    assert(out@ =~= seq![ir_v] + rest_v);
                    assert(pparts_rel(rest_v, items0.drop_first(), self.contents()));
                    assert forall|i: int| 0 <= i < items0.len() implies ppart_rel(
                        out@[i],
                        #[trigger] items0[i],
                        self.contents(),
                    ) by {
                        if i == 0 {
                            assert(out@[0] == ir_v);
                        } else {
                            assert(out@[i] == rest_v[i - 1]);
                            assert(items0.drop_first()[i - 1] == items0[i]);
                            assert(ppart_rel(
                                rest_v[i - 1],
                                items0.drop_first()[i - 1],
                                self.contents(),
                            ));
                        }
                    }
                    assert(pparts_rel(out@, items0, self.contents()));
                    assert forall|i: int| 0 <= i < items0.len() implies (match #[trigger] items0[i] {
                        ParserStringPart::Text(_) => true,
                        ParserStringPart::Expression(x) => expr_supported(x),
                    }) by {
                        if i > 0 {
                            assert(items0.drop_first()[i - 1] == items0[i]);
                            assert(match items0.drop_first()[i - 1] {
                                ParserStringPart::Text(_) => true,
                                ParserStringPart::Expression(x) => expr_supported(x),
                            });
                        }
                    }
                }
                Ok(out)
            },
        }
    }


    /// Lowers the parameter list of a function declaration, interning each
    /// parameter's name and lowering its annotation.
    fn lower_params(&mut self, v: Vec<(String, Option<Type>)>) -> (r: Vec<(Symbol, Option<IrType>)>)
        requires
            old(self).wf(),
            old(self).contents().len() + params_size(v@) <= interner_capacity(),
        ensures
            final(self).wf(),
            extends(final(self).contents(), old(self).contents()),
            final(self).contents().len() <= old(self).contents().len() + params_size(v@),
            final(self).contents() == params_interned(old(self).contents(), v@),
            params_rel(r@, v@, final(self).contents()),
        decreases params_size(v@), 2int,
    {
        let ghost c_in = self.contents();
        let ghost items0 = v@;
        let mut v = v;
        if v.len() == 0 {
            proof {
                assert(params_rel(Seq::<(Symbol, Option<IrType>)>::empty(), items0, self.contents()));
            }
            return Vec::new();
        }
        let (pname, pty) = v.remove(0);
        let ghost pty0 = pty;
        proof {
            assert((pname, pty) == items0[0]);
            assert(v@ =~= items0.drop_first());
        }
        let sym = self.intern_name(pname.as_str());
        let ghost c_sym = self.contents();
        let ity = self.lower_opt_type(pty);
        let ghost c_mid = self.contents();
        proof {
            lemma_extends_trans(self.contents(), c_sym, c_in);
        }
        let mut rest_ir = self.lower_params(v);
        proof {
            lemma_extends_trans(self.contents(), c_mid, c_in);
            assert(param_rel((sym, ity), items0[0], c_mid));
            lemma_opt_type_rel_mono(ity, pty0, c_mid, self.contents());
            assert(param_rel((sym, ity), items0[0], self.contents()));
        }
        let ghost ir_v = (sym, ity);
        let mut out: Vec<(Symbol, Option<IrType>)> = Vec::new();
        out.push((sym, ity));
        let ghost rest_v = rest_ir@;
        out.append(&mut rest_ir);
        proof {
            assert(out@ =~= seq![ir_v] + rest_v);
            assert(params_rel(rest_v, items0.drop_first(), self.contents()));
            assert forall|i: int| 0 <= i < items0.len() implies param_rel(
                out@[i],
                #[trigger] items0[i],
                self.contents(),
            ) by {
                if i == 0 {
                    assert(out@[0] == ir_v);
                } else {
                    assert(out@[i] == rest_v[i - 1]);
                    assert(items0.drop_first()[i - 1] == items0[i]);
                    assert(param_rel(rest_v[i - 1], items0.drop_first()[i - 1], self.contents()));
                }
            }
            assert(params_rel(out@, items0, self.contents()));
        }
        out
    }

    /// Lowers one statement; a construct outside the implemented subset
    /// fails with the not-implemented signal carrying that construct.
    fn lower_stmt(&mut self, stmt: Statement) -> (r: Result<IrStatement, LoweringError>)
        requires
            old(self).wf(),
            old(self).contents().len() + stmt_size(stmt) <= interner_capacity(),
        ensures
            final(self).wf(),
            extends(final(self).contents(), old(self).contents()),
            final(self).contents().len() <= old(self).contents().len() + stmt_size(stmt),
            r is Ok <==> stmt_supported(stmt),
            r is Ok ==> final(self).contents() == stmt_interned(old(self).contents(), stmt),
            r matches Ok(ir) ==> stmt_rel(ir, stmt, final(self).contents()),
            r matches Err(e) ==> e == stmt_offender(stmt) && error_carries_unimplemented(e),
        decreases stmt_size(stmt), 0int,
    {
        let ghost c_in = self.contents();
        match stmt {
            Statement::FnDecl { name, is_async, params, return_type, body } => {
                let ghost params0 = params@;
                let ghost rt0 = return_type;
                let ghost body0 = body@;
                let sym = self.intern_name(name.as_str());
                let ghost c_sym = self.contents();
                let iparams = self.lower_params(params);
                let ghost c_params = self.contents();
                proof {
                    lemma_extends_trans(self.contents(), c_sym, c_in);
                }
                let iret = self.lower_opt_type(return_type);
                let ghost c_ret = self.contents();
                proof {
                    lemma_extends_trans(self.contents(), c_params, c_in);
                }
                match self.lower_stmts(body) {
                    Err(e) => Err(e),
                    Ok(ibody) => {
                        proof {
                            lemma_extends_trans(self.contents(), c_ret, c_in);
                            lemma_extends_trans(self.contents(), c_ret, c_params);
                            lemma_params_rel_mono_all(iparams@, params0, c_params, self.contents());
                            lemma_opt_type_rel_mono(iret, rt0, c_ret, self.contents());
                        }
                        Ok(IrStatement::FnDecl {
                            name: sym,
                            is_async,
                            params: iparams,
                            return_type: iret,
                            body: ibody,
                        })
                    },
                }
            },
            Statement::Let { atomic, lazy, mutable, name, ty, value } => {
                let ghost n0 = name;
                let ghost ty0 = ty;
                let iname = self.lower_let_pattern(name);
                let ghost c_name = self.contents();
                let ity = self.lower_opt_type(ty);
                let ghost c_ty = self.contents();
                proof {
                    lemma_extends_trans(self.contents(), c_name, c_in);
                }
                match self.lower_expr(value) {
                    Err(e) => Err(e),
                    Ok(ivalue) => {
                        proof {
                            lemma_extends_trans(self.contents(), c_ty, c_in);
                            lemma_extends_trans(self.contents(), c_ty, c_name);
                            lemma_letname_rel_mono(iname, n0, c_name, self.contents());
                            lemma_opt_type_rel_mono(ity, ty0, c_ty, self.contents());
                        }
                        Ok(IrStatement::Let {
                            atomic,
                            lazy,
                            mutable,
                            name: iname,
                            ty: ity,
                            value: ivalue,
                        })
                    },
                }
            },
            Statement::Expr(e) => match self.lower_expr(e) {
                Err(err) => Err(err),
                Ok(ie) => Ok(IrStatement::Expr(ie)),
            },
            Statement::Return(e) => match self.lower_expr(e) {
                Err(err) => Err(err),
                Ok(ie) => Ok(IrStatement::Return(ie)),
            },
            Statement::Break => Ok(IrStatement::Break),
            other => Err(LoweringError::NotImplementedStatement(other)),
        }
    }

    /// Lowers a list of statements in order, stopping at the first failure.
    fn lower_stmts(&mut self, v: Vec<Statement>) -> (r: Result<Vec<IrStatement>, LoweringError>)
        requires
            old(self).wf(),
            old(self).contents().len() + stmts_size(v@) <= interner_capacity(),
        ensures
            final(self).wf(),
            extends(final(self).contents(), old(self).contents()),
            final(self).contents().len() <= old(self).contents().len() + stmts_size(v@),
            r is Ok <==> stmts_supported(v@),
            r is Ok ==> final(self).contents() == stmts_interned(old(self).contents(), v@),
            r matches Ok(out) ==> stmts_rel(out@, v@, final(self).contents()),
            r matches Err(e) ==> e == stmts_offender(v@) && error_carries_unimplemented(e),
        decreases stmts_size(v@), 1int,
    {
        let ghost c_in = self.contents();
        let ghost items0 = v@;
        let mut v = v;
        if v.len() == 0 {
            proof {
                assert(stmts_rel(Seq::<IrStatement>::empty(), items0, self.contents()));
            }
            return Ok(Vec::new());
        }
        let first = v.remove(0);
        proof {
            assert(first == items0[0]);
            assert(v@ =~= items0.drop_first());
        }
        match self.lower_stmt(first) {
            Err(e) => {
                proof {
                    assert(!stmt_supported(items0[0]));
                }
                Err(e)
            },
            Ok(ir) => {
                let ghost c_mid = self.contents();
                match self.lower_stmts(v) {
                    Err(e) => {
                        proof {
                            lemma_extends_trans(self.contents(), c_mid, c_in);
                            if stmts_supported(items0) {
                                assert forall|w: int|
                                    0 <= w < items0.drop_first().len() implies stmt_supported(
                                    #[trigger] items0.drop_first()[w],
                                ) by {
                                    assert(items0.drop_first()[w] == items0[w + 1]);
                                }
                                assert(stmts_supported(items0.drop_first()));
                                assert(false);
                            }
                        }
                        Err(e)
                    },
                    Ok(mut rest_ir) => {
                        proof {
                            lemma_extends_trans(self.contents(), c_mid, c_in);
                            assert(stmt_rel(ir, items0[0], c_mid));
                            lemma_stmt_rel_mono(ir, items0[0], c_mid, self.contents());
                        }
                        let ghost ir_v = ir;
                        let mut out: Vec<IrStatement> = Vec::new();
                        out.push(ir);
                        let ghost rest_v = rest_ir@;
                        out.append(&mut rest_ir);
                        proof {
                            assert(out@ =~= seq![ir_v] + rest_v);
                            assert(stmts_rel(rest_v, items0.drop_first(), self.contents()));
                            assert forall|i: int| 0 <= i < items0.len() implies stmt_rel(
                                out@[i],
                                #[trigger] items0[i],
                                self.contents(),
                            ) by {
                                if i == 0 {
                                    assert(out@[0] == ir_v);
                                } else {
                                    assert(out@[i] == rest_v[i - 1]);
                                    assert(items0.drop_first()[i - 1] == items0[i]);
                                    assert(stmt_rel(
                                        rest_v[i - 1],
                                        items0.drop_first()[i - 1],
                                        self.contents(),
                                    ));
                                }
                            }
                            assert(stmts_rel(out@, items0, self.contents()));
                            assert forall|i: int| 0 <= i < items0.len() implies stmt_supported(
                                #[trigger] items0[i],
                            ) by {
                                if i > 0 {
                                    assert(stmt_supported(items0.drop_first()[i - 1]));
                                }
                            }
                        }
                        Ok(out)
                    },
                }
            },
        }
    }

    /// Lowers a whole program: every statement in order, stopping at the
    /// first construct outside the implemented subset.
    pub fn lower_program(&mut self, program: Program) -> (r: Result<IrProgram, LoweringError>)
        requires
            old(self).wf(),
            old(self).contents().len() + stmts_size(program.statements@) <= interner_capacity(),
        ensures
            final(self).wf(),
            extends(final(self).contents(), old(self).contents()),
            final(self).contents().len() <= old(self).contents().len() + stmts_size(
                program.statements@,
            ),
            r is Ok <==> stmts_supported(program.statements@),
            r is Ok ==> final(self).contents() == stmts_interned(
                old(self).contents(),
                program.statements@,
            ),
            r matches Ok(ir) ==> prog_rel(ir, program, final(self).contents()),
            r matches Err(e) ==> e == stmts_offender(program.statements@)
                && error_carries_unimplemented(e),
    {
        match self.lower_stmts(program.statements) {
            Ok(out) => Ok(IrProgram { statements: out }),
            Err(e) => Err(e),
        }
    }

}

} // verus!
