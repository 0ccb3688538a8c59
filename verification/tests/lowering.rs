use lira::ast::{Expr, LetName, Literal, Match, Program, Statement};
use lira::ir::IrStringPart;
use lira::parser::string::ParserStringPart;
use lira::ir::context::{LoweringContext, LoweringError};
use lira::ir::interner::Interner;
use lira::ir::table::{SymbolKind, SymbolTable};
use lira::ir::{IrExpr, IrLetPattern, IrLiteral, IrStatement};

#[test]
fn interning_is_idempotent_and_injective() {
    let mut interner = Interner::new();
    let a1 = interner.get_or_intern("alpha");
    let b1 = interner.get_or_intern("beta");
    let a2 = interner.get_or_intern("alpha");
    assert_eq!(a1, a2);
    assert_ne!(a1, b1);
    assert_eq!(interner.resolve(a1), Some("alpha"));
    assert_eq!(interner.resolve(b1), Some("beta"));
    assert_eq!(interner.get("alpha"), Some(a1));
    assert_eq!(interner.get("gamma"), None);
    assert_eq!(interner.len(), 2);
}

fn variable(name: &str) -> SymbolKind {
    SymbolKind::Variable {
        name: name.to_string(),
        ty: None,
    }
}

#[test]
fn shadowing_restores_the_outer_binding() {
    let mut table = SymbolTable::new(Interner::new());
    table.insert("x", variable("outer"));
    table.with_parent();
    let prior = table.insert("x", variable("inner"));
    // the outer binding is shadowed, not replaced in its own scope
    assert!(prior.is_none());
    match table.get("x") {
        Some(SymbolKind::Variable { name, .. }) => assert_eq!(name, "inner"),
        other => panic!("expected the child binding, got {other:?}"),
    }
    table.leave_scope();
    match table.get("x") {
        Some(SymbolKind::Variable { name, .. }) => assert_eq!(name, "outer"),
        other => panic!("expected the outer binding, got {other:?}"),
    }
    // a name bound only in a popped child scope is gone
    table.with_parent();
    table.insert("y", variable("child only"));
    assert!(table.contains("y"));
    table.leave_scope();
    assert!(!table.contains("y"));
    assert!(table.get("y").is_none());
}

#[test]
fn duplicate_declaration_in_one_scope_returns_the_prior() {
    let mut table = SymbolTable::new(Interner::new());
    assert!(table.insert("x", variable("first")).is_none());
    match table.insert("x", variable("second")) {
        Some(SymbolKind::Variable { name, .. }) => assert_eq!(name, "first"),
        other => panic!("expected the prior binding, got {other:?}"),
    }
    assert_eq!(table.all_symbols().len(), 1);
}

#[test]
fn expect_reports_unresolved_names() {
    let mut table = SymbolTable::new(Interner::new());
    table.insert("x", variable("x"));
    assert!(table.expect("x").is_ok());
    assert_eq!(
        table.expect("nope").unwrap_err(),
        "Unresolved symbol: `nope`".to_string()
    );
}

#[test]
fn lowering_let_interns_the_name() {
    let program = Program {
        statements: vec![Statement::Let {
            atomic: false,
            lazy: false,
            mutable: false,
            name: LetName::Ident("x".into()),
            ty: None,
            value: Expr::Literal(Literal::Int(1)),
        }],
    };
    let mut ctx = LoweringContext::new(Interner::new());
    let ir = ctx.lower_program(program).unwrap();
    assert_eq!(ir.statements.len(), 1);
    match &ir.statements[0] {
        IrStatement::Let { name, value, .. } => {
            match name {
                IrLetPattern::Ident(sym) => {
                    assert_eq!(ctx.symbols.interner.resolve(*sym), Some("x"));
                }
                other => panic!("expected a plain binding, got {other:?}"),
            }
            assert!(matches!(value, IrExpr::Literal(IrLiteral::Int(1))));
        }
        other => panic!("expected a lowered let, got {other:?}"),
    }
}

#[test]
fn lowering_an_unimplemented_statement_fails_naming_it() {
    let program = Program {
        statements: vec![Statement::Match(Match {
            expr: Expr::Ident("x".into()),
            arms: vec![],
        })],
    };
    let mut ctx = LoweringContext::new(Interner::new());
    match ctx.lower_program(program) {
        Err(LoweringError::NotImplementedStatement(Statement::Match(_))) => {}
        other => panic!("expected the not-implemented signal for match, got {other:?}"),
    }
}

#[test]
fn lowering_error_carries_the_nested_offending_node() {
    // the unsupported construct sits inside a supported `let`: the signal
    // carries that inner node, not the enclosing statement
    let program = Program {
        statements: vec![Statement::Let {
            atomic: false,
            lazy: false,
            mutable: false,
            name: LetName::Ident("x".into()),
            ty: None,
            value: Expr::Pipe(
                Box::new(Expr::Ident("a".into())),
                Box::new(Expr::Ident("b".into())),
            ),
        }],
    };
    let mut ctx = LoweringContext::new(Interner::new());
    match ctx.lower_program(program) {
        Err(LoweringError::NotImplementedExpression(Expr::Pipe(lhs, _))) => {
            assert!(matches!(*lhs, Expr::Ident(ref n) if n == "a"));
        }
        other => panic!("expected the signal to carry the pipe expression, got {other:?}"),
    }
}

#[test]
fn equal_names_lower_to_equal_symbols() {
    let program = Program {
        statements: vec![
            Statement::Let {
                atomic: false,
                lazy: false,
                mutable: false,
                name: LetName::Ident("x".into()),
                ty: None,
                value: Expr::Literal(Literal::Int(1)),
            },
            Statement::Expr(Expr::Ident("x".into())),
        ],
    };
    let mut ctx = LoweringContext::new(Interner::new());
    let ir = ctx.lower_program(program).unwrap();
    let bound = match &ir.statements[0] {
        IrStatement::Let {
            name: IrLetPattern::Ident(sym),
            ..
        } => sym,
        other => panic!("expected a lowered let, got {other:?}"),
    };
    match &ir.statements[1] {
        IrStatement::Expr(IrExpr::Symbol(used)) => assert_eq!(*used, *bound),
        other => panic!("expected a lowered use, got {other:?}"),
    }
}

#[test]
fn lowering_descends_into_string_parts() {
    let program = Program {
        statements: vec![Statement::Expr(Expr::Literal(Literal::String(vec![
            ParserStringPart::Text("n = ".into()),
            ParserStringPart::Expression(Expr::Ident("n".into())),
        ])))],
    };
    let mut ctx = LoweringContext::new(Interner::new());
    let ir = ctx.lower_program(program).unwrap();
    match &ir.statements[0] {
        IrStatement::Expr(IrExpr::Literal(IrLiteral::String(parts))) => {
            assert_eq!(parts.len(), 2);
            assert!(matches!(&parts[0], IrStringPart::Text(t) if t == "n = "));
            match &parts[1] {
                IrStringPart::Expression(IrExpr::Symbol(sym)) => {
                    assert_eq!(ctx.symbols.interner.resolve(*sym), Some("n"));
                }
                other => panic!("expected a lowered embedded expression, got {other:?}"),
            }
        }
        other => panic!("expected a lowered string literal, got {other:?}"),
    }
}
