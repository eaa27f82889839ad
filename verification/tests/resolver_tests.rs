use rox::expr::{Expr, ExprVisitor, LiteralExpr, VarExpr};
use rox::host::Host;
use rox::number::Number;
use rox::parser::Parser;
use rox::resolver::{Resolved, Resolver, ResolverError};
use rox::scanner::Scanner;
use rox::stmt::{ExprStmt, PrintStmt, Stmt, StmtVisitor};
use rox::token::{Lexeme, Token, TokenType};
use rox::value::Value;

struct Machine;

impl Host for Machine {
    fn parse_number(&self, numeral: &str) -> Number {
        Number::from_bits(numeral.parse::<f64>().unwrap().to_bits())
    }

    fn number_text(&self, n: Number) -> String {
        f64::from_bits(n.to_bits()).to_string()
    }

    fn sum(&self, a: Number, b: Number) -> Number {
        Number::from_bits((f64::from_bits(a.to_bits()) + f64::from_bits(b.to_bits())).to_bits())
    }

    fn difference(&self, a: Number, b: Number) -> Number {
        Number::from_bits((f64::from_bits(a.to_bits()) - f64::from_bits(b.to_bits())).to_bits())
    }

    fn product(&self, a: Number, b: Number) -> Number {
        Number::from_bits((f64::from_bits(a.to_bits()) * f64::from_bits(b.to_bits())).to_bits())
    }

    fn quotient(&self, a: Number, b: Number) -> Number {
        Number::from_bits((f64::from_bits(a.to_bits()) / f64::from_bits(b.to_bits())).to_bits())
    }

    fn call_native(&mut self, name: &str, _args: &Vec<Value>) -> Result<Value, String> {
        Err(format!("unknown native function '{name}'"))
    }
}

fn program(prog: &str) -> Vec<Stmt> {
    let tokens = Scanner::new(prog).scan_tokens(&Machine).unwrap();
    Parser::new(tokens).parse().unwrap()
}

fn resolve(prog: &str) -> Resolver {
    let mut resolver = Resolver::new();
    resolver.resolve_stmts(&program(prog));
    resolver
}

fn depths(resolver: &Resolver) -> Vec<(String, Option<usize>)> {
    resolver
        .resolutions()
        .iter()
        .map(|r| (r.name.lexeme.as_str().to_string(), r.depth))
        .collect()
}

fn ident(name: &str, line: usize) -> Token {
    Token { typ: TokenType::Identifier, lexeme: Lexeme::from(name), literal: None, line }
}

#[test]
fn globals_are_not_tracked() {
    let r = resolve("var a = 1; print a; a = 2;");
    assert_eq!(depths(&r), vec![("a".to_string(), None), ("a".to_string(), None)]);
    assert!(!r.failed());
}

#[test]
fn a_use_finds_the_nearest_scope_that_holds_its_name() {
    let r = resolve("var g; { var a; { var b; print a; print b; print g; { a = b; } } }");
    assert_eq!(
        depths(&r),
        vec![
            ("a".to_string(), Some(1)),
            ("b".to_string(), Some(0)),
            ("g".to_string(), None),
            ("b".to_string(), Some(1)),
            ("a".to_string(), Some(2)),
        ]
    );
    assert!(r.errors().is_empty());
}

#[test]
fn parameters_live_in_the_scope_of_the_function() {
    let r = resolve("fun f(x) { print x; { print x; } print f; }");
    assert_eq!(
        depths(&r),
        vec![("x".to_string(), Some(0)), ("x".to_string(), Some(1)), ("f".to_string(), None)]
    );
}

#[test]
fn reading_a_variable_in_its_own_initializer_is_objected_to() {
    let r = resolve("{ var a = \"outer\";\n{ var a = a; } }");
    assert!(r.failed());
    assert_eq!(r.errors(), &vec![ResolverError::OwnInitializer { token: ident("a", 2) }]);
    assert_eq!(
        r.errors()[0].message(),
        "line:2: can't read local variable in its own initializer;"
    );
    let fine = resolve("var a = 1; { var b = a; var c = b; }");
    assert!(!fine.failed());
}

#[test]
fn the_visitors_do_what_the_resolver_does() {
    let stmts = program("{ var a; print a; }");
    let mut by_visit = Resolver::new();
    for stmt in &stmts {
        stmt.accept(&mut by_visit);
    }
    let mut direct = Resolver::new();
    direct.resolve_stmts(&stmts);
    assert_eq!(by_visit.resolutions(), direct.resolutions());
    assert_eq!(by_visit.resolutions(), &vec![Resolved { name: ident("a", 1), depth: Some(0) }]);

    let mut r = Resolver::new();
    let e = Expr::Var(VarExpr { name: ident("x", 3) });
    e.accept(&mut r);
    r.visit_literal_expr(&LiteralExpr { value: Value::Nil });
    r.visit_print_stmt(&PrintStmt { expr: Expr::Var(VarExpr { name: ident("y", 4) }) });
    r.visit_expr_stmt(&ExprStmt { expr: Expr::literal(Value::Nil) });
    assert_eq!(
        r.resolutions(),
        &vec![
            Resolved { name: ident("x", 3), depth: None },
            Resolved { name: ident("y", 4), depth: None }
        ]
    );
}
