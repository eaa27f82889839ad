use rox::expr::{AssignExpr, Expr, GetExpr, LiteralExpr, SetExpr, VarExpr};
use rox::host::Host;
use rox::number::Number;
use rox::parser::{is_parsable, LineError, ParseError, Parser};
use rox::scanner::Scanner;
use rox::stmt::{BlockStmt, ExprStmt, PrintStmt, ReturnStmt, Stmt, VarStmt, WhileStmt};
use rox::token::{Lexeme, Token, TokenType};
use rox::value::Value;

struct Machine;

impl Host for Machine {
    fn parse_number(&self, numeral: &str) -> Number {
        Number::from_bits(numeral.parse::<f64>().unwrap().to_bits())
    }

    fn number_text(&self, n: Number) -> String {
        f64::from_bits(n.to_bits()).to_string()
    }

    fn sum(&self, a: Number, b: Number) -> Number {
        Number::from_bits((f64::from_bits(a.to_bits()) + f64::from_bits(b.to_bits())).to_bits())
    }

    fn difference(&self, a: Number, b: Number) -> Number {
        Number::from_bits((f64::from_bits(a.to_bits()) - f64::from_bits(b.to_bits())).to_bits())
    }

    fn product(&self, a: Number, b: Number) -> Number {
        Number::from_bits((f64::from_bits(a.to_bits()) * f64::from_bits(b.to_bits())).to_bits())
    }

    fn quotient(&self, a: Number, b: Number) -> Number {
        Number::from_bits((f64::from_bits(a.to_bits()) / f64::from_bits(b.to_bits())).to_bits())
    }

    fn call_native(&mut self, name: &str, _args: &Vec<Value>) -> Result<Value, String> {
        Err(format!("unknown native function '{name}'"))
    }
}

fn tokens(prog: &str) -> Vec<Token> {
    Scanner::new(prog).scan_tokens(&Machine).unwrap()
}

fn parse(prog: &str) -> Result<Vec<Stmt>, ParseError> {
    let toks = tokens(prog);
    assert!(is_parsable(&toks));
    Parser::new(toks).parse()
}

fn expr(prog: &str) -> Result<Expr, ParseError> {
    Parser::new(tokens(prog)).single_expr()
}

fn num(x: f64) -> Expr {
    Expr::Literal(LiteralExpr { value: Value::Number(Number::from_bits(x.to_bits())) })
}

fn ident(name: &str, line: usize) -> Token {
    Token { typ: TokenType::Identifier, lexeme: Lexeme::from(name), literal: None, line }
}

fn tok(typ: TokenType, text: &str) -> Token {
    Token { typ, lexeme: Lexeme::from(text), literal: None, line: 1 }
}

#[test]
fn assign() {
    let prog = "x=42;";
    let scanner = Scanner::new(prog);
    let tokens = scanner.scan_tokens(&Machine).unwrap();
    let mut parser = Parser::new(tokens);
    let stmts = parser.parse().unwrap();
    assert_eq!(
        stmts,
        vec![Stmt::Expr(ExprStmt {
            expr: Expr::Assign(AssignExpr {
                name: Token {
                    typ: TokenType::Identifier,
                    lexeme: Lexeme::from("x"),
                    literal: None,
                    line: 1
                },
                value: Box::new(Expr::Literal(LiteralExpr {
                    value: Value::Number(Number::from_bits(42.0f64.to_bits()))
                }))
            }),
        })]
    );
}

#[test]
fn set() {
    let prog = "foo.x=42;";
    let scanner = Scanner::new(prog);
    let tokens = scanner.scan_tokens(&Machine).unwrap();
    let mut parser = Parser::new(tokens);
    let stmts = parser.parse().unwrap();
    assert_eq!(
        stmts,
        vec![Stmt::Expr(ExprStmt {
            expr: Expr::SetProperty(SetExpr {
                object: Box::new(Expr::Var(VarExpr { name: ident("foo", 1) })),
                name: Token {
                    typ: TokenType::Identifier,
                    lexeme: Lexeme::from("x"),
                    literal: None,
                    line: 1
                },
                value: Box::new(Expr::Literal(LiteralExpr {
                    value: Value::Number(Number::from_bits(42.0f64.to_bits()))
                }))
            }),
        })]
    );
}

#[test]
fn binary_operators_lean_left_and_bind_by_level() {
    let got = expr("1 - 2 - 3 * 4").unwrap();
    let want = Expr::binary(
        Expr::binary(num(1.0), tok(TokenType::Minus, "-"), num(2.0)),
        tok(TokenType::Minus, "-"),
        Expr::binary(num(3.0), tok(TokenType::Star, "*"), num(4.0)),
    );
    assert_eq!(got, want);
}

#[test]
fn logical_operators_are_kept_apart() {
    let got = expr("a or b and c").unwrap();
    let var = |n: &str| Expr::Var(VarExpr { name: ident(n, 1) });
    let want = Expr::logical(
        var("a"),
        tok(TokenType::Or, "or"),
        Expr::logical(var("b"), tok(TokenType::And, "and"), var("c")),
    );
    assert_eq!(got, want);
}

#[test]
fn assignment_leans_right() {
    let got = expr("a = b = 1").unwrap();
    let want = Expr::Assign(AssignExpr {
        name: ident("a", 1),
        value: Box::new(Expr::Assign(AssignExpr { name: ident("b", 1), value: Box::new(num(1.0)) })),
    });
    assert_eq!(got, want);
}

#[test]
fn unary_group_and_get() {
    let got = expr("!(-a).b").unwrap();
    let want = Expr::unary(
        tok(TokenType::Bang, "!"),
        Expr::Get(GetExpr {
            object: Box::new(Expr::group(Expr::unary(
                tok(TokenType::Minus, "-"),
                Expr::Var(VarExpr { name: ident("a", 1) }),
            ))),
            name: ident("b", 1),
        }),
    );
    assert_eq!(got, want);
}

#[test]
fn invalid_assignment_target_is_an_error_at_the_equal_sign() {
    match expr("1 + 2\n= 3") {
        Err(ParseError::LineError(LineError::InvalidAssignment { token })) => {
            assert_eq!(token.typ, TokenType::Equal);
            assert_eq!(token.line, 2);
        }
        other => panic!("{other:?}"),
    }
    assert_eq!(parse("(a) = 3;"), Err(ParseError::Failed));
}

#[test]
fn single_expression_mode() {
    assert_eq!(expr("1"), Ok(num(1.0)));
    assert_eq!(expr("1;"), Err(ParseError::SingleEpxr));
    assert_eq!(expr("1 2"), Err(ParseError::SingleEpxr));
    assert_eq!(expr(")"), Err(ParseError::LineError(LineError::ExpectedExpr { line: 1 })));
    assert_eq!(
        expr("(1"),
        Err(ParseError::LineError(LineError::Expected {
            expected: TokenType::RightParen,
            actual: TokenType::Eof,
            line: 1
        }))
    );
    assert_eq!(
        expr("a.\n1"),
        Err(ParseError::LineError(
            LineError::Expected {
                expected: TokenType::Identifier,
                actual: TokenType::Number,
                line: 2
            }
            .context("expect property name after '.'")
        ))
    );
}

#[test]
fn for_is_written_out_as_while() {
    let got = parse("for (var i = 0; i < 2; i = i + 1) print i;").unwrap();
    let var_i = || Expr::Var(VarExpr { name: ident("i", 1) });
    let want = vec![Stmt::Block(BlockStmt {
        statements: vec![
            Stmt::Var(VarStmt { name: ident("i", 1), initializer: Some(num(0.0)) }),
            Stmt::While(WhileStmt {
                condition: Expr::binary(var_i(), tok(TokenType::Less, "<"), num(2.0)),
                body: Box::new(Stmt::Block(BlockStmt {
                    statements: vec![
                        Stmt::Print(PrintStmt { expr: var_i() }),
                        Stmt::Expr(ExprStmt {
                            expr: Expr::Assign(AssignExpr {
                                name: ident("i", 1),
                                value: Box::new(Expr::binary(
                                    var_i(),
                                    tok(TokenType::Plus, "+"),
                                    num(1.0),
                                )),
                            }),
                        }),
                    ],
                })),
            }),
        ],
    })];
    assert_eq!(got, want);
}

#[test]
fn for_without_clauses_loops_on_true() {
    let got = parse("for (;;) print 1;").unwrap();
    let want = vec![Stmt::While(WhileStmt {
        condition: Expr::Literal(LiteralExpr { value: Value::Bool(true) }),
        body: Box::new(Stmt::Print(PrintStmt { expr: num(1.0) })),
    })];
    assert_eq!(got, want);
}

#[test]
fn return_without_value_returns_nil() {
    let got = parse("return;").unwrap();
    let want = vec![Stmt::Return(ReturnStmt {
        keyword: tok(TokenType::Return, "return"),
        value: Expr::Literal(LiteralExpr { value: Value::Nil }),
    })];
    assert_eq!(got, want);
}

#[test]
fn errors_fail_the_whole_program() {
    assert_eq!(parse("var = 1; print 2;"), Err(ParseError::Failed));
    assert_eq!(parse("print 1"), Err(ParseError::Failed));
    assert_eq!(parse("{ print 1;"), Err(ParseError::Failed));
    assert_eq!(parse("class A { 1 }"), Err(ParseError::Failed));
    assert_eq!(parse("fun (a) {}"), Err(ParseError::Failed));
    assert!(parse("print 1; { var a; } fun f(a, b) { return a; } class A { m() {} }").is_ok());
    assert_eq!(parse("").unwrap(), vec![]);
}

#[test]
fn too_many_arguments_are_a_diagnostic() {
    let many = |n: usize| format!("f({});", vec!["1"; n].join(","));
    assert!(parse(&many(254)).is_ok());
    assert_eq!(parse(&many(255)), Err(ParseError::Failed));
    let params = |n: usize| {
        let names: Vec<String> = (0..n).map(|i| format!("p{i}")).collect();
        format!("fun f({}) {{}}", names.join(","))
    };
    assert!(parse(&params(254)).is_ok());
    assert_eq!(parse(&params(255)), Err(ParseError::Failed));
}

#[test]
fn tokens_without_an_end_cannot_be_parsed() {
    assert!(!is_parsable(&vec![]));
    assert!(!is_parsable(&vec![tok(TokenType::Nil, "nil")]));
    assert!(!is_parsable(&vec![tok(TokenType::Number, "1"), tok(TokenType::Eof, "")]));
    assert!(is_parsable(&vec![tok(TokenType::Nil, "nil"), tok(TokenType::Eof, "")]));
}

#[test]
fn syntax_error_messages() {
    let e = LineError::Expected { expected: TokenType::Semicolon, actual: TokenType::Eof, line: 3 };
    assert_eq!(e.message(), "line 3: expected Semicolon but was instead Eof");
    assert_eq!(LineError::ExpectedExpr { line: 10 }.message(), "line 10: expected expression");
    assert_eq!(
        LineError::TooManyArgs { token: ident("x", 7) }.message(),
        "line 7: too many args (max: 255)"
    );
    assert_eq!(
        LineError::TooManyParams { token: ident("x", 7) }.message(),
        "line 7: too many params (max: 255)"
    );
    assert_eq!(
        LineError::fn_kind(rox::parser::FunctionKind::Method, LineError::ExpectedExpr { line: 1 })
            .message(),
        "(Method): line 1: expected expression"
    );
    assert_eq!(
        LineError::ExpectedExpr { line: 1 }.context("here").message(),
        "here: line 1: expected expression"
    );
    assert_eq!(ParseError::Failed.message(), "parsing failed");
    assert_eq!(ParseError::SingleEpxr.message(), "single expr required");
}
