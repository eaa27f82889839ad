use rox::alike::{same_declaration, same_exprs, same_stmts, same_tokens};
use rox::class::Class;
use rox::env::EnvRef;
use rox::expr::{
    AssignExpr, BinaryExpr, CallExpr, Expr, GetExpr, GroupExpr, LiteralExpr, LogicalExpr, SetExpr,
    UnaryExpr, VarExpr,
};
use rox::func::{CallableError, Function, LoxFunction, NativeFunction};
use rox::host::Host;
use rox::instance::InstanceRef;
use rox::interpreter::{Callable, Error, Interpreter, FULL_BUDGET};
use rox::lox::{duplicate_tokens, program, single_expression, Lox, LoxError};
use rox::number::Number;
use rox::parser::{for_loop_of, ParseError, Parser};
use rox::scanner::Scanner;
use rox::stmt::{
    BlockStmt, ClassStmt, ExprStmt, FunctionStmt, IfStmt, PrintStmt, ReturnStmt, Stmt, VarStmt,
    WhileStmt,
};
use rox::token::{Lexeme, Literal, Token, TokenType};
use rox::value::Value;
use std::rc::Rc;

struct Machine;

impl Host for Machine {
    fn parse_number(&self, numeral: &str) -> Number {
        Number::from_bits(numeral.parse::<f64>().unwrap().to_bits())
    }

    fn number_text(&self, n: Number) -> String {
        f64::from_bits(n.to_bits()).to_string()
    }

    fn sum(&self, a: Number, b: Number) -> Number {
        Number::from_bits((f64::from_bits(a.to_bits()) + f64::from_bits(b.to_bits())).to_bits())
    }

    fn difference(&self, a: Number, b: Number) -> Number {
        Number::from_bits((f64::from_bits(a.to_bits()) - f64::from_bits(b.to_bits())).to_bits())
    }

    fn product(&self, a: Number, b: Number) -> Number {
        Number::from_bits((f64::from_bits(a.to_bits()) * f64::from_bits(b.to_bits())).to_bits())
    }

    fn quotient(&self, a: Number, b: Number) -> Number {
        Number::from_bits((f64::from_bits(a.to_bits()) / f64::from_bits(b.to_bits())).to_bits())
    }

    fn call_native(&mut self, name: &str, args: &Vec<Value>) -> Result<Value, String> {
        match name {
            "clock" => Ok(Value::Number(Number::from_bits(7.0f64.to_bits()))),
            "first" => Ok(args[0].duplicate()),
            _ => Err(format!("unknown native function '{name}'")),
        }
    }
}

fn num(x: f64) -> Value {
    Value::Number(Number::from_bits(x.to_bits()))
}

fn lit(v: Value) -> Expr {
    Expr::Literal(LiteralExpr { value: v })
}

fn tok(typ: TokenType, text: &str) -> Token {
    Token { typ, lexeme: Lexeme::from(text), literal: None, line: 1 }
}

fn var(name: &str) -> Expr {
    Expr::Var(VarExpr { name: tok(TokenType::Identifier, name) })
}

fn tokens(prog: &str) -> Vec<Token> {
    Scanner::new(prog).scan_tokens(&Machine).unwrap()
}

fn parse(prog: &str) -> Vec<Stmt> {
    Parser::new(tokens(prog)).parse().unwrap()
}

fn words(value: &Value) -> String {
    match value {
        Value::Number(n) => f64::from_bits(n.to_bits()).to_string(),
        Value::String(s) => format!("\"{s}\""),
        Value::Bool(b) => b.to_string(),
        Value::Nil => "nil".to_string(),
        other => panic!("no literal: {other:?}"),
    }
}

fn show_expr(e: &Expr) -> String {
    match e {
        Expr::Binary(BinaryExpr { left, op, right }) => {
            format!("{} {} {}", show_expr(left), op.lexeme.as_str(), show_expr(right))
        }
        Expr::Logical(LogicalExpr { left, op, right }) => {
            format!("{} {} {}", show_expr(left), op.lexeme.as_str(), show_expr(right))
        }
        Expr::Literal(LiteralExpr { value }) => words(value),
        Expr::Unary(UnaryExpr { op, right }) => format!("{}{}", op.lexeme.as_str(), show_expr(right)),
        Expr::Group(GroupExpr { expr }) => format!("({})", show_expr(expr)),
        Expr::Var(VarExpr { name }) => name.lexeme.as_str().to_string(),
        Expr::Assign(AssignExpr { name, value }) => {
            format!("{} = {}", name.lexeme.as_str(), show_expr(value))
        }
        Expr::Call(CallExpr { callee, args, .. }) => {
            let shown: Vec<String> = args.iter().map(show_expr).collect();
            format!("{}({})", show_expr(callee), shown.join(", "))
        }
        Expr::Get(GetExpr { object, name }) => {
            format!("{}.{}", show_expr(object), name.lexeme.as_str())
        }
        Expr::SetProperty(SetExpr { object, name, value }) => {
            format!("{}.{} = {}", show_expr(object), name.lexeme.as_str(), show_expr(value))
        }
    }
}

fn show_stmt(s: &Stmt) -> String {
    match s {
        Stmt::Expr(ExprStmt { expr }) => format!("{};", show_expr(expr)),
        Stmt::Print(PrintStmt { expr }) => format!("print {};", show_expr(expr)),
        Stmt::Var(VarStmt { name, initializer }) => match initializer {
            Some(e) => format!("var {} = {};", name.lexeme.as_str(), show_expr(e)),
            None => format!("var {};", name.lexeme.as_str()),
        },
        Stmt::Block(BlockStmt { statements }) => format!("{{ {} }}", show_stmts(statements)),
        Stmt::If(IfStmt { condition, then_stmt, else_stmt }) => match else_stmt {
            Some(e) => {
                format!("if ({}) {} else {}", show_expr(condition), show_stmt(then_stmt), show_stmt(e))
            }
            None => format!("if ({}) {}", show_expr(condition), show_stmt(then_stmt)),
        },
        Stmt::While(WhileStmt { condition, body }) => {
            format!("while ({}) {}", show_expr(condition), show_stmt(body))
        }
        Stmt::Function(f) => format!("fun {}", show_function(f)),
        Stmt::Return(ReturnStmt { value, .. }) => format!("return {};", show_expr(value)),
        Stmt::Class(ClassStmt { name, methods }) => {
            let shown: Vec<String> = methods
                .iter()
                .map(|m| match m {
                    Stmt::Function(f) => show_function(f),
                    other => panic!("no method: {other:?}"),
                })
                .collect();
            format!("class {} {{ {} }}", name.lexeme.as_str(), shown.join(" "))
        }
    }
}

fn show_function(f: &FunctionStmt) -> String {
    let params: Vec<&str> = f.params.iter().map(|p| p.lexeme.as_str()).collect();
    format!("{}({}) {{ {} }}", f.name.lexeme.as_str(), params.join(", "), show_stmts(&f.body))
}

fn show_stmts(stmts: &Vec<Stmt>) -> String {
    let shown: Vec<String> = stmts.iter().map(show_stmt).collect();
    shown.join(" ")
}

#[test]
fn parsing_what_was_printed_gives_the_tree_again() {
    for prog in [
        "print 1 + 2 * 3 - (4 / 5);",
        "var a = 1; var b; a = b = a + 1;",
        "if (a < b and !c or d >= 2) print \"yes\"; else { print \"no\"; }",
        "while (i != 10) { i = i + 1; print i; }",
        "fun fib(n) { if (n <= 1) return n; return fib(n - 2) + fib(n - 1); } print fib(10);",
        "class Bagel { eat(a, b) { return a; } drop() { } } var b = Bagel(); b.x.y = b.z(1, 2)(3).w;",
        "for (var i = 0; i < 3; i = i + 1) print i;",
        "return;",
        "print -!-1 == nil != true;",
    ] {
        let first = parse(prog);
        let printed = show_stmts(&first);
        let second = parse(&printed);
        assert!(same_stmts(&first, &second), "{prog} printed as {printed}");
        assert_eq!(show_stmts(&second), printed);
    }
}

#[test]
fn trees_are_alike_when_shape_and_tokens_agree() {
    let a = parse("fun f(x) { return x + 1; }");
    let b = parse("fun f(x) { return x + 1; }");
    let on_another_line = parse("\nfun f(x) { return x + 1; }");
    let other_body = parse("fun f(x) { return x + 2; }");
    let other_params = parse("fun f(y) { return x + 1; }");
    assert!(same_stmts(&a, &b));
    assert!(!same_stmts(&a, &on_another_line));
    assert!(!same_stmts(&a, &other_body));
    assert!(!same_stmts(&a, &other_params));
    assert!(!same_stmts(&a, &vec![]));
    assert!(a[0].alike(&b[0]));
    match (&a[0], &b[0], &other_body[0]) {
        (Stmt::Function(x), Stmt::Function(y), Stmt::Function(z)) => {
            assert!(same_declaration(x, y));
            assert!(!same_declaration(x, z));
            assert!(same_tokens(&x.params, &y.params));
            let f = |d: &Rc<FunctionStmt>, frame: usize| {
                Value::Function(Function::LoxFunction(LoxFunction {
                    stmt: Rc::clone(d),
                    closure: EnvRef { frame, cursor: 0 },
                }))
            };
            assert!(f(x, 0).equals(&f(y, 5)));
            assert!(!f(x, 0).equals(&f(z, 0)));
        }
        _ => unreachable!(),
    }
    assert!(same_exprs(&vec![var("a"), lit(num(1.0))], &vec![var("a"), lit(num(1.0))]));
    assert!(!same_exprs(&vec![var("a")], &vec![var("b")]));
    assert!(!var("a").alike(&lit(Value::Nil)));
    assert!(!lit(num(f64::NAN)).alike(&lit(num(f64::NAN))));
}

#[test]
fn a_constant_expression_changes_nothing() {
    let mut int = Interpreter::new(Machine);
    int.interpret(&parse("var a = \"kept\"; class C {} var c = C();")).unwrap();
    let scope = int.swap_env(EnvRef { frame: 0, cursor: 0 });
    int.restore_env(scope);
    for text in ["1 + 2 * 3", "!(1 < 2) or nil", "\"a\" + \"b\" == \"ab\"", "-(1 / 4)", "1 / 0", "1(2)", "nil.x", "(1).x = 2"]
    {
        let expr = single_expression(tokens(text)).unwrap();
        let before = int.stdout().to_string();
        let _ = int.evaluate(&expr);
        assert_eq!(int.stdout(), before, "{text}");
        assert_eq!(int.evaluate(&var("a")), Ok(Value::from("kept")), "{text}");
    }
    assert_eq!(int.stdout(), "");
}

#[test]
fn evaluating_by_hand() {
    let mut int = Interpreter::new(Machine);
    assert_eq!(int.evaluate(&lit(num(2.0))), Ok(num(2.0)));
    let sum = Expr::binary(lit(num(2.0)), tok(TokenType::Plus, "+"), lit(num(3.0)));
    assert_eq!(int.evaluate(&sum), Ok(num(5.0)));
    assert_eq!(int.evaluate(&var("missing")).unwrap_err().message(), "undefined variable 'missing'");
    let stmt = Stmt::Print(PrintStmt { expr: Expr::group(sum) });
    int.execute(&stmt).unwrap();
    assert_eq!(int.stdout(), "5\n");
    assert_eq!(int.take_stdout(), "5\n");
    assert_eq!(int.stdout(), "");
    int.print_value(&Value::from("x"));
    int.write_line("y");
    assert_eq!(int.show_value(&Value::from("z")), "\"z\"");
    assert_eq!(int.stdout(), "x\ny\n\"z\"\n");
    assert_eq!(int.stderr(), "");
    let int = int.with_stderr("warned".to_string()).with_stdout("out".to_string());
    assert_eq!(int.stderr(), "warned");
    assert_eq!(int.stdout(), "out");
}

#[test]
fn a_block_has_its_own_scope() {
    let mut int = Interpreter::new(Machine);
    let body = parse("var inner = 1; print inner;");
    int.execute_block(&body).unwrap();
    assert!(int.evaluate(&var("inner")).is_err());
    let failing = parse("var inner = 2; print missing; print inner;");
    assert!(int.execute_block(&failing).is_err());
    int.interpret(&parse("var outer = 3;")).unwrap();
    assert_eq!(int.evaluate(&var("outer")), Ok(num(3.0)));
    assert_eq!(int.stdout(), "1\n");
}

#[test]
fn calling_functions_and_classes() {
    let mut int = Interpreter::new(Machine);
    int.interpret(&parse("fun twice(x) { return x + x; } fun none() { } fun dup(a, a) { }")).unwrap();
    let twice = match int.evaluate(&var("twice")).unwrap() {
        Value::Function(f) => f,
        other => panic!("{other:?}"),
    };
    assert_eq!(Callable::arity(&twice), 1);
    let twice = Value::Function(twice);
    assert_eq!(int.apply(&twice, vec![num(4.0)]), Ok(num(8.0)));
    assert_eq!(int.apply(&twice, vec![Value::from("ab")]), Ok(Value::from("abab")));
    let twice = match twice {
        Value::Function(f) => f,
        other => panic!("{other:?}"),
    };
    assert_eq!(
        int.call(&twice, vec![num(4.0)]),
        Err(CallableError::Call(Box::new(Error::TopLevelReturn)))
    );
    let none = match int.evaluate(&var("none")).unwrap() {
        Value::Function(f) => f,
        other => panic!("{other:?}"),
    };
    assert_eq!(int.call(&none, vec![]), Ok(Value::Nil));
    assert_eq!(Callable::call(&none, &mut int, vec![]), Ok(Value::Nil));
    let dup = match int.evaluate(&var("dup")).unwrap() {
        Value::Function(f) => f,
        other => panic!("{other:?}"),
    };
    match int.call(&dup, vec![Value::Nil, Value::Nil]) {
        Err(CallableError::Env(e)) => assert!(e.is_already_defined()),
        other => panic!("{other:?}"),
    }
    let failing = match int.apply(&Value::Function(twice), vec![Value::Nil]) {
        Err(Error::CallableError(e)) => e,
        other => panic!("{other:?}"),
    };
    assert!(matches!(failing, CallableError::Call(_)));
    assert!(failing.message().starts_with("call: expected two numbers or two strings"));

    let first = Function::Native(NativeFunction { name: "first".to_string(), arity: 1 });
    assert_eq!(int.call(&first, vec![num(9.0)]), Ok(num(9.0)));
    let unknown = Function::Native(NativeFunction { name: "nope".to_string(), arity: 0 });
    assert_eq!(
        int.call(&unknown, vec![]),
        Err(CallableError::Generic("unknown native function 'nope'".to_string()))
    );
    let stale = Function::LoxFunction(LoxFunction {
        stmt: Rc::new(FunctionStmt { name: tok(TokenType::Identifier, "f"), params: vec![], body: vec![] }),
        closure: EnvRef { frame: 999, cursor: 0 },
    });
    match int.call(&stale, vec![]) {
        Err(CallableError::Env(e)) => assert!(e.is_no_parent_env()),
        other => panic!("{other:?}"),
    }

    let class = Class::new("Thing").numbered(4);
    assert_eq!(Callable::arity(&class), 0);
    let made = Callable::call(&class, &mut int, vec![]).unwrap();
    let at = match &made {
        Value::Instance(at) => at.duplicate(),
        other => panic!("{other:?}"),
    };
    assert_eq!(at, InstanceRef { id: 0, class: Class::new("Thing").numbered(4) });
    let x = tok(TokenType::Identifier, "x");
    assert!(int.property(&at, &x).is_err());
    assert_eq!(int.set_property(&at, &x, num(1.0)), Ok(num(1.0)));
    assert_eq!(int.property(&at, &x), Ok(num(1.0)));
    let nowhere = InstanceRef { id: 77, class: Class::new("Thing") };
    assert!(int.property(&nowhere, &x).is_err());
    assert!(int.set_property(&nowhere, &x, Value::Nil).is_err());
    assert_eq!(int.instantiate(&class), Value::Instance(InstanceRef { id: 1, class: Class::new("Thing").numbered(4) }));
    assert_eq!(made.callable_arity(), None);
    assert_eq!(Value::Class(Class::new("A")).callable_arity(), Some(0));
    assert_eq!(Value::Function(first).callable_arity(), Some(1));
    assert!(Value::Class(Class::new("A")).is_callable());
    assert!(!Value::Nil.is_callable());
    assert!(Value::Nil.as_function().is_none());
}

#[test]
fn return_at_the_top_level_and_inside_a_call() {
    let mut int = Interpreter::new(Machine);
    let stmts = parse("return 1;");
    assert_eq!(int.interpret(&stmts), Err(Error::TopLevelReturn));
    assert_eq!(int.execute(&stmts[0]), Err(Error::TopLevelReturn));
    int.interpret(&parse("fun f() { while (true) { { return \"out\"; } } } var r = f();")).unwrap();
    assert_eq!(int.evaluate(&var("r")), Ok(Value::from("out")));
}

#[test]
fn the_budget_is_counted_in_steps() {
    let mut int = Interpreter::new(Machine).with_budget(0);
    assert_eq!(int.evaluate(&lit(Value::Nil)), Err(Error::Exhausted));
    let mut int = Interpreter::new(Machine).with_budget(2);
    let sum = Expr::binary(lit(num(2.0)), tok(TokenType::Plus, "+"), lit(num(3.0)));
    assert_eq!(int.evaluate(&sum), Err(Error::Exhausted));
    let mut int = Interpreter::new(Machine).with_budget(3);
    assert_eq!(int.evaluate(&sum), Ok(num(5.0)));
    assert_eq!(int.evaluate(&sum), Err(Error::Exhausted));
    assert_eq!(FULL_BUDGET, u64::MAX);
    assert_eq!(Error::Exhausted.message(), "the budget of steps is used up");
}

#[test]
fn the_driver_parses_tokens_as_an_expression_or_as_a_program() {
    let toks = tokens("1 + 1");
    assert_eq!(duplicate_tokens(&toks), toks);
    assert!(single_expression(duplicate_tokens(&toks)).is_some());
    assert_eq!(program(toks), Err(ParseError::Failed));
    assert!(single_expression(tokens("print 1;")).is_none());
    assert_eq!(program(tokens("print 1;")).unwrap().len(), 1);

    let mut lox = Lox::new(Machine);
    lox.run_tokens(tokens("var a = 2;")).unwrap();
    lox.run_tokens(tokens("a * a")).unwrap();
    assert_eq!(lox.run_tokens(tokens("a +")), Err(LoxError::Parse(ParseError::Failed)));
    assert_eq!(lox.take_output(), "4\n");
    assert_eq!(lox.output(), "");
    match lox.run("a = \"x") {
        Err(LoxError::Scan(e)) => assert_eq!(e.errs.len(), 1),
        other => panic!("{other:?}"),
    }
    assert_eq!(LoxError::Parse(ParseError::SingleEpxr).message(), "single expr required");
}

#[test]
fn writing_a_for_loop_out() {
    let body = Stmt::Print(PrintStmt { expr: var("i") });
    let plain = for_loop_of(None, lit(Value::Bool(true)), None, body);
    assert!(matches!(plain, Stmt::While(_)));
    let init = Stmt::Var(VarStmt { name: tok(TokenType::Identifier, "i"), initializer: None });
    let body = Stmt::Print(PrintStmt { expr: var("i") });
    let full = for_loop_of(Some(init), var("c"), Some(var("n")), body);
    match full {
        Stmt::Block(BlockStmt { statements }) => {
            assert_eq!(statements.len(), 2);
            assert!(matches!(statements[0], Stmt::Var(_)));
            match &statements[1] {
                Stmt::While(WhileStmt { body, .. }) => match &**body {
                    Stmt::Block(BlockStmt { statements }) => {
                        assert!(matches!(statements[0], Stmt::Print(_)));
                        assert!(matches!(statements[1], Stmt::Expr(_)));
                    }
                    other => panic!("{other:?}"),
                },
                other => panic!("{other:?}"),
            }
        }
        other => panic!("{other:?}"),
    }
}

#[test]
fn literals_become_values() {
    assert_eq!(Value::from_literal(Literal::Nil), Value::Nil);
    assert_eq!(Value::from_literal(Literal::Bool(true)), Value::Bool(true));
    assert_eq!(Value::from_literal(Literal::String("s".to_string())), Value::from("s"));
    assert_eq!(Value::from_literal(Literal::Number(Number::from_bits(3))), Value::Number(Number { bits: 3 }));
    assert_eq!(Lexeme::from("s").string(), Literal::String("s".to_string()));
    assert_eq!(Literal::Nil.duplicate(), Literal::Nil);
    assert_eq!(Lexeme::empty(), Lexeme::default());
}
