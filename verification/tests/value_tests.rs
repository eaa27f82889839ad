use rox::class::Class;
use rox::env::EnvRef;
use rox::func::{Function, LoxFunction, NativeFunction};
use rox::host::Host;
use rox::instance::{Fields, Instance, InstanceError, InstanceRef};
use rox::interpreter::{binary_op, is_short_circuit, unary_op, Callable, Error};
use rox::number::Number;
use rox::stmt::FunctionStmt;
use rox::text::decimal_string;
use rox::token::{Lexeme, Token, TokenType};
use rox::value::{Value, ValueError};
use std::rc::Rc;

struct Machine;

impl Host for Machine {
    fn parse_number(&self, numeral: &str) -> Number {
        Number::from_bits(numeral.parse::<f64>().unwrap().to_bits())
    }

    fn number_text(&self, n: Number) -> String {
        f64::from_bits(n.to_bits()).to_string()
    }

    fn sum(&self, a: Number, b: Number) -> Number {
        Number::from_bits((f64::from_bits(a.to_bits()) + f64::from_bits(b.to_bits())).to_bits())
    }

    fn difference(&self, a: Number, b: Number) -> Number {
        Number::from_bits((f64::from_bits(a.to_bits()) - f64::from_bits(b.to_bits())).to_bits())
    }

    fn product(&self, a: Number, b: Number) -> Number {
        Number::from_bits((f64::from_bits(a.to_bits()) * f64::from_bits(b.to_bits())).to_bits())
    }

    fn quotient(&self, a: Number, b: Number) -> Number {
        Number::from_bits((f64::from_bits(a.to_bits()) / f64::from_bits(b.to_bits())).to_bits())
    }

    fn call_native(&mut self, name: &str, _args: &Vec<Value>) -> Result<Value, String> {
        Err(format!("unknown native function '{name}'"))
    }
}

fn n(x: f64) -> Number {
    Number::from_bits(x.to_bits())
}

fn num(x: f64) -> Value {
    Value::Number(n(x))
}

fn op(typ: TokenType, text: &str) -> Token {
    Token { typ, lexeme: Lexeme::from(text), literal: None, line: 4 }
}

fn function(name: &str, line: usize) -> Value {
    Value::Function(Function::LoxFunction(LoxFunction {
        stmt: Rc::new(FunctionStmt {
            name: Token { typ: TokenType::Identifier, lexeme: Lexeme::from(name), literal: None, line },
            params: vec![],
            body: vec![],
        }),
        closure: EnvRef { frame: 0, cursor: 0 },
    }))
}

fn samples() -> Vec<f64> {
    vec![
        0.0,
        -0.0,
        1.0,
        -1.0,
        0.5,
        -2.5,
        1e308,
        -1e308,
        5e-324,
        -5e-324,
        f64::INFINITY,
        f64::NEG_INFINITY,
        f64::NAN,
        -f64::NAN,
        f64::MAX,
        f64::MIN_POSITIVE,
    ]
}

#[test]
fn number_comparisons_are_those_of_the_machine() {
    for a in samples() {
        for b in samples() {
            assert_eq!(n(a).equals(&n(b)), a == b, "{a} == {b}");
            assert_eq!(n(a).less(&n(b)), a < b, "{a} < {b}");
            assert_eq!(n(a).less_equal(&n(b)), a <= b, "{a} <= {b}");
            assert_eq!(n(a).greater(&n(b)), a > b, "{a} > {b}");
            assert_eq!(n(a).greater_equal(&n(b)), a >= b, "{a} >= {b}");
        }
        assert_eq!(n(a).is_nan(), a.is_nan());
        assert_eq!(n(a).is_zero(), a == 0.0);
        assert_eq!(n(a).negated().to_bits(), (-a).to_bits());
    }
}

#[test]
fn truthiness() {
    assert!(!Value::Nil.truthy());
    assert!(!Value::Undefined.truthy());
    assert!(!Value::Bool(false).truthy());
    assert!(Value::Bool(true).truthy());
    assert!(num(0.0).truthy());
    assert!(Value::from("").truthy());
    assert!(function("f", 1).truthy());
    assert!(Value::Class(Class::new("A")).truthy());
}

#[test]
fn double_negation_is_truthiness_of_every_kind() {
    for v in [
        Value::Nil,
        Value::Undefined,
        Value::Bool(false),
        Value::Bool(true),
        num(0.0),
        Value::from(""),
        function("f", 1),
        Value::Class(Class::new("A")),
    ] {
        assert_eq!(v.negated().negated(), Value::Bool(v.truthy()));
    }
}

#[test]
fn equality_is_reflexive_within_a_kind_and_false_across_kinds() {
    let values = vec![
        Value::Nil,
        Value::Undefined,
        Value::Bool(false),
        num(1.5),
        Value::from("a"),
        function("f", 1),
        Value::Function(Function::Native(NativeFunction { name: "clock".to_string(), arity: 0 })),
        Value::Class(Class::new("A").numbered(3)),
        Value::Instance(InstanceRef { id: 2, class: Class::new("A") }),
    ];
    for (i, a) in values.iter().enumerate() {
        for (j, b) in values.iter().enumerate() {
            let both_functions = matches!(a, Value::Function(_)) && matches!(b, Value::Function(_));
            if i == j {
                assert!(a.equals(b), "{a:?}");
            } else if !both_functions {
                assert!(!a.equals(b), "{a:?} {b:?}");
            }
        }
    }
    assert!(!num(f64::NAN).equals(&num(f64::NAN)));
    assert!(num(0.0).equals(&num(-0.0)));
    assert!(!function("f", 1).equals(&function("g", 1)));
    assert!(!function("f", 1).equals(&function("f", 2)));
    assert!(!Value::Class(Class::new("A").numbered(1)).equals(&Value::Class(Class::new("A").numbered(2))));
}

#[test]
fn what_print_shows() {
    let m = Machine;
    assert_eq!(num(42.0).to_lox(&m), "42");
    assert_eq!(num(3.14).to_lox(&m), "3.14");
    assert_eq!(Value::from("text").to_lox(&m), "text");
    assert_eq!(Value::from("text").display(&m), "\"text\"");
    assert_eq!(Value::Bool(true).to_lox(&m), "true");
    assert_eq!(Value::Bool(false).to_lox(&m), "false");
    assert_eq!(Value::Nil.to_lox(&m), "nil");
    assert_eq!(Value::Undefined.to_lox(&m), "undefined");
    assert_eq!(function("fib", 1).to_lox(&m), "<fn fib>");
    assert_eq!(
        Value::Function(Function::Native(NativeFunction { name: "clock".to_string(), arity: 0 }))
            .to_lox(&m),
        "<native fn clock>"
    );
    assert_eq!(Value::Class(Class::new("Bagel")).to_lox(&m), "Bagel");
    assert_eq!(
        Value::Instance(InstanceRef { id: 0, class: Class::new("Bagel") }).to_lox(&m),
        "Bagel instance"
    );
    assert_eq!(Value::Nil.display(&m), "nil");
    assert_eq!(ValueError::NotANumber.message(), "value was not a number");
}

#[test]
fn duplicates_are_equal() {
    for v in [num(1.0), Value::from("s"), function("f", 3), Value::Class(Class::new("A").numbered(9))] {
        assert_eq!(v.duplicate(), v);
    }
    let f = function("f", 3);
    match (&f, f.duplicate()) {
        (Value::Function(Function::LoxFunction(a)), Value::Function(Function::LoxFunction(b))) => {
            assert!(Rc::ptr_eq(&a.stmt, &b.stmt));
        }
        _ => unreachable!(),
    }
}

#[test]
fn binary_operators() {
    let m = Machine;
    assert_eq!(binary_op(&m, &op(TokenType::Plus, "+"), &num(1.0), &num(2.0)), Ok(num(3.0)));
    assert_eq!(binary_op(&m, &op(TokenType::Minus, "-"), &num(1.0), &num(2.0)), Ok(num(-1.0)));
    assert_eq!(binary_op(&m, &op(TokenType::Star, "*"), &num(3.0), &num(2.0)), Ok(num(6.0)));
    assert_eq!(binary_op(&m, &op(TokenType::Slash, "/"), &num(1.0), &num(4.0)), Ok(num(0.25)));
    assert_eq!(binary_op(&m, &op(TokenType::Slash, "/"), &num(0.0), &num(1.0)), Ok(num(0.0)));
    assert_eq!(
        binary_op(&m, &op(TokenType::Slash, "/"), &num(1.0), &num(0.0)),
        Err(Error::DivideByZero { line: 4 })
    );
    assert_eq!(
        binary_op(&m, &op(TokenType::Slash, "/"), &num(1.0), &num(-0.0)),
        Err(Error::DivideByZero { line: 4 })
    );
    assert_eq!(
        binary_op(&m, &op(TokenType::Plus, "+"), &Value::from("a"), &Value::from("b")),
        Ok(Value::from("ab"))
    );
    assert_eq!(
        binary_op(&m, &op(TokenType::Plus, "+"), &Value::from("a"), &num(1.0)),
        Err(Error::TwoNumbersOrStringsRequired { op: op(TokenType::Plus, "+") })
    );
    assert_eq!(
        binary_op(&m, &op(TokenType::Star, "*"), &Value::Nil, &num(1.0)),
        Err(Error::NumbersRequired { op: op(TokenType::Star, "*") })
    );
    assert_eq!(
        binary_op(&m, &op(TokenType::LessEqual, "<="), &num(2.0), &num(2.0)),
        Ok(Value::Bool(true))
    );
    assert_eq!(
        binary_op(&m, &op(TokenType::EqualEqual, "=="), &Value::Nil, &Value::Bool(false)),
        Ok(Value::Bool(false))
    );
    assert_eq!(
        binary_op(&m, &op(TokenType::BangEqual, "!="), &Value::Nil, &Value::Bool(false)),
        Ok(Value::Bool(true))
    );
    assert_eq!(
        binary_op(&m, &op(TokenType::Comma, ","), &Value::Nil, &Value::Nil),
        Err(Error::InvalidBinaryOp { op: op(TokenType::Comma, ",") })
    );
}

#[test]
fn unary_operators() {
    assert_eq!(unary_op(&op(TokenType::Minus, "-"), &num(2.0)), Ok(num(-2.0)));
    assert_eq!(unary_op(&op(TokenType::Bang, "!"), &Value::Nil), Ok(Value::Bool(true)));
    assert_eq!(
        unary_op(&op(TokenType::Minus, "-"), &Value::Nil),
        Err(Error::NumbersRequired { op: op(TokenType::Minus, "-") })
    );
    assert_eq!(
        unary_op(&op(TokenType::Plus, "+"), &Value::Nil),
        Err(Error::InvalidUnaryOp { op: op(TokenType::Plus, "+") })
    );
    assert!(is_short_circuit(&op(TokenType::Or, "or"), &num(0.0)));
    assert!(!is_short_circuit(&op(TokenType::Or, "or"), &Value::Nil));
    assert!(is_short_circuit(&op(TokenType::And, "and"), &Value::Nil));
    assert!(!is_short_circuit(&op(TokenType::And, "and"), &num(0.0)));
}

#[test]
fn instances_hold_properties() {
    let mut object = Instance::new(Class::new("A"), Fields::new());
    assert_eq!(
        object.get("x"),
        Err(InstanceError::UndefinedProperty { name: "x".to_string() })
    );
    assert_eq!(object.get("x").unwrap_err().message(), "undefined property 'x'");
    assert_eq!(object.set("x", num(1.0)), Ok(Value::Nil));
    object.set("y", Value::from("why")).unwrap();
    object.set("x", num(2.0)).unwrap();
    assert_eq!(object.get("x"), Ok(num(2.0)));
    assert_eq!(object.get("y"), Ok(Value::from("why")));
    assert_eq!(object.class().name, "A");
    assert_eq!(Class::new("A").arity(), 0);
}

#[test]
fn decimal_numerals() {
    assert_eq!(decimal_string(0), "0");
    assert_eq!(decimal_string(7), "7");
    assert_eq!(decimal_string(10), "10");
    assert_eq!(decimal_string(1234567890), "1234567890");
    assert_eq!(decimal_string(usize::MAX), usize::MAX.to_string());
}

#[test]
fn function_arity() {
    let native = Function::Native(NativeFunction { name: "clock".to_string(), arity: 0 });
    assert_eq!(native.arity(), 0);
    let f = Function::LoxFunction(LoxFunction {
        stmt: Rc::new(FunctionStmt {
            name: op(TokenType::Identifier, "f"),
            params: vec![op(TokenType::Identifier, "a"), op(TokenType::Identifier, "b")],
            body: vec![],
        }),
        closure: EnvRef { frame: 0, cursor: 0 },
    });
    assert_eq!(f.arity(), 2);
}
