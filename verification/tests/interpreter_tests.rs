use rox::host::Host;
use rox::interpreter::Error;
use rox::lox::{Lox, LoxError};
use rox::number::Number;
use rox::value::Value;

struct Machine;

impl Host for Machine {
    fn parse_number(&self, numeral: &str) -> Number {
        Number::from_bits(numeral.parse::<f64>().unwrap().to_bits())
    }

    fn number_text(&self, n: Number) -> String {
        f64::from_bits(n.to_bits()).to_string()
    }

    fn sum(&self, a: Number, b: Number) -> Number {
        Number::from_bits((f64::from_bits(a.to_bits()) + f64::from_bits(b.to_bits())).to_bits())
    }

    fn difference(&self, a: Number, b: Number) -> Number {
        Number::from_bits((f64::from_bits(a.to_bits()) - f64::from_bits(b.to_bits())).to_bits())
    }

    fn product(&self, a: Number, b: Number) -> Number {
        Number::from_bits((f64::from_bits(a.to_bits()) * f64::from_bits(b.to_bits())).to_bits())
    }

    fn quotient(&self, a: Number, b: Number) -> Number {
        Number::from_bits((f64::from_bits(a.to_bits()) / f64::from_bits(b.to_bits())).to_bits())
    }

    fn call_native(&mut self, name: &str, _args: &Vec<Value>) -> Result<Value, String> {
        if name == "clock" {
            Ok(Value::Number(Number::from_bits(1234.5f64.to_bits())))
        } else {
            Err(format!("unknown native function '{name}'"))
        }
    }
}

#[derive(Debug)]
struct Run {
    stdout: Vec<u8>,
}

impl Run {
    fn stdout_to_string(&self) -> String {
        std::str::from_utf8(&self.stdout).unwrap().to_string()
    }

    fn lines(&self) -> Vec<String> {
        self.stdout_to_string().lines().map(ToString::to_string).collect()
    }
}

fn run_prog(prog: &str) -> Result<Run, String> {
    let mut lox = Lox::new(Machine).stdout(String::new()).stderr(String::new());
    match lox.run(prog.trim()) {
        Ok(()) => Ok(Run { stdout: lox.output().as_bytes().to_vec() }),
        Err(err) => Err(err.message()),
    }
}

fn run_error(prog: &str) -> LoxError {
    let mut lox = Lox::new(Machine);
    lox.run(prog.trim()).unwrap_err()
}

#[test]
fn interpreter_test_interpret() {
    let prog = r#"
        print "Hello, World!";
    "#;
    let run = run_prog(prog).unwrap();
    assert_eq!(run.lines(), vec!["Hello, World!"]);
}

#[test]
fn interpreter_test_fib() {
    let prog = r#"
        fun fib(n) {
            if (n <= 1) return n;
            return fib(n - 2) + fib(n - 1);
        }
        print fib(10);
    "#;
    let run = run_prog(prog).unwrap();
    assert_eq!(run.lines(), vec!["55"]);
}

#[test]
fn interpreter_test_double_define() {
    let prog = r#"
        fun bad() {
          var a = "first";
          var a = "second";
        }
        bad();
    "#;
    let err = run_prog(prog).unwrap_err();
    assert!(err.contains("call: a binding 'a' already exists in this scope"), "{err}");
}

#[test]
fn interpreter_test_global_return() {
    let prog = r#"
        return "at top level";
    "#;
    let err = run_prog(prog).unwrap_err();
    assert!(err.contains("can't return from top-level code"), "{err}");
}

#[test]
fn interpreter_test_closure_binding() {
    let prog = r#"
        var a = "global";
        {
          fun showA() {
            print a;
          }
          showA();
          var a = "block";
          showA();
        }
    "#;
    let run = run_prog(prog).unwrap();
    assert_eq!(run.lines(), vec!["global", "global"]);
}

#[test]
fn interpreter_test_print_class() {
    let prog = r#"
        class DevonshireCream {
            serveOn() {
                return "Scones";
            }
        }
        print DevonshireCream;
    "#;
    let run = run_prog(prog).unwrap();
    assert_eq!(run.lines(), vec!["DevonshireCream"]);
}

#[test]
fn test_new_bagel() {
    let prog = r#"
        class Bagel {}
        var bagel = Bagel();
        print bagel;
    "#;
    let run = run_prog(prog).unwrap();
    assert_eq!(run.lines(), vec!["Bagel instance"]);
}

#[test]
fn test_object_properties() {
    let prog = r#"
        class Props {}
        var props = Props();
        props.x = 42;
        print props.x;
    "#;
    let run = run_prog(prog).unwrap();
    assert_eq!(run.lines(), vec!["42"]);
}

#[test]
fn test_interpret_test_interpret() {
    let prog = r#"
        print "Hello, World!";
    "#;
    let run = run_prog(prog).unwrap();
    assert_eq!(run.lines(), vec!["Hello, World!"]);
}

#[test]
fn test_interpret_test_fib() {
    let prog = r#"
        fun fib(n) {
            if (n <= 1) return n;
            return fib(n - 2) + fib(n - 1);
        }
        print fib(10);
    "#;
    let run = run_prog(prog).unwrap();
    assert_eq!(run.lines(), vec!["55"]);
}

#[test]
fn test_interpret_test_double_define() {
    let prog = r#"
        fun bad() {
          var a = "first";
          var a = "second";
        }
        bad();
    "#;
    let err = run_prog(prog).unwrap_err();
    assert!(err.contains("call: a binding 'a' already exists in this scope"), "{err}");
}

#[test]
fn test_interpret_test_global_return() {
    let prog = r#"
        return "at top level";
    "#;
    let err = run_prog(prog).unwrap_err();
    assert!(err.contains("can't return from top-level code"), "{err}");
}

#[test]
fn test_interpret_test_closure_binding() {
    let prog = r#"
        var a = "global";
        {
          fun showA() {
            print a;
          }
          showA();
          var a = "block";
          showA();
        }
    "#;
    let run = run_prog(prog).unwrap();
    assert_eq!(run.lines(), vec!["global", "global"]);
}

#[test]
fn test_interpret_test_print_class() {
    let prog = r#"
        class DevonshireCream {
            serveOn() {
                return "Scones";
            }
        }
    print DevonshireCream;
    "#;
    let run = run_prog(prog).unwrap();
    assert_eq!(run.lines(), vec!["DevonshireCream"]);
}

#[test]
fn hello_world_is_one_exact_line() {
    let run = run_prog("print \"Hello, World!\";").unwrap();
    assert_eq!(run.stdout_to_string(), "Hello, World!\n");
}

#[test]
fn print_writes_one_line_per_statement() {
    let run = run_prog("print nil; print true; print \"a\" + \"b\"; print 3.14; print 42;").unwrap();
    assert_eq!(run.stdout_to_string(), "nil\ntrue\nab\n3.14\n42\n");
}

#[test]
fn functions_and_natives_print_their_names() {
    let run = run_prog("fun f() {} print f; print clock;").unwrap();
    assert_eq!(run.lines(), vec!["<fn f>", "<native fn clock>"]);
}

#[test]
fn clock_is_the_hosts() {
    let run = run_prog("print clock();").unwrap();
    assert_eq!(run.lines(), vec!["1234.5"]);
}

#[test]
fn division_by_zero_fails_and_zero_divided_succeeds() {
    match run_error("print 1 / 0;") {
        LoxError::Interpret(Error::DivideByZero { line }) => assert_eq!(line, 1),
        other => panic!("{other:?}"),
    }
    let run = run_prog("print 0 / 1;").unwrap();
    assert_eq!(run.lines(), vec!["0"]);
}

#[test]
fn or_and_and_short_circuit() {
    let prog = r#"
        var hits = 0;
        fun hit() { hits = hits + 1; return true; }
        print true or hit();
        print false and hit();
        print hits;
        print nil or hit();
        print 1 and hit();
        print hits;
    "#;
    let run = run_prog(prog).unwrap();
    assert_eq!(run.lines(), vec!["true", "false", "0", "true", "true", "2"]);
}

#[test]
fn double_negation_is_truthiness() {
    let run = run_prog("print !!0; print !!nil; print !!\"\"; print !!false; print !!clock;").unwrap();
    assert_eq!(run.lines(), vec!["true", "false", "true", "false", "true"]);
}

#[test]
fn equality_within_and_across_kinds() {
    let run = run_prog(
        "print 1 == 1; print \"a\" == \"a\"; print nil == nil; print 1 == \"1\"; print nil == false; print 1 != 2;",
    ).unwrap();
    assert_eq!(run.lines(), vec!["true", "true", "true", "false", "false", "true"]);
}

#[test]
fn comparison_operators() {
    let run = run_prog("print 1 < 2; print 2 <= 2; print 3 > 4; print 4 >= 5; print -1 < 0;").unwrap();
    assert_eq!(run.lines(), vec!["true", "true", "false", "false", "true"]);
}

#[test]
fn for_loop_runs_as_a_while_loop() {
    let run = run_prog("for (var i = 0; i < 3; i = i + 1) print i;").unwrap();
    assert_eq!(run.lines(), vec!["0", "1", "2"]);
}

#[test]
fn while_loop_and_assignment() {
    let run = run_prog("var n = 3; var sum = 0; while (n > 0) { sum = sum + n; n = n - 1; } print sum;").unwrap();
    assert_eq!(run.lines(), vec!["6"]);
}

#[test]
fn a_block_leaves_the_scope_it_entered_even_on_error() {
    let mut lox = Lox::new(Machine);
    assert!(lox.run("var a = 1; { var b = 2; print missing; }").is_err());
    lox.run("print a;").unwrap();
    assert!(lox.run("print b;").is_err());
    assert_eq!(lox.output(), "1\n");
}

#[test]
fn a_call_leaves_the_scope_of_the_caller() {
    let mut lox = Lox::new(Machine);
    lox.run("fun f(x) { var y = x; return y; } var r = f(7);").unwrap();
    lox.run("print r;").unwrap();
    assert!(lox.run("print y;").is_err());
    assert!(lox.run("print x;").is_err());
    assert_eq!(lox.output(), "7\n");
}

#[test]
fn runtime_errors_have_their_variants() {
    assert!(matches!(run_error("print -\"a\";"), LoxError::Interpret(Error::NumbersRequired { .. })));
    assert!(matches!(run_error("print 1 - \"a\";"), LoxError::Interpret(Error::NumbersRequired { .. })));
    assert!(matches!(
        run_error("print 1 + \"a\";"),
        LoxError::Interpret(Error::TwoNumbersOrStringsRequired { .. })
    ));
    assert!(matches!(run_error("var x; print x;"), LoxError::Interpret(Error::UndfinedVar { .. })));
    assert!(matches!(run_error("print y;"), LoxError::Interpret(Error::Env(_))));
    assert!(matches!(run_error("y = 1;"), LoxError::Interpret(Error::Env(_))));
    assert!(matches!(run_error("var f = 1; f();"), LoxError::Interpret(Error::NotAFunction { .. })));
    assert!(matches!(
        run_error("fun f(a) {} f();"),
        LoxError::Interpret(Error::FunctionArity { expected: 1, actual: 0, .. })
    ));
    assert!(matches!(
        run_error("class A {} var a = A(); print a.x;"),
        LoxError::Interpret(Error::Instance(_))
    ));
    assert!(matches!(run_error("var a = 1; print a.x;"), LoxError::Interpret(Error::NotAnInstance { .. })));
    assert!(matches!(run_error("var a = 1; a.x = 2;"), LoxError::Interpret(Error::NotAnInstance { .. })));
    assert!(matches!(run_error("return 1;"), LoxError::Interpret(Error::TopLevelReturn)));
    assert!(matches!(run_error("class A {} A(1);"), LoxError::Interpret(Error::FunctionArity { .. })));
}

#[test]
fn error_messages() {
    assert_eq!(run_error("print 1 / 0;").message(), "divide by zero detected at line 1");
    assert_eq!(run_error("print y;").message(), "undefined variable 'y'");
    assert_eq!(run_error("y = 1;").message(), "undefined variable in assign 'y'");
    assert_eq!(run_error("var x; print x;").message(), "cannot evaluate undefined var x");
    assert_eq!(run_error("var f = 1;\nf();").message(), "line 2: can only call functions and classes");
    assert_eq!(run_error("fun f(a) {} f(1, 2);").message(), "line 1: expected 1 args but got 2");
    assert_eq!(run_error("print 1 - nil;").message(), "expected numbers for op: [Minus - 1]");
    assert_eq!(
        run_error("class A {} var a = A(); print a.x;").message(),
        "undefined property 'x'"
    );
    assert_eq!(run_error("var a = ;").message(), "parsing failed");
    assert_eq!(run_error("var a = \"x").message(), "line: 1: unterminated string");
    assert_eq!(
        run_error("@\n#").message(),
        "line: 1: unexpected char.\nline: 2: unexpected char."
    );
}

#[test]
fn the_budget_ends_a_loop_without_end() {
    let mut lox = Lox::new(Machine).budget(1000);
    match lox.run("while (true) {}") {
        Err(LoxError::Interpret(Error::Exhausted)) => {}
        other => panic!("{other:?}"),
    }
}

#[test]
fn a_single_expression_is_shown_as_written() {
    let mut lox = Lox::new(Machine);
    lox.run("1 + 2").unwrap();
    lox.run("\"a\" + \"b\"").unwrap();
    assert_eq!(lox.output(), "3\n\"ab\"\n");
}

#[test]
fn instances_are_equal_to_themselves_only() {
    let run = run_prog("class A {} var a = A(); var b = A(); var c = a; print a == c; print a == b; print A == A;").unwrap();
    assert_eq!(run.lines(), vec!["true", "false", "true"]);
}

#[test]
fn two_classes_of_one_name_are_distinct() {
    let run = run_prog("class A {} var first = A; class A {} print first == A;").unwrap();
    assert_eq!(run.lines(), vec!["false"]);
}

#[test]
fn properties_are_shared_between_handles() {
    let run = run_prog("class A {} var a = A(); var b = a; b.x = \"set\"; print a.x; a.x = 2; print b.x;").unwrap();
    assert_eq!(run.lines(), vec!["set", "2"]);
}

#[test]
fn closures_see_later_writes_to_what_they_captured() {
    let prog = r#"
        var counter = 0;
        fun bump() { counter = counter + 1; return counter; }
        bump(); bump();
        print counter;
    "#;
    let run = run_prog(prog).unwrap();
    assert_eq!(run.lines(), vec!["2"]);
}
