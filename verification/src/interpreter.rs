use crate::class::Class;
use crate::env::{
    lemma_extends_keeps_valid, lemma_extends_transitive, Env, EnvError, EnvRef, EnvView,
};
use crate::expr::{
    AssignExpr, BinaryExpr, CallExpr, Expr, GetExpr, GroupExpr, LiteralExpr, LogicalExpr, SetExpr,
    UnaryExpr, VarExpr,
};
use crate::func::{share, CallableError, Function, LoxFunction, NativeFunction};
use crate::host::Host;
use crate::semantics::{
    apply, bind, block, bound_so_far, call, eval, eval_args, eval_kind, exec, exec_kind, parts,
    run,
    while_loop, Called, Ran, Trace,
};
use crate::instance::{Fields, Instance, InstanceError, InstanceRef};
use crate::stmt::{
    BlockStmt, ClassStmt, ExprStmt, FunctionStmt, IfStmt, PrintStmt, ReturnStmt, Stmt, VarStmt,
    WhileStmt,
};
use crate::text::{decimal, decimal_string};
use crate::token::{Token, TokenType};
use crate::value::Value;
use std::rc::Rc;
use vstd::prelude::*;

verus! {

/// Why evaluation stopped.
#[derive(Debug, PartialEq)]
pub enum Error {
    NumbersRequired { op: Token },
    TwoNumbersOrStringsRequired { op: Token },
    InvalidBinaryOp { op: Token },
    InvalidUnaryOp { op: Token },
    DivideByZero { line: usize },
    Env(EnvError),
    UndfinedVar { token: Token },
    NotAFunction { token: Token },
    NotAnInstance { token: Token },
    FunctionArity { token: Token, expected: usize, actual: usize },
    CallableError(CallableError),
    Instance(InstanceError),
    /// The output could not be written, with these words.
    Print(String),
    /// No error: a `return` on its way to the call that it ends.
    Return(Value),
    TopLevelReturn,
    /// The budget of steps is used up.
    Exhausted,
}

/// The words of an error.
pub open spec fn error_text(e: Error) -> Seq<char>
    decreases e,
{
    match e {
        Error::NumbersRequired { op } => "expected numbers for op: "@ + op.text_spec(),
        Error::TwoNumbersOrStringsRequired { op } =>
            "expected two numbers or two strings for op: "@ + op.text_spec(),
        Error::InvalidBinaryOp { op } => "invalid op: "@ + op.text_spec() + " for binary expr"@,
        Error::InvalidUnaryOp { op } => "invalid op: "@ + op.text_spec() + " for unary expr"@,
        Error::DivideByZero { line } => "divide by zero detected at line "@ + decimal(line as nat),
        Error::Env(e) => e.message_spec(),
        Error::UndfinedVar { token } => "cannot evaluate undefined var "@ + token.lexeme@,
        Error::NotAFunction { token } => "line "@ + decimal(token.line as nat)
            + ": can only call functions and classes"@,
        Error::NotAnInstance { token } => "line "@ + decimal(token.line as nat)
            + ": only instances have properties"@,
        Error::FunctionArity { token, expected, actual } => "line "@ + decimal(token.line as nat)
            + ": expected "@ + decimal(expected as nat) + " args but got "@ + decimal(
            actual as nat,
        ),
        Error::CallableError(c) => callable_error_text(c),
        Error::Instance(e) => e.message_spec(),
        Error::Print(msg) => "could not print: "@ + msg@,
        Error::Return(_) => "not an actual error! used to unwind the call stack."@,
        Error::TopLevelReturn => "can't return from top-level code."@,
        Error::Exhausted => "the budget of steps is used up"@,
    }
}

/// The words of the error of a call.
pub open spec fn callable_error_text(e: CallableError) -> Seq<char>
    decreases e,
{
    match e {
        CallableError::Generic(msg) => msg@,
        CallableError::Call(inner) => "call: "@ + error_text(*inner),
        CallableError::Env(e) => "call: "@ + e.message_spec(),
    }
}

impl CallableError {
    /// The words of the error.
    pub fn message(&self) -> (r: String)
        ensures
            r@ == callable_error_text(*self),
        decreases self,
    {
        match self {
            CallableError::Generic(msg) => msg.clone(),
            CallableError::Call(inner) => {
                let mut s = String::from_str("call: ");
                let t = inner.message();
                s.append(t.as_str());
                s
            },
            CallableError::Env(e) => {
                let mut s = String::from_str("call: ");
                let t = e.message();
                s.append(t.as_str());
                s
            },
        }
    }
}

impl Error {
    /// The words of the error.
    pub fn message(&self) -> (r: String)
        ensures
            r@ == error_text(*self),
        decreases self,
    {
        match self {
            Error::NumbersRequired { op } => {
                let mut s = String::from_str("expected numbers for op: ");
                let t = op.to_text();
                s.append(t.as_str());
                s
            },
            Error::TwoNumbersOrStringsRequired { op } => {
                let mut s = String::from_str("expected two numbers or two strings for op: ");
                let t = op.to_text();
                s.append(t.as_str());
                s
            },
            Error::InvalidBinaryOp { op } => {
                let mut s = String::from_str("invalid op: ");
                let t = op.to_text();
                s.append(t.as_str());
                s.append(" for binary expr");
                s
            },
            Error::InvalidUnaryOp { op } => {
                let mut s = String::from_str("invalid op: ");
                let t = op.to_text();
                s.append(t.as_str());
                s.append(" for unary expr");
                s
            },
            Error::DivideByZero { line } => {
                let mut s = String::from_str("divide by zero detected at line ");
                let t = decimal_string(*line);
                s.append(t.as_str());
                s
            },
            Error::Env(e) => e.message(),
            Error::UndfinedVar { token } => {
                let mut s = String::from_str("cannot evaluate undefined var ");
                s.append(token.lexeme.as_str());
                s
            },
            Error::NotAFunction { token } => {
                let mut s = String::from_str("line ");
                let t = decimal_string(token.line);
                s.append(t.as_str());
                s.append(": can only call functions and classes");
                s
            },
            Error::NotAnInstance { token } => {
                let mut s = String::from_str("line ");
                let t = decimal_string(token.line);
                s.append(t.as_str());
                s.append(": only instances have properties");
                s
            },
            Error::FunctionArity { token, expected, actual } => {
                let mut s = String::from_str("line ");
                let t = decimal_string(token.line);
                s.append(t.as_str());
                s.append(": expected ");
                let e = decimal_string(*expected);
                s.append(e.as_str());
                s.append(" args but got ");
                let a = decimal_string(*actual);
                s.append(a.as_str());
                s
            },
            Error::CallableError(c) => c.message(),
            Error::Instance(e) => e.message(),
            Error::Print(msg) => {
                let mut s = String::from_str("could not print: ");
                s.append(msg.as_str());
                s
            },
            Error::Return(_) => String::from_str(
                "not an actual error! used to unwind the call stack.",
            ),
            Error::TopLevelReturn => String::from_str("can't return from top-level code."),
            Error::Exhausted => String::from_str("the budget of steps is used up"),
        }
    }
}

/// What a binary operator makes of two values.
pub enum Outcome {
    /// The operator fails with this error.
    Fails(Error),
    /// The result is this value.
    Gives(Value),
    /// The result is the string with these characters.
    Joins(Seq<char>),
    /// The result is the number that the host computes from the two numbers.
    Computes,
}

/// Whether the operator works on two numbers only.
pub open spec fn numeric(typ: TokenType) -> bool {
    typ == TokenType::Minus || typ == TokenType::Slash || typ == TokenType::Star || typ
        == TokenType::Greater || typ == TokenType::GreaterEqual || typ == TokenType::Less || typ
        == TokenType::LessEqual
}

/// What the binary operator `op` makes of `left` and `right`.
///
/// `- * / > >= < <=` ask for two numbers, and `/` for a divisor other than
/// zero; `+` adds two numbers or joins two strings; `==` and `!=` take any
/// two values and never fail.
pub open spec fn binary_outcome(op: Token, left: Value, right: Value) -> Outcome {
    if numeric(op.typ) {
        match (left, right) {
            (Value::Number(a), Value::Number(b)) => if op.typ == TokenType::Slash {
                if b.is_zero_spec() {
                    Outcome::Fails(Error::DivideByZero { line: op.line })
                } else {
                    Outcome::Computes
                }
            } else if op.typ == TokenType::Greater {
                Outcome::Gives(Value::Bool(b.less_spec(&a)))
            } else if op.typ == TokenType::GreaterEqual {
                Outcome::Gives(Value::Bool(b.less_equal_spec(&a)))
            } else if op.typ == TokenType::Less {
                Outcome::Gives(Value::Bool(a.less_spec(&b)))
            } else if op.typ == TokenType::LessEqual {
                Outcome::Gives(Value::Bool(a.less_equal_spec(&b)))
            } else {
                Outcome::Computes
            },
            _ => Outcome::Fails(Error::NumbersRequired { op }),
        }
    } else if op.typ == TokenType::Plus {
        match (left, right) {
            (Value::Number(a), Value::Number(b)) => Outcome::Computes,
            (Value::String(a), Value::String(b)) => Outcome::Joins(a@ + b@),
            _ => Outcome::Fails(Error::TwoNumbersOrStringsRequired { op }),
        }
    } else if op.typ == TokenType::BangEqual {
        Outcome::Gives(Value::Bool(!left.equals_spec(&right)))
    } else if op.typ == TokenType::EqualEqual {
        Outcome::Gives(Value::Bool(left.equals_spec(&right)))
    } else {
        Outcome::Fails(Error::InvalidBinaryOp { op })
    }
}

/// Whether `r` is what `outcome` says.
pub open spec fn meets(r: Result<Value, Error>, outcome: Outcome) -> bool {
    match outcome {
        Outcome::Fails(e) => r == Err::<Value, Error>(e),
        Outcome::Gives(v) => r == Ok::<Value, Error>(v),
        Outcome::Joins(text) => r is Ok && r->Ok_0 is String && r->Ok_0->String_0@ == text,
        Outcome::Computes => r is Ok && r->Ok_0 is Number,
    }
}

/// What the unary operator `op` makes of `right`: `-` the number with the
/// opposite sign, `!` the opposite of the value's truthiness.
pub open spec fn unary_outcome(op: Token, right: Value) -> Result<Value, Error> {
    if op.typ == TokenType::Minus {
        match right {
            Value::Number(n) => Ok(Value::Number(n.negated_spec())),
            _ => Err(Error::NumbersRequired { op }),
        }
    } else if op.typ == TokenType::Bang {
        Ok(Value::Bool(!right.truthy_spec()))
    } else {
        Err(Error::InvalidUnaryOp { op })
    }
}

/// Applies a unary operator.
pub fn unary_op(op: &Token, right: &Value) -> (r: Result<Value, Error>)
    ensures
        r == unary_outcome(*op, *right),
{
    match op.typ {
        TokenType::Minus => match right {
            Value::Number(n) => Ok(Value::Number(n.negated())),
            _ => Err(Error::NumbersRequired { op: op.duplicate() }),
        },
        TokenType::Bang => Ok(right.negated()),
        _ => Err(Error::InvalidUnaryOp { op: op.duplicate() }),
    }
}

/// Applies a binary operator. Sums, differences, products and quotients of
/// numbers are the host's.
pub fn binary_op<H: Host>(host: &H, op: &Token, left: &Value, right: &Value) -> (r: Result<
    Value,
    Error,
>)
    ensures
        meets(r, binary_outcome(*op, *left, *right)),
{
    let typ = op.typ;
    if typ == TokenType::Minus || typ == TokenType::Slash || typ == TokenType::Star || typ
        == TokenType::Greater || typ == TokenType::GreaterEqual || typ == TokenType::Less || typ
        == TokenType::LessEqual {
        match (left, right) {
            (Value::Number(a), Value::Number(b)) => {
                if typ == TokenType::Slash {
                    if b.is_zero() {
                        Err(Error::DivideByZero { line: op.line })
                    } else {
                        Ok(Value::Number(host.quotient(*a, *b)))
                    }
                } else if typ == TokenType::Greater {
                    Ok(Value::Bool(a.greater(b)))
                } else if typ == TokenType::GreaterEqual {
                    Ok(Value::Bool(a.greater_equal(b)))
                } else if typ == TokenType::Less {
                    Ok(Value::Bool(a.less(b)))
                } else if typ == TokenType::LessEqual {
                    Ok(Value::Bool(a.less_equal(b)))
                } else if typ == TokenType::Minus {
                    Ok(Value::Number(host.difference(*a, *b)))
                } else {
                    Ok(Value::Number(host.product(*a, *b)))
                }
            },
            _ => Err(Error::NumbersRequired { op: op.duplicate() }),
        }
    } else if typ == TokenType::Plus {
        match (left, right) {
            (Value::Number(a), Value::Number(b)) => Ok(Value::Number(host.sum(*a, *b))),
            (Value::String(a), Value::String(b)) => {
                let mut s = a.clone();
                s.append(b.as_str());
                Ok(Value::String(s))
            },
            _ => Err(Error::TwoNumbersOrStringsRequired { op: op.duplicate() }),
        }
    } else if typ == TokenType::BangEqual {
        Ok(Value::Bool(!left.equals(right)))
    } else if typ == TokenType::EqualEqual {
        Ok(Value::Bool(left.equals(right)))
    } else {
        Err(Error::InvalidBinaryOp { op: op.duplicate() })
    }
}

/// Whether a logical operator is done with its left operand alone: `or`
/// behind a truthy value, `and` behind a falsey one.
pub open spec fn short_circuits(op: Token, left: Value) -> bool {
    if op.typ == TokenType::Or {
        left.truthy_spec()
    } else {
        !left.truthy_spec()
    }
}

/// Whether a logical operator is done with its left operand alone.
pub fn is_short_circuit(op: &Token, left: &Value) -> (r: bool)
    ensures
        r == short_circuits(*op, *left),
{
    let truthy = left.truthy();
    match op.typ {
        TokenType::Or => truthy,
        _ => !truthy,
    }
}

/// Whether a value is a number, a string, a boolean or nil.
pub open spec fn plain(v: Value) -> bool {
    v is Number || v is String || v is Bool || v is Nil
}

/// Whether an expression names no variable and holds plain literals only.
pub open spec fn constant(e: Expr) -> bool
    decreases e,
{
    match e {
        Expr::Binary(b) => constant(*b.left) && constant(*b.right),
        Expr::Logical(b) => constant(*b.left) && constant(*b.right),
        Expr::Literal(l) => plain(l.value),
        Expr::Unary(u) => constant(*u.right),
        Expr::Group(g) => constant(*g.expr),
        Expr::Var(_) => false,
        Expr::Assign(_) => false,
        Expr::Call(c) => constant(*c.callee),
        Expr::Get(g) => constant(*g.object),
        Expr::SetProperty(s) => constant(*s.object),
    }
}

/// The state of an interpreter as contracts see it.
pub struct State {
    /// The scopes.
    pub env: EnvView,
    /// The properties of every instance made so far.
    pub objects: Seq<Map<Seq<char>, Value>>,
    /// Everything printed so far.
    pub output: Seq<char>,
    /// How many calls are under way.
    pub depth: nat,
    /// How many steps are left.
    pub budget: nat,
    /// How many classes were declared.
    pub classes: nat,
}

impl State {
    /// What a statement keeps of the state `before` it, however it ends:
    /// the scopes of `before` are still there, the active frame is the same
    /// one and has lost no binding, as many calls are under way, nothing
    /// printed is taken back, no instance is lost, and the budget has not
    /// grown.
    pub open spec fn continues(self, before: State) -> bool {
        &&& self.env.wf()
        &&& self.env.extends(before.env)
        &&& self.env.current.frame == before.env.current.frame
        &&& before.env.current.cursor <= self.env.current.cursor
        &&& self.depth == before.depth
        &&& before.output.is_prefix_of(self.output)
        &&& before.objects.len() <= self.objects.len()
        &&& before.classes <= self.classes
        &&& self.budget <= before.budget
    }

    /// What an expression keeps of the state `before` it, however it ends:
    /// what a statement keeps, and the active scope as it was.
    pub open spec fn settles(self, before: State) -> bool {
        self.continues(before) && self.env.current == before.env.current
    }

    /// Whether nothing but the budget differs from `before`.
    pub open spec fn untouched(self, before: State) -> bool {
        &&& self.env == before.env
        &&& self.objects == before.objects
        &&& self.output == before.output
        &&& self.depth == before.depth
        &&& self.classes == before.classes
    }
}

/// What is kept over one step is kept over two.
pub proof fn lemma_continues(a: State, b: State, c: State)
    requires
        b.continues(a),
        c.continues(b),
    ensures
        c.continues(a),
{
    lemma_extends_transitive(a.env, b.env, c.env);
    assert(a.output =~= c.output.subrange(0, a.output.len() as int)) by {
        assert(a.output =~= b.output.subrange(0, a.output.len() as int));
        assert(b.output =~= c.output.subrange(0, b.output.len() as int));
    }
}

/// What is kept over one step is kept over two.
pub proof fn lemma_settles(a: State, b: State, c: State)
    requires
        b.settles(a),
        c.settles(b),
    ensures
        c.settles(a),
{
    lemma_continues(a, b, c);
}

/// A state keeps everything of itself.
pub proof fn lemma_settles_self(a: State)
    requires
        a.env.wf(),
    ensures
        a.settles(a),
{
    assert(a.output =~= a.output.subrange(0, a.output.len() as int));
}

/// Whether the value is the native function `clock`, which takes no
/// argument.
pub open spec fn is_clock(v: Value) -> bool {
    v is Function && v->Function_0 is Native && v->Function_0->Native_0.name@ == "clock"@
        && v->Function_0->Native_0.arity == 0
}

/// The most steps that an interpreter can be given.
pub const FULL_BUDGET: u64 = 0xffff_ffff_ffff_ffff;

/// Walks the tree of a program. It owns the scopes, the instances and the
/// output, counts the calls that are under way, and stops with an error when
/// its budget of steps is used up. It keeps, for the proofs, the trace of
/// what it last ran.
pub struct Interpreter<H: Host> {
    env: Env,
    heap: Vec<Instance>,
    stdout: String,
    stderr: String,
    fn_depth: usize,
    budget: u64,
    classes: usize,
    host: H,
    trace: Ghost<Trace>,
}

impl<H: Host> View for Interpreter<H> {
    type V = State;

    closed spec fn view(&self) -> State {
        State {
            env: self.env@,
            objects: Seq::new(self.heap@.len(), |i: int| self.heap@[i]@),
            output: self.stdout@,
            depth: self.fn_depth as nat,
            budget: self.budget as nat,
            classes: self.classes as nat,
        }
    }
}

/// What was taken for the result of a binary operator: the number that the
/// host computed, or the string that was made.
pub open spec fn taken_for(r: Result<Value, Error>) -> Trace {
    match r {
        Ok(Value::Number(n)) => Trace::Number(n),
        Ok(Value::String(made)) => Trace::Text(made),
        _ => Trace::Nothing,
    }
}

/// What can be called: a function or a class.
pub trait Callable {
    /// How many arguments a call takes.
    spec fn takes(&self) -> nat;

    /// What a call makes of the arguments in a state, for a trace.
    spec fn calls(&self, s: State, args: Seq<Value>, t: Trace) -> Called;

    /// Calls it with as many arguments as it takes.
    fn call<H: Host>(&self, interpreter: &mut Interpreter<H>, args: Vec<Value>) -> (r: Result<
        Value,
        CallableError,
    >)
        requires
            old(interpreter).wf(),
            args@.len() == self.takes(),
        ensures
            final(interpreter).wf(),
            (Called { state: final(interpreter)@, out: r, whole: true }) == self.calls(
                old(interpreter)@,
                args@,
                final(interpreter).trace(),
            ),
    ;

    /// How many arguments a call takes.
    fn arity(&self) -> (r: usize)
        ensures
            r == self.takes(),
    ;
}

impl Callable for Function {
    open spec fn takes(&self) -> nat {
        self.arity_spec()
    }

    open spec fn calls(&self, s: State, args: Seq<Value>, t: Trace) -> Called {
        call(s, *self, args, t)
    }

    fn call<H: Host>(&self, interpreter: &mut Interpreter<H>, args: Vec<Value>) -> (r: Result<
        Value,
        CallableError,
    >) {
        interpreter.call(self, args)
    }

    fn arity(&self) -> (r: usize) {
        match self {
            Function::Native(n) => n.arity,
            Function::LoxFunction(f) => f.stmt.params.len(),
        }
    }
}

impl Callable for Class {
    open spec fn takes(&self) -> nat {
        0
    }

    open spec fn calls(&self, s: State, args: Seq<Value>, t: Trace) -> Called {
        let made = crate::semantics::instantiate(s, *self);
        Called { state: made.state, out: Ok(made.out->Ok_0), whole: true }
    }

    fn call<H: Host>(&self, interpreter: &mut Interpreter<H>, args: Vec<Value>) -> (r: Result<
        Value,
        CallableError,
    >) {
        Ok(interpreter.instantiate(self))
    }

    fn arity(&self) -> (r: usize) {
        0
    }
}

/// The trace with the parts `done` and, behind them, the parts `rest`.
pub open spec fn extended(done: Seq<Trace>, rest: Seq<Trace>) -> Trace {
    Trace::Parts(done + rest)
}

impl<H: Host> Interpreter<H> {
    /// The invariant: the scopes and the instances are well formed.
    pub closed spec fn wf(&self) -> bool {
        &&& self.env.wf()
        &&& forall|i: int| 0 <= i < self.heap@.len() ==> (#[trigger] self.heap@[i]).wf()
    }

    /// What was written for the driver's error stream.
    pub closed spec fn diagnostics(&self) -> Seq<char> {
        self.stderr@
    }

    /// The trace of what was last run.
    pub closed spec fn trace(&self) -> Trace {
        self.trace@
    }

    /// A well-formed interpreter keeps everything of itself.
    pub proof fn lemma_steady(&self)
        requires
            self.wf(),
        ensures
            self@.settles(self@),
    {
        lemma_settles_self(self@);
    }

    /// An interpreter with the global scope, in which `clock` names the
    /// native function of that name, and with the full budget.
    pub fn new(host: H) -> (r: Self)
        ensures
            r.wf(),
            r@.depth == 0,
            r@.budget == FULL_BUDGET,
            r@.output == Seq::<char>::empty(),
            r@.objects.len() == 0,
            r@.env.frames.len() == 1,
            r@.env.current.frame == 0,
            r@.classes == 0,
            r@.env.frames[0].bindings.len() == 1,
            r@.env.frames[0].bindings[0].name == "clock"@,
            is_clock(r@.env.frames[0].bindings[0].val),
            r@.env.lookup(r@.env.current, "clock"@) == Some(r@.env.frames[0].bindings[0].val),
    {
        let mut env = Env::new();
        let clock = Value::Function(
            Function::Native(NativeFunction { name: String::from_str("clock"), arity: 0 }),
        );
        let ghost before = env@;
        let defined = env.define("clock", clock);
        proof {
            assert(!before.shadows("clock"@));
            let after = env@;
            let bindings = after.frames[0].bindings;
            assert(bindings.len() == 1);
            assert(bindings[0].name == "clock"@);
            assert(crate::env::last_binding(bindings, 1, "clock"@) == Some(0int));
        }
        Interpreter {
            env,
            heap: Vec::new(),
            stdout: String::new(),
            stderr: String::new(),
            fn_depth: 0,
            budget: FULL_BUDGET,
            classes: 0,
            host,
            trace: Ghost(Trace::Nothing),
        }
    }

    /// The interpreter with `text` as what was printed so far.
    pub fn with_stdout(self, text: String) -> (r: Self)
        requires
            self.wf(),
        ensures
            r.wf(),
            r@ == (State { output: text@, ..self@ }),
            r.diagnostics() == self.diagnostics(),
    {
        let mut r = self;
        r.stdout = text;
        r
    }

    /// The interpreter with `text` as what was written for the error stream
    /// so far.
    pub fn with_stderr(self, text: String) -> (r: Self)
        requires
            self.wf(),
        ensures
            r.wf(),
            r@ == self@,
            r.diagnostics() == text@,
    {
        let mut r = self;
        r.stderr = text;
        r
    }

    /// The interpreter with `budget` steps left.
    pub fn with_budget(self, budget: u64) -> (r: Self)
        requires
            self.wf(),
        ensures
            r.wf(),
            r@ == (State { budget: budget as nat, ..self@ }),
            r.diagnostics() == self.diagnostics(),
    {
        let mut r = self;
        r.budget = budget;
        r
    }

    /// Everything printed so far.
    pub fn stdout(&self) -> (r: &str)
        ensures
            r@ == self@.output,
    {
        self.stdout.as_str()
    }

    /// Hands out everything printed so far, and starts the output anew.
    pub fn take_stdout(&mut self) -> (r: String)
        requires
            old(self).wf(),
        ensures
            final(self).wf(),
            r@ == old(self)@.output,
            final(self)@ == (State { output: Seq::empty(), ..old(self)@ }),
            final(self).diagnostics() == old(self).diagnostics(),
    {
        let mut taken = String::new();
        std::mem::swap(&mut self.stdout, &mut taken);
        assert(self@.objects =~= old(self)@.objects);
        taken
    }

    /// Everything written for the error stream so far.
    pub fn stderr(&self) -> (r: &str)
        ensures
            r@ == self.diagnostics(),
    {
        self.stderr.as_str()
    }

    /// The host as contracts see it.
    pub closed spec fn machine(&self) -> H {
        self.host
    }

    /// The host.
    pub fn host(&self) -> (r: &H)
        ensures
            *r == self.machine(),
    {
        &self.host
    }

    /// Makes `scope` the active scope and returns the handle that was
    /// active.
    pub fn swap_env(&mut self, scope: EnvRef) -> (r: EnvRef)
        requires
            old(self).wf(),
            old(self)@.env.valid(scope),
        ensures
            final(self).wf(),
            final(self)@ == old(self)@.with_env(old(self)@.env.at(scope)),
            r == old(self)@.env.current,
    {
        let r = self.env.enter(scope);
        assert(self@.objects =~= old(self)@.objects);
        r
    }

    /// Makes `scope` the active scope.
    pub fn restore_env(&mut self, scope: EnvRef)
        requires
            old(self).wf(),
            old(self)@.env.valid(scope),
        ensures
            final(self).wf(),
            final(self)@ == old(self)@.with_env(old(self)@.env.at(scope)),
    {
        let _ = self.env.enter(scope);
        assert(self@.objects =~= old(self)@.objects);
    }

    /// Takes one step from the budget.
    fn tick(&mut self) -> (r: bool)
        requires
            old(self).wf(),
        ensures
            final(self).wf(),
            r == (old(self)@.budget > 0),
            r ==> final(self)@ == old(self)@.ticked(),
            !r ==> final(self)@ == old(self)@,
            final(self)@.settles(old(self)@),
            final(self)@.untouched(old(self)@),
            final(self).trace() == old(self).trace(),
    {
        proof {
            lemma_settles_self(self@);
        }
        if self.budget == 0 {
            return false;
        }
        self.budget = self.budget - 1;
        proof {
            assert(self@.objects =~= old(self)@.objects);
            assert(old(self)@.output =~= self@.output.subrange(0, old(self)@.output.len() as int));
        }
        true
    }

    /// Writes a line of output.
    pub fn write_line(&mut self, text: &str)
        requires
            old(self).wf(),
        ensures
            final(self).wf(),
            final(self)@ == old(self)@.printed(text@),
            final(self)@.settles(old(self)@),
            final(self).trace() == old(self).trace(),
    {
        self.stdout.append(text);
        self.stdout.append("\n");
        proof {
            assert(self@.objects =~= old(self)@.objects);
            lemma_settles_self(old(self)@);
            assert(old(self)@.output =~= self@.output.subrange(0, old(self)@.output.len() as int));
        }
    }

    /// Prints a value: writes what `print` shows of it and ends the line.
    /// The text of a number is the host's; it is the trace of the printing.
    pub fn print_value(&mut self, value: &Value)
        requires
            old(self).wf(),
        ensures
            final(self).wf(),
            final(self)@.settles(old(self)@),
            final(self)@ == old(self)@.printed(crate::semantics::shown(*value, final(self).trace())),
            !(*value is Number) ==> final(self)@.output == old(self)@.output + value.text_spec()
                + "\n"@,
            final(self)@.output.len() > old(self)@.output.len(),
            final(self)@.output.last() == '\n',
    {
        let text = value.to_lox(&self.host);
        self.write_line(text.as_str());
        self.trace = Ghost(Trace::Text(text));
        proof {
            reveal_strlit("\n");
        }
    }

    /// Writes a value on a line of its own, as an expression would be
    /// written, and returns what was written for the value.
    pub fn show_value(&mut self, value: &Value) -> (text: String)
        requires
            old(self).wf(),
        ensures
            final(self).wf(),
            final(self)@.settles(old(self)@),
            final(self)@ == old(self)@.printed(text@),
            !(*value is Number) ==> text@ == value.display_spec(),
            final(self).trace() == old(self).trace(),
    {
        let text = value.display(&self.host);
        self.write_line(text.as_str());
        text
    }

    /// Takes `trace` for the trace of what was last run.
    pub(crate) fn note(&mut self, trace: Ghost<Trace>)
        requires
            old(self).wf(),
        ensures
            final(self).wf(),
            final(self)@ == old(self)@,
            final(self).diagnostics() == old(self).diagnostics(),
            final(self).trace() == trace@,
    {
        self.trace = trace;
    }

    /// Runs the statements in order, up to the first that fails.
    pub fn interpret(&mut self, stmts: &Vec<Stmt>) -> (r: Result<(), Error>)
        requires
            old(self).wf(),
        ensures
            final(self).wf(),
            final(self)@.continues(old(self)@),
            r is Err && r->Err_0 is Return ==> old(self)@.depth > 0,
            (Ran { state: final(self)@, out: r, whole: true }) == run(
                old(self)@,
                stmts@,
                final(self).trace(),
                0,
            ),
    {
        let ghost start = self@;
        let ghost mut done: Seq<Trace> = Seq::empty();
        let mut i: usize = 0;
        proof {
            lemma_settles_self(self@);
        }
        while i < stmts.len()
            invariant
                self.wf(),
                self@.continues(start),
                start == old(self)@,
                i <= stmts@.len(),
                done.len() == i,
                forall|rest: Seq<Trace>| #[trigger]
                    run(start, stmts@, extended(done, rest), 0) == run(
                        self@,
                        stmts@,
                        extended(done, rest),
                        i as int,
                    ),
            decreases stmts@.len() - i,
        {
            let ghost mid = self@;
            let ghost before = done;
            let r = self.execute(&stmts[i]);
            proof {
                lemma_continues(start, mid, self@);
                let t = self.trace@;
                done = before.push(t);
                assert forall|rest: Seq<Trace>| #[trigger]
                    run(start, stmts@, extended(done, rest), 0) == run(
                        mid,
                        stmts@,
                        extended(done, rest),
                        i as int,
                    ) && parts(extended(done, rest))[i as int] == t by {
                    let more = seq![t] + rest;
                    assert(before + more =~= done + rest);
                    assert(extended(before, more) == extended(done, rest));
                }
            }
            match r {
                Ok(()) => {},
                Err(e) => {
                    proof {
                        self.trace@ = extended(done, Seq::empty());
                    }
                    return Err(e);
                },
            }
            i = i + 1;
        }
        proof {
            self.trace@ = extended(done, Seq::empty());
        }
        Ok(())
    }

    /// Evaluates an expression: what `eval` says, for the trace of this
    /// evaluation.
    ///
    /// However it ends, the active scope is the one it was. An expression
    /// that names no variable and holds plain literals only changes neither
    /// the scopes, nor the instances, nor the output, and its value is plain.
    /// A `return` never leaves an expression.
    pub fn evaluate(&mut self, expr: &Expr) -> (r: Result<Value, Error>)
        requires
            old(self).wf(),
        ensures
            final(self).wf(),
            (Ran { state: final(self)@, out: r, whole: true }) == eval(old(self)@, *expr, final(self).trace()),
            final(self)@.settles(old(self)@),
            r is Ok ==> final(self)@.budget < old(self)@.budget,
            !(r is Err && r->Err_0 is Return),
            constant(*expr) ==> final(self)@.untouched(old(self)@) && (r is Ok ==> plain(r->Ok_0)),
        decreases old(self)@.budget, 0int,
    {
        if !self.tick() {
            return Err(Error::Exhausted);
        }
        let ghost mid = self@;
        let r = match expr {
            Expr::Binary(e) => self.visit_binary_expr(e),
            Expr::Logical(e) => self.visit_logical_expr(e),
            Expr::Literal(e) => self.visit_literal_expr(e),
            Expr::Unary(e) => self.visit_unary_expr(e),
            Expr::Group(e) => self.visit_group_expr(e),
            Expr::Var(e) => self.visit_var_expr(e),
            Expr::Assign(e) => self.visit_assign_expr(e),
            Expr::Call(e) => self.visit_call_expr(e),
            Expr::Get(e) => self.visit_get_expr(e),
            Expr::SetProperty(e) => self.visit_set_expr(e),
        };
        proof {
            lemma_settles(old(self)@, mid, self@);
        }
        r
    }

    /// Runs a statement: what `exec` says, for the trace of this run.
    ///
    /// However it ends, the active frame is the one it was. A `return` that
    /// is on its way out of the statement was made inside a call.
    pub fn execute(&mut self, stmt: &Stmt) -> (r: Result<(), Error>)
        requires
            old(self).wf(),
        ensures
            final(self).wf(),
            (Ran { state: final(self)@, out: r, whole: true }) == exec(old(self)@, *stmt, final(self).trace()),
            final(self)@.continues(old(self)@),
            r is Ok ==> final(self)@.budget < old(self)@.budget,
            r is Err && r->Err_0 is Return ==> old(self)@.depth > 0,
        decreases old(self)@.budget, 0int,
    {
        if !self.tick() {
            return Err(Error::Exhausted);
        }
        let ghost mid = self@;
        let r = match stmt {
            Stmt::Expr(s) => self.visit_expr_stmt(s),
            Stmt::Print(s) => self.visit_print_stmt(s),
            Stmt::Var(s) => self.visit_var_stmt(s),
            Stmt::Block(s) => self.visit_block_stmt(s),
            Stmt::If(s) => self.visit_if_stmt(s),
            Stmt::While(s) => self.visit_while_stmt(s),
            Stmt::Function(s) => self.visit_function_stmt(s),
            Stmt::Return(s) => self.visit_return_stmt(s),
            Stmt::Class(s) => self.visit_class_stmt(s),
        };
        proof {
            lemma_continues(old(self)@, mid, self@);
        }
        r
    }

    /// Runs the statements in a new scope under the active one, and leaves
    /// that scope again however the statements end: the active scope is then
    /// the one it was.
    pub fn execute_block(&mut self, stmts: &Vec<Stmt>) -> (r: Result<(), Error>)
        requires
            old(self).wf(),
        ensures
            final(self).wf(),
            (Ran { state: final(self)@, out: r, whole: true }) == block(
                old(self)@,
                stmts@,
                final(self).trace(),
            ),
            final(self)@.settles(old(self)@),
            r is Err && r->Err_0 is Return ==> old(self)@.depth > 0,
        decreases old(self)@.budget, 1int,
    {
        let ghost start = self@;
        self.env.push();
        let ghost inside = self@;
        proof {
            assert(self@.objects =~= old(self)@.objects);
            lemma_settles_self(old(self)@);
            assert(inside == start.with_env(
                start.env.grown(start.env.current).at(
                    EnvRef { frame: start.env.frames.len() as usize, cursor: 0 },
                ),
            ));
        }
        let ghost mut done: Seq<Trace> = Seq::empty();
        let mut res: Result<(), Error> = Ok(());
        let mut i: usize = 0;
        while i < stmts.len() && res.is_ok()
            invariant
                self.wf(),
                inside.env.frames.len() == start.env.frames.len() + 1,
                inside.env.current.frame == start.env.frames.len(),
                inside.env.frames[inside.env.current.frame as int].parent == Some(
                    start.env.current,
                ),
                inside.env.extends(start.env),
                inside.env.wf(),
                self@.env.wf(),
                self@.env.extends(inside.env),
                self@.env.current.frame == inside.env.current.frame,
                self@.depth == start.depth,
                start.output.is_prefix_of(self@.output),
                start.objects.len() <= self@.objects.len(),
                start.classes <= self@.classes,
                self@.budget <= start.budget,
                start == old(self)@,
                i <= stmts@.len(),
                done.len() == i,
                res is Err && res->Err_0 is Return ==> start.depth > 0,
                res is Ok ==> forall|rest: Seq<Trace>| #[trigger]
                    run(inside, stmts@, extended(done, rest), 0) == run(
                        self@,
                        stmts@,
                        extended(done, rest),
                        i as int,
                    ),
                res is Err ==> forall|rest: Seq<Trace>| #[trigger]
                    run(inside, stmts@, extended(done, rest), 0) == (Ran {
                        state: self@,
                        out: res,
                        whole: true,
                    }),
            decreases stmts@.len() - i,
        {
            let ghost mid = self@;
            let ghost before = done;
            res = self.execute(&stmts[i]);
            proof {
                lemma_extends_transitive(inside.env, mid.env, self@.env);
                assert(start.output =~= self@.output.subrange(0, start.output.len() as int)) by {
                    assert(start.output =~= mid.output.subrange(0, start.output.len() as int));
                    assert(mid.output =~= self@.output.subrange(0, mid.output.len() as int));
                }
                let t = self.trace@;
                done = before.push(t);
                assert forall|rest: Seq<Trace>| #[trigger]
                    run(inside, stmts@, extended(done, rest), 0) == run(
                        mid,
                        stmts@,
                        extended(done, rest),
                        i as int,
                    ) && parts(extended(done, rest))[i as int] == t by {
                    let more = seq![t] + rest;
                    assert(before + more =~= done + rest);
                    assert(extended(before, more) == extended(done, rest));
                }
            }
            i = i + 1;
        }
        let ghost last = self@;
        let popped = self.env.pop();
        proof {
            self.trace@ = extended(done, Seq::empty());
            let whole = extended(done, Seq::empty());
            if res is Ok {
                assert(run(inside, stmts@, whole, 0) == run(last, stmts@, whole, i as int));
                assert(i == stmts@.len());
                assert(run(last, stmts@, whole, i as int) == crate::semantics::gave(last, ()));
                let unit = res->Ok_0;
                assert(unit == ());
                assert(res == Ok::<(), Error>(unit));
            } else {
                assert(run(inside, stmts@, whole, 0) == (Ran { state: last, out: res, whole: true }));
            }
            assert(self@.objects =~= last.objects);
            assert(last.env.frames[last.env.current.frame as int].parent == Some(
                start.env.current,
            ));
            lemma_extends_transitive(start.env, inside.env, last.env);
            assert(self@.env.frames == last.env.frames);
            assert(self@ == last.with_env(last.env.at(start.env.current)));
        }
        res
    }

    fn visit_expr_stmt(&mut self, stmt: &ExprStmt) -> (r: Result<(), Error>)
        requires
            old(self).wf(),
        ensures
            final(self).wf(),
            (Ran { state: final(self)@, out: r, whole: true }) == exec_kind(
                old(self)@,
                Stmt::Expr(*stmt),
                final(self).trace(),
            ),
            final(self)@.continues(old(self)@),
            r is Ok ==> final(self)@.budget < old(self)@.budget,
            r is Err && r->Err_0 is Return ==> old(self)@.depth > 0,
        decreases old(self)@.budget, 3int,
    {
        let r = self.evaluate(&stmt.expr);
        proof {
            self.trace@ = Trace::Parts(seq![self.trace@]);
        }
        match r {
            Ok(_) => Ok(()),
            Err(e) => Err(e),
        }
    }

    fn visit_print_stmt(&mut self, stmt: &PrintStmt) -> (r: Result<(), Error>)
        requires
            old(self).wf(),
        ensures
            final(self).wf(),
            (Ran { state: final(self)@, out: r, whole: true }) == exec_kind(
                old(self)@,
                Stmt::Print(*stmt),
                final(self).trace(),
            ),
            final(self)@.continues(old(self)@),
            r is Ok ==> final(self)@.budget < old(self)@.budget,
            r is Ok ==> final(self)@.output.len() > old(self)@.output.len() && final(self)@.output.last()
                == '\n',
            r is Err && r->Err_0 is Return ==> old(self)@.depth > 0,
        decreases old(self)@.budget, 3int,
    {
        let r = self.evaluate(&stmt.expr);
        let ghost t0 = self.trace@;
        let value = match r {
            Ok(v) => v,
            Err(e) => {
                proof {
                    self.trace@ = Trace::Parts(seq![t0, Trace::Nothing]);
                }
                return Err(e);
            },
        };
        let ghost mid = self@;
        self.print_value(&value);
        proof {
            self.trace@ = Trace::Parts(seq![t0, self.trace@]);
            lemma_settles(old(self)@, mid, self@);
        }
        Ok(())
    }

    fn visit_var_stmt(&mut self, stmt: &VarStmt) -> (r: Result<(), Error>)
        requires
            old(self).wf(),
        ensures
            final(self).wf(),
            (Ran { state: final(self)@, out: r, whole: true }) == exec_kind(
                old(self)@,
                Stmt::Var(*stmt),
                final(self).trace(),
            ),
            final(self)@.continues(old(self)@),
            r is Err && r->Err_0 is Return ==> old(self)@.depth > 0,
        decreases old(self)@.budget, 3int,
    {
        let value = match &stmt.initializer {
            Some(e) => {
                let r = self.evaluate(e);
                proof {
                    self.trace@ = Trace::Parts(seq![self.trace@]);
                }
                match r {
                    Ok(v) => v,
                    Err(e) => {
                        return Err(e);
                    },
                }
            },
            None => {
                proof {
                    lemma_settles_self(self@);
                }
                Value::Undefined
            },
        };
        let ghost mid = self@;
        let r = self.define(&stmt.name, value);
        proof {
            lemma_continues(old(self)@, mid, self@);
        }
        r
    }

    /// Binds the name that `name` spells to `value` in the active frame.
    fn define(&mut self, name: &Token, value: Value) -> (r: Result<(), Error>)
        requires
            old(self).wf(),
        ensures
            final(self).wf(),
            (Ran { state: final(self)@, out: r, whole: true }) == crate::semantics::define(
                old(self)@,
                *name,
                value,
            ),
            final(self)@.continues(old(self)@),
            final(self)@.budget == old(self)@.budget,
            !(r is Err && r->Err_0 is Return),
            final(self).trace() == old(self).trace(),
    {
        let defined = self.env.define(name.lexeme.as_str(), value);
        proof {
            assert(self@.objects =~= old(self)@.objects);
            lemma_settles_self(old(self)@);
        }
        match defined {
            Ok(()) => Ok(()),
            Err(_) => Err(Error::Env(EnvError::AlreadyDefined { name: name.lexeme.0.clone() })),
        }
    }

    /// Gives the nearest binding of the name that `name` spells the value
    /// `value`.
    fn assign(&mut self, name: &Token, value: Value) -> (r: Result<(), Error>)
        requires
            old(self).wf(),
        ensures
            final(self).wf(),
            (Ran { state: final(self)@, out: r, whole: true }) == crate::semantics::assign(
                old(self)@,
                *name,
                value,
            ),
            final(self)@.settles(old(self)@),
            final(self)@.budget == old(self)@.budget,
            !(r is Err && r->Err_0 is Return),
            final(self).trace() == old(self).trace(),
    {
        let assigned = self.env.assign(name.lexeme.as_str(), value);
        proof {
            assert(self@.objects =~= old(self)@.objects);
            lemma_settles_self(old(self)@);
        }
        match assigned {
            Ok(()) => Ok(()),
            Err(_) => Err(Error::Env(EnvError::UndefinedAssign { name: name.lexeme.0.clone() })),
        }
    }

    fn visit_block_stmt(&mut self, stmt: &BlockStmt) -> (r: Result<(), Error>)
        requires
            old(self).wf(),
        ensures
            final(self).wf(),
            (Ran { state: final(self)@, out: r, whole: true }) == exec_kind(
                old(self)@,
                Stmt::Block(*stmt),
                final(self).trace(),
            ),
            final(self)@.settles(old(self)@),
            r is Err && r->Err_0 is Return ==> old(self)@.depth > 0,
        decreases old(self)@.budget, 3int,
    {
        self.execute_block(&stmt.statements)
    }

    fn visit_if_stmt(&mut self, stmt: &IfStmt) -> (r: Result<(), Error>)
        requires
            old(self).wf(),
        ensures
            final(self).wf(),
            (Ran { state: final(self)@, out: r, whole: true }) == exec_kind(
                old(self)@,
                Stmt::If(*stmt),
                final(self).trace(),
            ),
            final(self)@.continues(old(self)@),
            r is Err && r->Err_0 is Return ==> old(self)@.depth > 0,
        decreases old(self)@.budget, 3int,
    {
        let c = self.evaluate(&stmt.condition);
        let ghost t0 = self.trace@;
        proof {
            self.trace@ = Trace::Parts(seq![t0, Trace::Nothing]);
        }
        let condition = match c {
            Ok(v) => v,
            Err(e) => {
                return Err(e);
            },
        };
        let ghost mid = self@;
        if condition.truthy() {
            let r = self.execute(&stmt.then_stmt);
            proof {
                self.trace@ = Trace::Parts(seq![t0, self.trace@]);
                lemma_continues(old(self)@, mid, self@);
            }
            r
        } else {
            match &stmt.else_stmt {
                Some(else_stmt) => {
                    let r = self.execute(else_stmt);
                    proof {
                        self.trace@ = Trace::Parts(seq![t0, self.trace@]);
                        lemma_continues(old(self)@, mid, self@);
                    }
                    r
                },
                None => Ok(()),
            }
        }
    }

    fn visit_while_stmt(&mut self, stmt: &WhileStmt) -> (r: Result<(), Error>)
        requires
            old(self).wf(),
        ensures
            final(self).wf(),
            (Ran { state: final(self)@, out: r, whole: true }) == exec_kind(
                old(self)@,
                Stmt::While(*stmt),
                final(self).trace(),
            ),
            final(self)@.continues(old(self)@),
            r is Err && r->Err_0 is Return ==> old(self)@.depth > 0,
        decreases old(self)@.budget, 3int,
    {
        let ghost start = self@;
        let ghost mut done: Seq<Trace> = Seq::empty();
        proof {
            lemma_settles_self(self@);
        }
        loop
            invariant
                self.wf(),
                self@.continues(start),
                start == old(self)@,
                forall|rest: Seq<Trace>| #[trigger]
                    while_loop(start, stmt.condition, *stmt.body, extended(done, rest), 0)
                        == while_loop(
                        self@,
                        stmt.condition,
                        *stmt.body,
                        extended(done, rest),
                        done.len() as int,
                    ),
            decreases self@.budget,
        {
            let ghost top = self@;
            let ghost before = done;
            let c = self.evaluate(&stmt.condition);
            let ghost mid = self@;
            proof {
                lemma_continues(start, top, mid);
                let t = self.trace@;
                done = before.push(t);
                assert forall|rest: Seq<Trace>| #[trigger]
                    while_loop(start, stmt.condition, *stmt.body, extended(done, rest), 0)
                        == while_loop(
                        top,
                        stmt.condition,
                        *stmt.body,
                        extended(done, rest),
                        before.len() as int,
                    ) && parts(extended(done, rest))[before.len() as int] == t by {
                    let more = seq![t] + rest;
                    assert(before + more =~= done + rest);
                    assert(extended(before, more) == extended(done, rest));
                }
            }
            let condition = match c {
                Ok(v) => v,
                Err(e) => {
                    proof {
                        self.trace@ = extended(done, Seq::empty());
                        let whole = extended(done, Seq::empty());
                        assert(while_loop(start, stmt.condition, *stmt.body, whole, 0)
                            == while_loop(
                            top,
                            stmt.condition,
                            *stmt.body,
                            whole,
                            before.len() as int,
                        ));
                    }
                    return Err(e);
                },
            };
            if !condition.truthy() {
                proof {
                    self.trace@ = extended(done, Seq::empty());
                    let whole = extended(done, Seq::empty());
                    assert(while_loop(start, stmt.condition, *stmt.body, whole, 0) == while_loop(
                        top,
                        stmt.condition,
                        *stmt.body,
                        whole,
                        before.len() as int,
                    ));
                }
                return Ok(());
            }
            let ghost half = done;
            let r = self.execute(&stmt.body);
            proof {
                lemma_continues(start, mid, self@);
                let t = self.trace@;
                done = half.push(t);
                assert forall|rest: Seq<Trace>| #[trigger]
                    while_loop(start, stmt.condition, *stmt.body, extended(done, rest), 0)
                        == while_loop(
                        top,
                        stmt.condition,
                        *stmt.body,
                        extended(done, rest),
                        before.len() as int,
                    ) && parts(extended(done, rest))[before.len() as int] == half[before.len() as int]
                        && parts(extended(done, rest))[half.len() as int] == t by {
                    let more = seq![t] + rest;
                    assert(half + more =~= done + rest);
                    assert(extended(half, more) == extended(done, rest));
                }
            }
            match r {
                Ok(()) => {},
                Err(e) => {
                    proof {
                        self.trace@ = extended(done, Seq::empty());
                        let whole = extended(done, Seq::empty());
                        assert(while_loop(start, stmt.condition, *stmt.body, whole, 0)
                            == while_loop(
                            top,
                            stmt.condition,
                            *stmt.body,
                            whole,
                            before.len() as int,
                        ));
                    }
                    return Err(e);
                },
            }
        }
    }

    fn visit_function_stmt(&mut self, stmt: &Rc<FunctionStmt>) -> (r: Result<(), Error>)
        requires
            old(self).wf(),
        ensures
            final(self).wf(),
            (Ran { state: final(self)@, out: r, whole: true }) == exec_kind(
                old(self)@,
                Stmt::Function(*stmt),
                final(self).trace(),
            ),
            final(self)@.continues(old(self)@),
            !(r is Err && r->Err_0 is Return),
    {
        let function = Value::Function(
            Function::LoxFunction(LoxFunction { stmt: share(stmt), closure: self.env.current() }),
        );
        self.define(&stmt.name, function)
    }

    fn visit_return_stmt(&mut self, stmt: &ReturnStmt) -> (r: Result<(), Error>)
        requires
            old(self).wf(),
        ensures
            final(self).wf(),
            (Ran { state: final(self)@, out: r, whole: true }) == exec_kind(
                old(self)@,
                Stmt::Return(*stmt),
                final(self).trace(),
            ),
            final(self)@.settles(old(self)@),
            r is Err,
            r->Err_0 is Return ==> old(self)@.depth > 0,
        decreases old(self)@.budget, 3int,
    {
        if self.fn_depth == 0 {
            proof {
                lemma_settles_self(self@);
            }
            return Err(Error::TopLevelReturn);
        }
        let r = self.evaluate(&stmt.value);
        proof {
            self.trace@ = Trace::Parts(seq![self.trace@]);
        }
        match r {
            Ok(value) => Err(Error::Return(value)),
            Err(e) => Err(e),
        }
    }

    fn visit_class_stmt(&mut self, stmt: &ClassStmt) -> (r: Result<(), Error>)
        requires
            old(self).wf(),
        ensures
            final(self).wf(),
            (Ran { state: final(self)@, out: r, whole: true }) == exec_kind(
                old(self)@,
                Stmt::Class(*stmt),
                final(self).trace(),
            ),
            final(self)@.continues(old(self)@),
            !(r is Err && r->Err_0 is Return),
    {
        match self.define(&stmt.name, Value::Nil) {
            Ok(()) => {},
            Err(e) => {
                return Err(e);
            },
        }
        let ghost mid = self@;
        if self.classes == usize::MAX {
            return Err(Error::Exhausted);
        }
        let class = Class { name: stmt.name.lexeme.0.clone(), id: self.classes };
        self.classes = self.classes + 1;
        let ghost counted = self@;
        proof {
            assert(counted.objects =~= mid.objects);
            lemma_settles_self(mid);
            assert(counted.continues(mid));
            lemma_continues(old(self)@, mid, counted);
        }
        let r = self.assign(&stmt.name, Value::Class(class));
        proof {
            lemma_continues(old(self)@, counted, self@);
        }
        r
    }

    fn visit_assign_expr(&mut self, expr: &AssignExpr) -> (r: Result<Value, Error>)
        requires
            old(self).wf(),
        ensures
            final(self).wf(),
            (Ran { state: final(self)@, out: r, whole: true }) == eval_kind(
                old(self)@,
                Expr::Assign(*expr),
                final(self).trace(),
            ),
            final(self)@.settles(old(self)@),
            !(r is Err && r->Err_0 is Return),
        decreases old(self)@.budget, 3int,
    {
        let r = self.evaluate(&expr.value);
        proof {
            self.trace@ = Trace::Parts(seq![self.trace@]);
        }
        let value = match r {
            Ok(v) => v,
            Err(e) => {
                return Err(e);
            },
        };
        let ghost mid = self@;
        let assigned = self.assign(&expr.name, value.duplicate());
        proof {
            lemma_settles(old(self)@, mid, self@);
        }
        match assigned {
            Ok(()) => Ok(value),
            Err(e) => Err(e),
        }
    }

    fn visit_binary_expr(&mut self, expr: &BinaryExpr) -> (r: Result<Value, Error>)
        requires
            old(self).wf(),
        ensures
            final(self).wf(),
            (Ran { state: final(self)@, out: r, whole: true }) == eval_kind(
                old(self)@,
                Expr::Binary(*expr),
                final(self).trace(),
            ),
            final(self)@.settles(old(self)@),
            !(r is Err && r->Err_0 is Return),
            constant(*expr.left) && constant(*expr.right) ==> final(self)@.untouched(old(self)@)
                && (r is Ok ==> plain(r->Ok_0)),
        decreases old(self)@.budget, 3int,
    {
        let l = self.evaluate(&expr.left);
        let ghost t0 = self.trace@;
        let left = match l {
            Ok(v) => v,
            Err(e) => {
                proof {
                    self.trace@ = Trace::Parts(seq![t0, Trace::Nothing, Trace::Nothing]);
                }
                return Err(e);
            },
        };
        let ghost mid = self@;
        let r = self.evaluate(&expr.right);
        let ghost t1 = self.trace@;
        proof {
            lemma_settles(old(self)@, mid, self@);
        }
        let right = match r {
            Ok(v) => v,
            Err(e) => {
                proof {
                    self.trace@ = Trace::Parts(seq![t0, t1, Trace::Nothing]);
                }
                return Err(e);
            },
        };
        let res = binary_op(&self.host, &expr.op, &left, &right);
        proof {
            self.trace@ = Trace::Parts(seq![t0, t1, taken_for(res)]);
        }
        res
    }

    fn visit_logical_expr(&mut self, expr: &LogicalExpr) -> (r: Result<Value, Error>)
        requires
            old(self).wf(),
        ensures
            final(self).wf(),
            (Ran { state: final(self)@, out: r, whole: true }) == eval_kind(
                old(self)@,
                Expr::Logical(*expr),
                final(self).trace(),
            ),
            final(self)@.settles(old(self)@),
            !(r is Err && r->Err_0 is Return),
            constant(*expr.left) && constant(*expr.right) ==> final(self)@.untouched(old(self)@)
                && (r is Ok ==> plain(r->Ok_0)),
        decreases old(self)@.budget, 3int,
    {
        let l = self.evaluate(&expr.left);
        let ghost t0 = self.trace@;
        proof {
            self.trace@ = Trace::Parts(seq![t0, Trace::Nothing]);
        }
        let left = match l {
            Ok(v) => v,
            Err(e) => {
                return Err(e);
            },
        };
        if is_short_circuit(&expr.op, &left) {
            return Ok(left);
        }
        let ghost mid = self@;
        let r = self.evaluate(&expr.right);
        proof {
            self.trace@ = Trace::Parts(seq![t0, self.trace@]);
            lemma_settles(old(self)@, mid, self@);
        }
        r
    }

    fn visit_var_expr(&mut self, expr: &VarExpr) -> (r: Result<Value, Error>)
        requires
            old(self).wf(),
        ensures
            final(self)@ == old(self)@,
            final(self).wf(),
            (Ran { state: final(self)@, out: r, whole: true }) == eval_kind(
                old(self)@,
                Expr::Var(*expr),
                final(self).trace(),
            ),
            final(self)@.settles(old(self)@),
            !(r is Err && r->Err_0 is Return),
    {
        proof {
            lemma_settles_self(self@);
        }
        match self.env.get(&expr.name) {
            Ok(Value::Undefined) => Err(Error::UndfinedVar { token: expr.name.duplicate() }),
            Ok(v) => Ok(v),
            Err(e) => Err(Error::Env(e)),
        }
    }

    fn visit_literal_expr(&mut self, expr: &LiteralExpr) -> (r: Result<Value, Error>)
        requires
            old(self).wf(),
        ensures
            final(self)@ == old(self)@,
            final(self).wf(),
            (Ran { state: final(self)@, out: r, whole: true }) == eval_kind(
                old(self)@,
                Expr::Literal(*expr),
                final(self).trace(),
            ),
            final(self)@.settles(old(self)@),
            r == Ok::<Value, Error>(expr.value),
    {
        proof {
            lemma_settles_self(self@);
        }
        Ok(expr.value.duplicate())
    }

    fn visit_unary_expr(&mut self, expr: &UnaryExpr) -> (r: Result<Value, Error>)
        requires
            old(self).wf(),
        ensures
            final(self).wf(),
            (Ran { state: final(self)@, out: r, whole: true }) == eval_kind(
                old(self)@,
                Expr::Unary(*expr),
                final(self).trace(),
            ),
            final(self)@.settles(old(self)@),
            !(r is Err && r->Err_0 is Return),
            constant(*expr.right) ==> final(self)@.untouched(old(self)@) && (r is Ok ==> plain(
                r->Ok_0,
            )),
        decreases old(self)@.budget, 3int,
    {
        let r = self.evaluate(&expr.right);
        proof {
            self.trace@ = Trace::Parts(seq![self.trace@]);
        }
        let right = match r {
            Ok(v) => v,
            Err(e) => {
                return Err(e);
            },
        };
        unary_op(&expr.op, &right)
    }

    fn visit_group_expr(&mut self, expr: &GroupExpr) -> (r: Result<Value, Error>)
        requires
            old(self).wf(),
        ensures
            final(self).wf(),
            (Ran { state: final(self)@, out: r, whole: true }) == eval_kind(
                old(self)@,
                Expr::Group(*expr),
                final(self).trace(),
            ),
            final(self)@.settles(old(self)@),
            !(r is Err && r->Err_0 is Return),
            constant(*expr.expr) ==> final(self)@.untouched(old(self)@) && (r is Ok ==> plain(
                r->Ok_0,
            )),
        decreases old(self)@.budget, 3int,
    {
        let r = self.evaluate(&expr.expr);
        proof {
            self.trace@ = Trace::Parts(seq![self.trace@]);
        }
        r
    }

    /// Evaluates the arguments of a call, in order.
    fn arguments(&mut self, args: &Vec<Expr>) -> (r: Result<Vec<Value>, Error>)
        requires
            old(self).wf(),
        ensures
            final(self).wf(),
            ({
                let want = eval_args(old(self)@, args@, final(self).trace(), 0, Seq::empty());
                &&& want.whole
                &&& want.state == final(self)@
                &&& match r {
                    Ok(given) => want.out == Ok::<Seq<Value>, Error>(given@),
                    Err(e) => want.out == Err::<Seq<Value>, Error>(e),
                }
            }),
            final(self)@.settles(old(self)@),
            !(r is Err && r->Err_0 is Return),
        decreases old(self)@.budget, 2int,
    {
        let ghost start = self@;
        let ghost mut done: Seq<Trace> = Seq::empty();
        let mut given: Vec<Value> = Vec::new();
        let mut i: usize = 0;
        proof {
            lemma_settles_self(self@);
        }
        while i < args.len()
            invariant
                self.wf(),
                self@.settles(start),
                start == old(self)@,
                i <= args@.len(),
                given@.len() == i,
                done.len() == i,
                forall|rest: Seq<Trace>| #[trigger]
                    eval_args(start, args@, extended(done, rest), 0, Seq::empty()) == eval_args(
                        self@,
                        args@,
                        extended(done, rest),
                        i as int,
                        given@,
                    ),
            decreases args@.len() - i,
        {
            let ghost mid = self@;
            let ghost before = done;
            let ghost so_far = given@;
            let r = self.evaluate(&args[i]);
            proof {
                lemma_settles(start, mid, self@);
                let t = self.trace@;
                done = before.push(t);
                assert forall|rest: Seq<Trace>| #[trigger]
                    eval_args(start, args@, extended(done, rest), 0, Seq::empty()) == eval_args(
                        mid,
                        args@,
                        extended(done, rest),
                        i as int,
                        so_far,
                    ) && parts(extended(done, rest))[i as int] == t by {
                    let more = seq![t] + rest;
                    assert(before + more =~= done + rest);
                    assert(extended(before, more) == extended(done, rest));
                }
            }
            match r {
                Ok(v) => {
                    given.push(v);
                },
                Err(e) => {
                    proof {
                        self.trace@ = extended(done, Seq::empty());
                    }
                    return Err(e);
                },
            }
            i = i + 1;
        }
        proof {
            self.trace@ = extended(done, Seq::empty());
        }
        Ok(given)
    }

    #[verifier::rlimit(60)]
    fn visit_call_expr(&mut self, expr: &CallExpr) -> (r: Result<Value, Error>)
        requires
            old(self).wf(),
        ensures
            final(self).wf(),
            (Ran { state: final(self)@, out: r, whole: true }) == eval_kind(
                old(self)@,
                Expr::Call(*expr),
                final(self).trace(),
            ),
            final(self)@.settles(old(self)@),
            !(r is Err && r->Err_0 is Return),
            constant(*expr.callee) ==> final(self)@.untouched(old(self)@) && r is Err,
        decreases old(self)@.budget, 3int,
    {
        let c = self.evaluate(&expr.callee);
        let ghost t0 = self.trace@;
        proof {
            self.trace@ = Trace::Parts(seq![t0, Trace::Nothing, Trace::Nothing]);
        }
        let callee = match c {
            Ok(v) => v,
            Err(e) => {
                return Err(e);
            },
        };
        if !callee.is_callable() {
            return Err(Error::NotAFunction { token: expr.paren.duplicate() });
        }
        let ghost first = self@;
        let a = self.arguments(&expr.args);
        let ghost t1 = self.trace@;
        proof {
            self.trace@ = Trace::Parts(seq![t0, t1, Trace::Nothing]);
            lemma_settles(old(self)@, first, self@);
        }
        let args = match a {
            Ok(v) => v,
            Err(e) => {
                return Err(e);
            },
        };
        let arity = match &callee {
            Value::Function(f) => f.arity(),
            Value::Class(c) => c.arity(),
            _ => 0,
        };
        if args.len() != arity {
            return Err(
                Error::FunctionArity {
                    token: expr.paren.duplicate(),
                    expected: arity,
                    actual: args.len(),
                },
            );
        }
        let ghost mid = self@;
        let r = self.apply(&callee, args);
        proof {
            self.trace@ = Trace::Parts(seq![t0, t1, self.trace@]);
            lemma_settles(old(self)@, mid, self@);
        }
        r
    }

    /// Calls a function or a class with as many arguments as it takes, and
    /// counts the call while it is under way: what `apply` says, for the
    /// trace of this call.
    pub fn apply(&mut self, callee: &Value, args: Vec<Value>) -> (r: Result<Value, Error>)
        requires
            old(self).wf(),
            *callee is Function || *callee is Class,
            args@.len() == crate::semantics::arity_of(*callee),
        ensures
            final(self).wf(),
            (Ran { state: final(self)@, out: r, whole: true }) == apply(
                old(self)@,
                *callee,
                args@,
                final(self).trace(),
            ),
            final(self)@.settles(old(self)@),
            !(r is Err && r->Err_0 is Return),
        decreases old(self)@.budget, 2int, 1int,
    {
        proof {
            lemma_settles_self(self@);
        }
        if self.fn_depth == usize::MAX {
            return Err(Error::Exhausted);
        }
        let ghost mid = self@;
        self.fn_depth = self.fn_depth + 1;
        let ghost inside = self@;
        proof {
            assert(inside.objects =~= mid.objects);
            assert(inside == mid.at_depth(mid.depth + 1));
        }
        let res = match callee {
            Value::Function(f) => self.call(f, args),
            Value::Class(c) => Ok(self.instantiate(c)),
            _ => Ok(Value::Nil),
        };
        let ghost after = self@;
        self.fn_depth = self.fn_depth - 1;
        proof {
            assert(self@.objects =~= after.objects);
            assert(self@ == after.at_depth((after.depth - 1) as nat));
            lemma_extends_transitive(mid.env, inside.env, self@.env);
            assert(mid.output =~= self@.output.subrange(0, mid.output.len() as int));
        }
        match res {
            Ok(v) => Ok(v),
            Err(e) => Err(Error::CallableError(e)),
        }
    }

    fn visit_get_expr(&mut self, expr: &GetExpr) -> (r: Result<Value, Error>)
        requires
            old(self).wf(),
        ensures
            final(self).wf(),
            (Ran { state: final(self)@, out: r, whole: true }) == eval_kind(
                old(self)@,
                Expr::Get(*expr),
                final(self).trace(),
            ),
            final(self)@.settles(old(self)@),
            !(r is Err && r->Err_0 is Return),
            constant(*expr.object) ==> final(self)@.untouched(old(self)@) && r is Err,
        decreases old(self)@.budget, 3int,
    {
        let o = self.evaluate(&expr.object);
        proof {
            self.trace@ = Trace::Parts(seq![self.trace@]);
        }
        let object = match o {
            Ok(v) => v,
            Err(e) => {
                return Err(e);
            },
        };
        match object {
            Value::Instance(at) => self.property(&at, &expr.name),
            _ => Err(Error::NotAnInstance { token: expr.name.duplicate() }),
        }
    }

    fn visit_set_expr(&mut self, expr: &SetExpr) -> (r: Result<Value, Error>)
        requires
            old(self).wf(),
        ensures
            final(self).wf(),
            (Ran { state: final(self)@, out: r, whole: true }) == eval_kind(
                old(self)@,
                Expr::SetProperty(*expr),
                final(self).trace(),
            ),
            final(self)@.settles(old(self)@),
            !(r is Err && r->Err_0 is Return),
            constant(*expr.object) ==> final(self)@.untouched(old(self)@) && r is Err,
        decreases old(self)@.budget, 3int,
    {
        let o = self.evaluate(&expr.object);
        let ghost t0 = self.trace@;
        proof {
            self.trace@ = Trace::Parts(seq![t0, Trace::Nothing]);
        }
        let object = match o {
            Ok(v) => v,
            Err(e) => {
                return Err(e);
            },
        };
        let at = match object {
            Value::Instance(at) => at,
            _ => {
                return Err(Error::NotAnInstance { token: expr.name.duplicate() });
            },
        };
        let ghost mid = self@;
        let v = self.evaluate(&expr.value);
        proof {
            self.trace@ = Trace::Parts(seq![t0, self.trace@]);
            lemma_settles(old(self)@, mid, self@);
        }
        let value = match v {
            Ok(v) => v,
            Err(e) => {
                return Err(e);
            },
        };
        let ghost late = self@;
        let r = self.set_property(&at, &expr.name, value);
        proof {
            lemma_settles(old(self)@, late, self@);
        }
        r
    }

    /// The value of the property that `name` spells of the instance behind
    /// `at`. A property that was never set is an error, and so is every
    /// property of a handle that points at no instance.
    pub fn property(&self, at: &InstanceRef, name: &Token) -> (r: Result<Value, Error>)
        requires
            self.wf(),
        ensures
            r == crate::semantics::property(self@, *at, *name),
    {
        if at.id >= self.heap.len() {
            return Err(
                Error::Instance(InstanceError::UndefinedProperty { name: name.lexeme.0.clone() }),
            );
        }
        match self.heap[at.id].get(name.lexeme.as_str()) {
            Ok(v) => Ok(v),
            Err(_) => Err(
                Error::Instance(InstanceError::UndefinedProperty { name: name.lexeme.0.clone() }),
            ),
        }
    }

    /// Gives the property that `name` spells of the instance behind `at`
    /// the value `value`, and returns the value. Nothing can be set through
    /// a handle that points at no instance.
    pub fn set_property(&mut self, at: &InstanceRef, name: &Token, value: Value) -> (r: Result<
        Value,
        Error,
    >)
        requires
            old(self).wf(),
        ensures
            final(self).wf(),
            (Ran { state: final(self)@, out: r, whole: true }) == crate::semantics::set_property(
                old(self)@,
                *at,
                *name,
                value,
            ),
            final(self)@.settles(old(self)@),
            !(r is Err && r->Err_0 is Return),
            final(self).trace() == old(self).trace(),
    {
        proof {
            lemma_settles_self(self@);
        }
        if at.id >= self.heap.len() {
            return Err(
                Error::Instance(InstanceError::UndefinedProperty { name: name.lexeme.0.clone() }),
            );
        }
        let kept = value.duplicate();
        let _ = self.heap[at.id].set(name.lexeme.as_str(), value);
        proof {
            assert(self@.objects =~= old(self)@.objects.update(
                at.id as int,
                old(self)@.objects[at.id as int].insert(name.lexeme@, value),
            ));
        }
        Ok(kept)
    }

    /// Makes an instance of the class, without properties.
    pub fn instantiate(&mut self, class: &Class) -> (r: Value)
        requires
            old(self).wf(),
        ensures
            final(self).wf(),
            (Ran { state: final(self)@, out: Ok::<Value, Error>(r), whole: true })
                == crate::semantics::instantiate(old(self)@, *class),
            final(self)@.settles(old(self)@),
            final(self).trace() == old(self).trace(),
    {
        proof {
            lemma_settles_self(self@);
        }
        let id = self.heap.len();
        self.heap.push(Instance::new(class.duplicate(), Fields::new()));
        proof {
            assert(self@.objects =~= old(self)@.objects.push(Map::empty()));
        }
        Value::Instance(InstanceRef { id, class: class.duplicate() })
    }

    /// Calls a function with as many arguments as it takes: what `call`
    /// says, for the trace of this call.
    ///
    /// A native function is the host's. For a function of the language a
    /// new scope is made under the scope it was declared in, the parameters
    /// are bound there to the arguments, and the body runs in it; then the
    /// scope of the caller is active again, however the body ended. The
    /// result is the value of the `return` that ended the body, or nil.
    pub fn call(&mut self, function: &Function, args: Vec<Value>) -> (r: Result<
        Value,
        CallableError,
    >)
        requires
            old(self).wf(),
            args@.len() == function.arity_spec(),
        ensures
            final(self).wf(),
            (Called { state: final(self)@, out: r, whole: true }) == call(
                old(self)@,
                *function,
                args@,
                final(self).trace(),
            ),
            final(self)@.settles(old(self)@),
        decreases old(self)@.budget, 2int, 0int,
    {
        proof {
            lemma_settles_self(self@);
        }
        match function {
            Function::Native(native) => {
                match self.host.call_native(native.name.as_str(), &args) {
                    Ok(v) => {
                        proof {
                            self.trace@ = Trace::Value(v);
                        }
                        Ok(v)
                    },
                    Err(msg) => {
                        proof {
                            self.trace@ = Trace::Text(msg);
                        }
                        Err(CallableError::Generic(msg))
                    },
                }
            },
            Function::LoxFunction(f) => {
                if !self.env.is_valid(f.closure) {
                    return Err(CallableError::Env(EnvError::NoParentEnv));
                }
                let scope = self.env.child_of(f.closure);
                let caller = self.env.enter(scope);
                let ghost inside = self@;
                let ghost entered = self@.env;
                proof {
                    assert(inside.objects =~= old(self)@.objects);
                    assert(entered == old(self)@.env.grown(f.closure).at(
                        EnvRef { frame: old(self)@.env.frames.len() as usize, cursor: 0 },
                    ));
                }
                let mut failed: Option<EnvError> = None;
                let mut i: usize = 0;
                while i < args.len() && failed.is_none()
                    invariant
                        self.wf(),
                        self@.env.extends(inside.env),
                        self@.env.current.frame == inside.env.current.frame,
                        self@.objects == inside.objects,
                        self@.output == inside.output,
                        self@.depth == inside.depth,
                        self@.budget == inside.budget,
                        self@.classes == inside.classes,
                        i <= args@.len(),
                        args@.len() == f.stmt.params@.len(),
                        entered == inside.env,
                        failed is None ==> bind(entered, f.stmt.params@, args@, 0) == bind(
                            self@.env,
                            f.stmt.params@,
                            args@,
                            i as int,
                        ) && bound_so_far(entered, f.stmt.params@, args@, 0) == bound_so_far(
                            self@.env,
                            f.stmt.params@,
                            args@,
                            i as int,
                        ),
                        failed is Some ==> bind(entered, f.stmt.params@, args@, 0) == Err::<
                            EnvView,
                            EnvError,
                        >(failed->Some_0) && bound_so_far(entered, f.stmt.params@, args@, 0)
                            == self@.env,
                    decreases args@.len() - i,
                {
                    let ghost mid = self@;
                    match self.env.define(f.stmt.params[i].lexeme.as_str(), args[i].duplicate()) {
                        Ok(()) => {},
                        Err(_) => {
                            failed = Some(
                                EnvError::AlreadyDefined {
                                    name: f.stmt.params[i].lexeme.0.clone(),
                                },
                            );
                        },
                    }
                    proof {
                        assert(self@.objects =~= mid.objects);
                        lemma_extends_transitive(inside.env, mid.env, self@.env);
                    }
                    i = i + 1;
                }
                let ghost bound = self@;
                proof {
                    lemma_extends_transitive(old(self)@.env, inside.env, bound.env);
                    lemma_extends_keeps_valid(old(self)@.env, bound.env, caller);
                }
                if let Some(e) = failed {
                    let _ = self.env.enter(caller);
                    proof {
                        assert(self@.objects =~= bound.objects);
                    }
                    return Err(CallableError::Env(e));
                }
                let res = self.execute_block(&f.stmt.body);
                let ghost done = self@;
                proof {
                    self.trace@ = Trace::Parts(seq![self.trace@]);
                    lemma_extends_transitive(old(self)@.env, bound.env, done.env);
                    lemma_extends_keeps_valid(old(self)@.env, done.env, caller);
                }
                let _ = self.env.enter(caller);
                proof {
                    assert(self@.objects =~= done.objects);
                    assert(old(self)@.output =~= self@.output.subrange(
                        0,
                        old(self)@.output.len() as int,
                    )) by {
                        assert(bound.output =~= done.output.subrange(0, bound.output.len() as int));
                    }
                }
                match res {
                    Ok(()) => Ok(Value::Nil),
                    Err(Error::Return(value)) => Ok(value),
                    Err(e) => Err(CallableError::Call(Box::new(e))),
                }
            },
        }
    }
}

} // verus!
