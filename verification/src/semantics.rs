use crate::class::Class;
use crate::env::{EnvError, EnvRef, EnvView};
use crate::expr::Expr;
use crate::func::{CallableError, Function, LoxFunction};
use crate::instance::{InstanceError, InstanceRef};
use crate::interpreter::{binary_outcome, short_circuits, unary_outcome, Error, Outcome, State};
use crate::number::Number;
use crate::stmt::Stmt;
use crate::token::Token;
use crate::value::Value;
use vstd::prelude::*;

verus! {

/// What a run took from outside the program: the answers of the host, and
/// the strings that `+` made. It has the shape of the run: a construct with
/// parts has the traces of its parts, in the order they ran.
pub enum Trace {
    /// Nothing was taken.
    Nothing,
    /// A number that the host computed.
    Number(Number),
    /// A text: what the host shows of a number, a string that `+` made, or
    /// the words with which a native function failed.
    Text(String),
    /// What a native function returned.
    Value(Value),
    /// The traces of the parts.
    Parts(Seq<Trace>),
}

/// The traces of the parts, where there are parts.
pub open spec fn parts(t: Trace) -> Seq<Trace> {
    match t {
        Trace::Parts(p) => p,
        _ => Seq::empty(),
    }
}

/// The state after a run, what the run gave, and whether the trace held
/// every part that the run asked for. The runs of the interpreter are whole.
pub struct Ran<T> {
    pub state: State,
    pub out: Result<T, Error>,
    pub whole: bool,
}

/// A run that gave a value.
pub open spec fn gave<T>(state: State, value: T) -> Ran<T> {
    Ran { state, out: Ok(value), whole: true }
}

/// A run that stopped with an error.
pub open spec fn stopped<T>(state: State, err: Error) -> Ran<T> {
    Ran { state, out: Err(err), whole: true }
}

/// A run that stopped with the error of one of its parts.
pub open spec fn passed<T>(state: State, err: Error, whole: bool) -> Ran<T> {
    Ran { state, out: Err(err), whole }
}

/// A run whose trace lacks a part, or holds another than was asked for.
pub open spec fn lost<T>(state: State) -> Ran<T> {
    Ran { state, out: Err(Error::Exhausted), whole: false }
}

impl State {
    /// The state with one step less.
    pub open spec fn ticked(self) -> State {
        State { budget: (self.budget - 1) as nat, ..self }
    }

    /// The state with other scopes.
    pub open spec fn with_env(self, env: EnvView) -> State {
        State { env, ..self }
    }

    /// The state with one more line of output.
    pub open spec fn printed(self, text: Seq<char>) -> State {
        State { output: self.output + text + "\n"@, ..self }
    }

    /// The state with one more call under way, or one less.
    pub open spec fn at_depth(self, depth: nat) -> State {
        State { depth, ..self }
    }
}

/// What a lookup of the variable gives: an error for a name that is not
/// bound, and for one that was declared without a value.
pub open spec fn variable(s: State, name: Token) -> Result<Value, Error> {
    match s.env.lookup(s.env.current, name.lexeme@) {
        Some(Value::Undefined) => Err(Error::UndfinedVar { token: name }),
        Some(v) => Ok(v),
        None => Err(Error::Env(EnvError::NotFound { token: name })),
    }
}

/// Binding `name` to `value` in the active frame.
pub open spec fn define(s: State, name: Token, value: Value) -> Ran<()> {
    if s.env.shadows(name.lexeme@) {
        stopped(s, Error::Env(EnvError::AlreadyDefined { name: name.lexeme.0 }))
    } else {
        gave(s.with_env(s.env.defined(name.lexeme@, value)), ())
    }
}

/// Giving the nearest binding of `name` the value `value`.
pub open spec fn assign(s: State, name: Token, value: Value) -> Ran<()> {
    match s.env.locate(s.env.current, name.lexeme@) {
        Some((f, j)) => gave(s.with_env(s.env.updated(f, j, value)), ()),
        None => stopped(s, Error::Env(EnvError::UndefinedAssign { name: name.lexeme.0 })),
    }
}

/// What a binary operator gives for two values. `leaf` is what was taken
/// for it: the number that the host computed, or the string that was made.
/// There is no result where something else was taken than the operator asks
/// for.
pub open spec fn binary(op: Token, left: Value, right: Value, leaf: Trace) -> Option<
    Result<Value, Error>,
> {
    match binary_outcome(op, left, right) {
        Outcome::Fails(e) => Some(Err(e)),
        Outcome::Gives(v) => Some(Ok(v)),
        Outcome::Joins(text) => match leaf {
            Trace::Text(made) => if made@ == text {
                Some(Ok(Value::String(made)))
            } else {
                None
            },
            _ => None,
        },
        Outcome::Computes => match leaf {
            Trace::Number(n) => Some(Ok(Value::Number(n))),
            _ => None,
        },
    }
}

/// What `print` writes for a value. `leaf` is the text that the host gave
/// for a number.
pub open spec fn shown(value: Value, leaf: Trace) -> Seq<char> {
    match value {
        Value::Number(_) => match leaf {
            Trace::Text(text) => text@,
            _ => Seq::empty(),
        },
        _ => value.text_spec(),
    }
}

/// The value of a property of an instance.
pub open spec fn property(s: State, at: InstanceRef, name: Token) -> Result<Value, Error> {
    if at.id < s.objects.len() && s.objects[at.id as int].contains_key(name.lexeme@) {
        Ok(s.objects[at.id as int][name.lexeme@])
    } else {
        Err(Error::Instance(InstanceError::UndefinedProperty { name: name.lexeme.0 }))
    }
}

/// Giving a property of an instance a value.
pub open spec fn set_property(s: State, at: InstanceRef, name: Token, value: Value) -> Ran<Value> {
    if at.id < s.objects.len() {
        gave(
            State {
                objects: s.objects.update(
                    at.id as int,
                    s.objects[at.id as int].insert(name.lexeme@, value),
                ),
                ..s
            },
            value,
        )
    } else {
        stopped(s, Error::Instance(InstanceError::UndefinedProperty { name: name.lexeme.0 }))
    }
}

/// Making an instance of a class.
pub open spec fn instantiate(s: State, class: Class) -> Ran<Value> {
    gave(
        State { objects: s.objects.push(Map::empty()), ..s },
        Value::Instance(InstanceRef { id: s.objects.len() as usize, class }),
    )
}

/// How many arguments a call of the value takes.
pub open spec fn arity_of(callee: Value) -> nat {
    match callee {
        Value::Function(f) => f.arity_spec(),
        _ => 0,
    }
}

/// Binding the parameters from `i` on to the arguments, in the active frame.
pub open spec fn bind(env: EnvView, params: Seq<Token>, args: Seq<Value>, i: int) -> Result<
    EnvView,
    EnvError,
>
    decreases params.len() - i,
{
    if i < 0 || i >= params.len() || i >= args.len() {
        Ok(env)
    } else if env.shadows(params[i].lexeme@) {
        Err(EnvError::AlreadyDefined { name: params[i].lexeme.0 })
    } else {
        bind(env.defined(params[i].lexeme@, args[i]), params, args, i + 1)
    }
}

/// What the body of a function made of the call: nil where it ran to its
/// end, the value of the `return` that ended it, or its error.
pub open spec fn returned(out: Result<(), Error>) -> Result<Value, CallableError> {
    match out {
        Ok(()) => Ok(Value::Nil),
        Err(Error::Return(value)) => Ok(value),
        Err(e) => Err(CallableError::Call(Box::new(e))),
    }
}

/// Evaluating an expression: a step is taken from the budget, then the
/// expression is evaluated by its kind.
pub open spec fn eval(s: State, e: Expr, t: Trace) -> Ran<Value>
    decreases t, 9int, 0int,
{
    if s.budget == 0 {
        stopped(s, Error::Exhausted)
    } else {
        eval_kind(s.ticked(), e, t)
    }
}

/// Evaluating an expression by its kind. The trace holds one part for each
/// operand, in order, and behind them what the operator itself took.
pub open spec fn eval_kind(s: State, e: Expr, t: Trace) -> Ran<Value>
    decreases t, 8int, 0int,
{
    match e {
        Expr::Literal(l) => gave(s, l.value),
        Expr::Var(v) => Ran { state: s, out: variable(s, v.name), whole: true },
        Expr::Group(g) => if parts(t).len() >= 1 {
            eval(s, *g.expr, parts(t)[0])
        } else {
            lost(s)
        },
        Expr::Unary(u) => if parts(t).len() >= 1 {
            let r = eval(s, *u.right, parts(t)[0]);
            match r.out {
                Ok(v) => Ran { state: r.state, out: unary_outcome(u.op, v), whole: true },
                Err(_) => r,
            }
        } else {
            lost(s)
        },
        Expr::Binary(x) => if parts(t).len() >= 3 {
            let l = eval(s, *x.left, parts(t)[0]);
            match l.out {
                Ok(a) => {
                    let r = eval(l.state, *x.right, parts(t)[1]);
                    match r.out {
                        Ok(b) => match binary(x.op, a, b, parts(t)[2]) {
                            Some(out) => Ran { state: r.state, out, whole: true },
                            None => lost(r.state),
                        },
                        Err(_) => r,
                    }
                },
                Err(_) => l,
            }
        } else {
            lost(s)
        },
        Expr::Logical(x) => if parts(t).len() >= 2 {
            let l = eval(s, *x.left, parts(t)[0]);
            match l.out {
                Ok(a) => if short_circuits(x.op, a) {
                    l
                } else {
                    eval(l.state, *x.right, parts(t)[1])
                },
                Err(_) => l,
            }
        } else {
            lost(s)
        },
        Expr::Assign(x) => if parts(t).len() >= 1 {
            let r = eval(s, *x.value, parts(t)[0]);
            match r.out {
                Ok(v) => {
                    let a = assign(r.state, x.name, v);
                    match a.out {
                        Ok(()) => gave(a.state, v),
                        Err(e) => passed(a.state, e, a.whole),
                    }
                },
                Err(_) => r,
            }
        } else {
            lost(s)
        },
        Expr::Get(x) => if parts(t).len() >= 1 {
            let o = eval(s, *x.object, parts(t)[0]);
            match o.out {
                Ok(Value::Instance(at)) => Ran {
                    state: o.state,
                    out: property(o.state, at, x.name),
                    whole: true,
                },
                Ok(_) => stopped(o.state, Error::NotAnInstance { token: x.name }),
                Err(_) => o,
            }
        } else {
            lost(s)
        },
        Expr::SetProperty(x) => if parts(t).len() >= 2 {
            let o = eval(s, *x.object, parts(t)[0]);
            match o.out {
                Ok(Value::Instance(at)) => {
                    let v = eval(o.state, *x.value, parts(t)[1]);
                    match v.out {
                        Ok(given) => set_property(v.state, at, x.name, given),
                        Err(_) => v,
                    }
                },
                Ok(_) => stopped(o.state, Error::NotAnInstance { token: x.name }),
                Err(_) => o,
            }
        } else {
            lost(s)
        },
        Expr::Call(x) => if parts(t).len() >= 3 {
            let c = eval(s, *x.callee, parts(t)[0]);
            match c.out {
                Ok(f) => if !(f is Function || f is Class) {
                    stopped(c.state, Error::NotAFunction { token: x.paren })
                } else {
                    let a = eval_args(c.state, x.args@, parts(t)[1], 0, Seq::empty());
                    match a.out {
                        Ok(given) => if given.len() != arity_of(f) {
                            stopped(
                                a.state,
                                Error::FunctionArity {
                                    token: x.paren,
                                    expected: arity_of(f) as usize,
                                    actual: given.len() as usize,
                                },
                            )
                        } else {
                            apply(a.state, f, given, parts(t)[2])
                        },
                        Err(e) => passed(a.state, e, a.whole),
                    }
                },
                Err(_) => c,
            }
        } else {
            lost(s)
        },
    }
}

/// Calling a function or a class with as many arguments as it takes: the
/// call is counted while it is under way, and an error of it is the error
/// of the expression.
pub open spec fn apply(s: State, callee: Value, given: Seq<Value>, t: Trace) -> Ran<Value>
    decreases t, 7int, 0int,
{
    if s.depth >= usize::MAX {
        stopped(s, Error::Exhausted)
    } else {
        let inside = s.at_depth(s.depth + 1);
        let r = match callee {
            Value::Function(function) => call(inside, function, given, t),
            Value::Class(class) => {
                let made = instantiate(inside, class);
                Called { state: made.state, out: Ok(made.out->Ok_0), whole: true }
            },
            _ => Called { state: inside, out: Ok(Value::Nil), whole: true },
        };
        let after = r.state.at_depth((r.state.depth - 1) as nat);
        match r.out {
            Ok(v) => Ran { state: after, out: Ok(v), whole: r.whole },
            Err(e) => passed(after, Error::CallableError(e), r.whole),
        }
    }
}

/// Evaluating the arguments of a call from the `i`-th on, behind the values
/// `given`.
pub open spec fn eval_args(s: State, args: Seq<Expr>, t: Trace, i: int, given: Seq<Value>) -> Ran<
    Seq<Value>,
>
    decreases t, 7int, args.len() - i,
{
    if i < 0 || i >= args.len() {
        gave(s, given)
    } else if i < parts(t).len() {
        let r = eval(s, args[i], parts(t)[i]);
        match r.out {
            Ok(v) => eval_args(r.state, args, t, i + 1, given.push(v)),
            Err(e) => passed(r.state, e, r.whole),
        }
    } else {
        lost(s)
    }
}

/// The state after a call, what the call gave, and whether the trace held
/// every part that the call asked for.
pub struct Called {
    pub state: State,
    pub out: Result<Value, CallableError>,
    pub whole: bool,
}

/// What a call makes of a function and its arguments.
///
/// A native function gives what the host gave. For a function of the
/// language a frame is made under the scope of its declaration, the
/// parameters are bound in it, and the body runs as a block in it; then the
/// scope of the caller is active again.
pub open spec fn call(s: State, function: Function, args: Seq<Value>, t: Trace) -> Called
    decreases t, 6int, 0int,
{
    match function {
        Function::Native(_) => match t {
            Trace::Value(v) => Called { state: s, out: Ok(v), whole: true },
            Trace::Text(msg) => Called {
                state: s,
                out: Err(CallableError::Generic(msg)),
                whole: true,
            },
            _ => Called {
                state: s,
                out: Err(CallableError::Env(EnvError::NoParentEnv)),
                whole: false,
            },
        },
        Function::LoxFunction(f) => if !s.env.valid(f.closure) {
            Called { state: s, out: Err(CallableError::Env(EnvError::NoParentEnv)), whole: true }
        } else {
            let caller = s.env.current;
            let scope = EnvRef { frame: s.env.frames.len() as usize, cursor: 0 };
            let entered = s.env.grown(f.closure).at(scope);
            match bind(entered, f.stmt.params@, args, 0) {
                Err(e) => Called {
                    state: s.with_env(bound_so_far(entered, f.stmt.params@, args, 0).at(caller)),
                    out: Err(CallableError::Env(e)),
                    whole: true,
                },
                Ok(bound) => if parts(t).len() >= 1 {
                    let r = block(s.with_env(bound), f.stmt.body@, parts(t)[0]);
                    Called {
                        state: r.state.with_env(r.state.env.at(caller)),
                        out: returned(r.out),
                        whole: r.whole,
                    }
                } else {
                    Called {
                        state: s.with_env(bound.at(caller)),
                        out: Err(CallableError::Env(EnvError::NoParentEnv)),
                        whole: false,
                    }
                },
            }
        },
    }
}

/// The scopes after as many of the parameters from `i` on were bound as
/// could be.
pub open spec fn bound_so_far(env: EnvView, params: Seq<Token>, args: Seq<Value>, i: int) -> EnvView
    decreases params.len() - i,
{
    if i < 0 || i >= params.len() || i >= args.len() {
        env
    } else if env.shadows(params[i].lexeme@) {
        env
    } else {
        bound_so_far(env.defined(params[i].lexeme@, args[i]), params, args, i + 1)
    }
}

/// Running statements as a block: in a new frame under the active scope,
/// which is left again however the statements end.
pub open spec fn block(s: State, stmts: Seq<Stmt>, t: Trace) -> Ran<()>
    decreases t, 5int, 0int,
{
    let caller = s.env.current;
    let scope = EnvRef { frame: s.env.frames.len() as usize, cursor: 0 };
    let r = run(s.with_env(s.env.grown(caller).at(scope)), stmts, t, 0);
    Ran { state: r.state.with_env(r.state.env.at(caller)), out: r.out, whole: r.whole }
}

/// Running the statements from the `i`-th on, up to the first that fails.
pub open spec fn run(s: State, stmts: Seq<Stmt>, t: Trace, i: int) -> Ran<()>
    decreases t, 4int, stmts.len() - i,
{
    if i < 0 || i >= stmts.len() {
        gave(s, ())
    } else if i < parts(t).len() {
        let r = exec(s, stmts[i], parts(t)[i]);
        match r.out {
            Ok(()) => run(r.state, stmts, t, i + 1),
            Err(_) => r,
        }
    } else {
        lost(s)
    }
}

/// Running a statement: a step is taken from the budget, then the
/// statement is run by its kind.
pub open spec fn exec(s: State, stmt: Stmt, t: Trace) -> Ran<()>
    decreases t, 9int, 0int,
{
    if s.budget == 0 {
        stopped(s, Error::Exhausted)
    } else {
        exec_kind(s.ticked(), stmt, t)
    }
}

/// Running a `while` loop whose trace holds, from the `i`-th part on, the
/// traces of the condition and the body of every round in turn.
pub open spec fn while_loop(s: State, condition: Expr, body: Stmt, t: Trace, i: int) -> Ran<()>
    decreases t, 7int, parts(t).len() - i,
{
    if 0 <= i < parts(t).len() {
        let c = eval(s, condition, parts(t)[i]);
        match c.out {
            Ok(v) => if !v.truthy_spec() {
                gave(c.state, ())
            } else if i + 1 < parts(t).len() {
                let b = exec(c.state, body, parts(t)[i + 1]);
                match b.out {
                    Ok(()) => while_loop(b.state, condition, body, t, i + 2),
                    Err(_) => b,
                }
            } else {
                lost(c.state)
            },
            Err(e) => passed(c.state, e, c.whole),
        }
    } else {
        lost(s)
    }
}

/// Running a statement by its kind.
pub open spec fn exec_kind(s: State, stmt: Stmt, t: Trace) -> Ran<()>
    decreases t, 8int, 0int,
{
    match stmt {
        Stmt::Expr(x) => if parts(t).len() >= 1 {
            let r = eval(s, x.expr, parts(t)[0]);
            match r.out {
                Ok(_) => gave(r.state, ()),
                Err(e) => passed(r.state, e, r.whole),
            }
        } else {
            lost(s)
        },
        Stmt::Print(x) => if parts(t).len() >= 2 {
            let r = eval(s, x.expr, parts(t)[0]);
            match r.out {
                Ok(v) => gave(r.state.printed(shown(v, parts(t)[1])), ()),
                Err(e) => passed(r.state, e, r.whole),
            }
        } else {
            lost(s)
        },
        Stmt::Var(x) => match x.initializer {
            Some(e) => if parts(t).len() >= 1 {
                let r = eval(s, e, parts(t)[0]);
                match r.out {
                    Ok(v) => define(r.state, x.name, v),
                    Err(e) => passed(r.state, e, r.whole),
                }
            } else {
                lost(s)
            },
            None => define(s, x.name, Value::Undefined),
        },
        Stmt::Block(x) => block(s, x.statements@, t),
        Stmt::If(x) => if parts(t).len() >= 2 {
            let c = eval(s, x.condition, parts(t)[0]);
            match c.out {
                Ok(v) => if v.truthy_spec() {
                    exec(c.state, *x.then_stmt, parts(t)[1])
                } else {
                    match x.else_stmt {
                        Some(other) => exec(c.state, *other, parts(t)[1]),
                        None => gave(c.state, ()),
                    }
                },
                Err(e) => passed(c.state, e, c.whole),
            }
        } else {
            lost(s)
        },
        Stmt::While(x) => while_loop(s, x.condition, *x.body, t, 0),
        Stmt::Function(declaration) => define(
            s,
            declaration.name,
            Value::Function(
                Function::LoxFunction(
                    LoxFunction { stmt: declaration, closure: s.env.current },
                ),
            ),
        ),
        Stmt::Return(x) => if s.depth == 0 {
            stopped(s, Error::TopLevelReturn)
        } else if parts(t).len() >= 1 {
            let r = eval(s, x.value, parts(t)[0]);
            match r.out {
                Ok(v) => stopped(r.state, Error::Return(v)),
                Err(e) => passed(r.state, e, r.whole),
            }
        } else {
            lost(s)
        },
        Stmt::Class(x) => {
            let d = define(s, x.name, Value::Nil);
            match d.out {
                Ok(()) => if d.state.classes >= usize::MAX {
                    stopped(d.state, Error::Exhausted)
                } else {
                    let class = Class { name: x.name.lexeme.0, id: d.state.classes as usize };
                    let counted = State { classes: d.state.classes + 1, ..d.state };
                    assign(counted, x.name, Value::Class(class))
                },
                Err(_) => d,
            }
        },
    }
}

} // verus!
