use crate::alike::{
    declaration_alike, expr_alike, exprs_alike, stmt_alike, stmts_alike, tokens_alike,
};
use crate::expr::{Expr, LogicalExpr};
use crate::func::Function;
use crate::interpreter::{
    constant, plain, short_circuits, unary_outcome, Error, State,
};
use crate::semantics::{apply, block, call, eval, eval_kind, exec_kind, parts, shown, Trace};
use crate::stmt::{PrintStmt, Stmt};
use crate::token::{Token, TokenType};
use crate::value::Value;
use vstd::prelude::*;

verus! {

/// `!` twice gives the truthiness of a value, whatever the value.
pub proof fn lemma_double_negation(bang: Token, x: Value)
    requires
        bang.typ == TokenType::Bang,
    ensures
        unary_outcome(bang, x) is Ok,
        unary_outcome(bang, unary_outcome(bang, x)->Ok_0) == Ok::<Value, Error>(
            Value::Bool(x.truthy_spec()),
        ),
{
}

/// Whether a value holds no number that is no number (NaN): it is none
/// itself, and where it is a function, no literal of its body is one.
pub open spec fn without_nan(v: Value) -> bool
    decreases v, 0int,
{
    match v {
        Value::Number(n) => !n.is_nan_spec(),
        Value::Function(Function::LoxFunction(f)) => stmts_without_nan(f.stmt.body@, 0),
        _ => true,
    }
}

/// Whether no literal of the expression holds a NaN.
pub open spec fn expr_without_nan(e: Expr) -> bool
    decreases e, 0int,
{
    match e {
        Expr::Binary(x) => expr_without_nan(*x.left) && expr_without_nan(*x.right),
        Expr::Logical(x) => expr_without_nan(*x.left) && expr_without_nan(*x.right),
        Expr::Literal(x) => without_nan(x.value),
        Expr::Unary(x) => expr_without_nan(*x.right),
        Expr::Group(x) => expr_without_nan(*x.expr),
        Expr::Var(_) => true,
        Expr::Assign(x) => expr_without_nan(*x.value),
        Expr::Call(x) => expr_without_nan(*x.callee) && exprs_without_nan(x.args@, 0),
        Expr::Get(x) => expr_without_nan(*x.object),
        Expr::SetProperty(x) => expr_without_nan(*x.object) && expr_without_nan(*x.value),
    }
}

/// Whether no literal of the expressions from the `i`-th on holds a NaN.
pub open spec fn exprs_without_nan(es: Seq<Expr>, i: int) -> bool
    decreases es, es.len() - i,
{
    if i < 0 || i >= es.len() {
        true
    } else {
        expr_without_nan(es[i]) && exprs_without_nan(es, i + 1)
    }
}

/// Whether no literal of the statement holds a NaN.
pub open spec fn stmt_without_nan(s: Stmt) -> bool
    decreases s, 0int,
{
    match s {
        Stmt::Expr(x) => expr_without_nan(x.expr),
        Stmt::Print(x) => expr_without_nan(x.expr),
        Stmt::Var(x) => match x.initializer {
            Some(e) => expr_without_nan(e),
            None => true,
        },
        Stmt::Block(x) => stmts_without_nan(x.statements@, 0),
        Stmt::If(x) => expr_without_nan(x.condition) && stmt_without_nan(*x.then_stmt) && match x.else_stmt {
            Some(e) => stmt_without_nan(*e),
            None => true,
        },
        Stmt::While(x) => expr_without_nan(x.condition) && stmt_without_nan(*x.body),
        Stmt::Function(f) => stmts_without_nan(f.body@, 0),
        Stmt::Return(x) => expr_without_nan(x.value),
        Stmt::Class(x) => stmts_without_nan(x.methods@, 0),
    }
}

/// Whether no literal of the statements from the `i`-th on holds a NaN.
pub open spec fn stmts_without_nan(ss: Seq<Stmt>, i: int) -> bool
    decreases ss, ss.len() - i,
{
    if i < 0 || i >= ss.len() {
        true
    } else {
        stmt_without_nan(ss[i]) && stmts_without_nan(ss, i + 1)
    }
}

/// A value is equal to itself, unless it holds a number that is no number
/// (NaN), which is equal to nothing.
pub proof fn lemma_equality_reflexive(x: Value)
    requires
        without_nan(x),
    ensures
        x.equals_spec(&x),
    decreases x, 0int,
{
    match x {
        Value::Function(Function::LoxFunction(f)) => {
            lemma_stmts_alike_themselves(f.stmt.body@, 0);
            assert(tokens_alike(f.stmt.params@, f.stmt.params@));
            assert(declaration_alike(*f.stmt, *f.stmt));
        },
        _ => {},
    }
}

/// An expression without NaN is like itself.
pub proof fn lemma_expr_alike_itself(e: Expr)
    requires
        expr_without_nan(e),
    ensures
        expr_alike(e, e),
    decreases e, 0int,
{
    match e {
        Expr::Binary(x) => {
            lemma_expr_alike_itself(*x.left);
            lemma_expr_alike_itself(*x.right);
        },
        Expr::Logical(x) => {
            lemma_expr_alike_itself(*x.left);
            lemma_expr_alike_itself(*x.right);
        },
        Expr::Literal(x) => {
            lemma_equality_reflexive(x.value);
        },
        Expr::Unary(x) => {
            lemma_expr_alike_itself(*x.right);
        },
        Expr::Group(x) => {
            lemma_expr_alike_itself(*x.expr);
        },
        Expr::Var(_) => {},
        Expr::Assign(x) => {
            lemma_expr_alike_itself(*x.value);
        },
        Expr::Call(x) => {
            lemma_expr_alike_itself(*x.callee);
            lemma_exprs_alike_themselves(x.args@, 0);
        },
        Expr::Get(x) => {
            lemma_expr_alike_itself(*x.object);
        },
        Expr::SetProperty(x) => {
            lemma_expr_alike_itself(*x.object);
            lemma_expr_alike_itself(*x.value);
        },
    }
}

/// Expressions without NaN are like themselves.
pub proof fn lemma_exprs_alike_themselves(es: Seq<Expr>, i: int)
    requires
        exprs_without_nan(es, i),
    ensures
        exprs_alike(es, es, i),
    decreases es, es.len() - i,
{
    if 0 <= i < es.len() {
        lemma_expr_alike_itself(es[i]);
        lemma_exprs_alike_themselves(es, i + 1);
    }
}

/// A statement without NaN is like itself.
pub proof fn lemma_stmt_alike_itself(s: Stmt)
    requires
        stmt_without_nan(s),
    ensures
        stmt_alike(s, s),
    decreases s, 0int,
{
    match s {
        Stmt::Expr(x) => {
            lemma_expr_alike_itself(x.expr);
        },
        Stmt::Print(x) => {
            lemma_expr_alike_itself(x.expr);
        },
        Stmt::Var(x) => {
            match x.initializer {
                Some(e) => {
                    lemma_expr_alike_itself(e);
                },
                None => {},
            }
        },
        Stmt::Block(x) => {
            lemma_stmts_alike_themselves(x.statements@, 0);
        },
        Stmt::If(x) => {
            lemma_expr_alike_itself(x.condition);
            lemma_stmt_alike_itself(*x.then_stmt);
            match x.else_stmt {
                Some(e) => {
                    lemma_stmt_alike_itself(*e);
                },
                None => {},
            }
        },
        Stmt::While(x) => {
            lemma_expr_alike_itself(x.condition);
            lemma_stmt_alike_itself(*x.body);
        },
        Stmt::Function(f) => {
            lemma_stmts_alike_themselves(f.body@, 0);
            assert(tokens_alike(f.params@, f.params@));
            assert(declaration_alike(*f, *f));
        },
        Stmt::Return(x) => {
            lemma_expr_alike_itself(x.value);
        },
        Stmt::Class(x) => {
            lemma_stmts_alike_themselves(x.methods@, 0);
        },
    }
}

/// Statements without NaN are like themselves.
pub proof fn lemma_stmts_alike_themselves(ss: Seq<Stmt>, i: int)
    requires
        stmts_without_nan(ss, i),
    ensures
        stmts_alike(ss, ss, i),
    decreases ss, ss.len() - i,
{
    if 0 <= i < ss.len() {
        lemma_stmt_alike_itself(ss[i]);
        lemma_stmts_alike_themselves(ss, i + 1);
    }
}

/// Values of two kinds are never equal.
pub proof fn lemma_equality_across_kinds(x: Value, y: Value)
    requires
        (x is Number) != (y is Number) || (x is String) != (y is String) || (x is Bool) != (y is Bool)
            || (x is Function) != (y is Function) || (x is Class) != (y is Class) || (x is Instance)
            != (y is Instance) || (x is Nil) != (y is Nil) || (x is Undefined) != (y is Undefined),
    ensures
        !x.equals_spec(&y),
        !y.equals_spec(&x),
{
}

/// A logical operator that is done with its left operand does not evaluate
/// its right operand: where the left operand of `or` is truthy, or that of
/// `and` is falsey, state and value are those of the left operand alone,
/// whatever the right operand is and whatever its trace.
pub proof fn lemma_short_circuit(s: State, e: LogicalExpr, t: Trace)
    requires
        parts(t).len() >= 2,
        eval(s, *e.left, parts(t)[0]).out is Ok,
        short_circuits(e.op, eval(s, *e.left, parts(t)[0]).out->Ok_0),
    ensures
        eval_kind(s, Expr::Logical(e), t) == eval(s, *e.left, parts(t)[0]),
{
}

/// `or` is done with a truthy left operand, `and` with a falsey one.
pub proof fn lemma_short_circuit_cases(op: Token, left: Value)
    ensures
        op.typ == TokenType::Or && left.truthy_spec() ==> short_circuits(op, left),
        op.typ == TokenType::And && !left.truthy_spec() ==> short_circuits(op, left),
        op.typ == TokenType::Or && !left.truthy_spec() ==> !short_circuits(op, left),
        op.typ == TokenType::And && left.truthy_spec() ==> !short_circuits(op, left),
{
}

/// `print` writes exactly one line: behind what evaluating the expression
/// wrote, there is what `print` shows of its value, and a newline.
pub proof fn lemma_print_writes_one_line(s: State, stmt: PrintStmt, t: Trace)
    requires
        parts(t).len() >= 2,
        eval(s, stmt.expr, parts(t)[0]).out is Ok,
    ensures
        ({
            let evaluated = eval(s, stmt.expr, parts(t)[0]);
            let value = evaluated.out->Ok_0;
            let printed = exec_kind(s, Stmt::Print(stmt), t);
            &&& printed.out is Ok
            &&& printed.state.output == evaluated.state.output + shown(value, parts(t)[1]) + "\n"@
            &&& !(value is Number) ==> printed.state.output == evaluated.state.output
                + value.text_spec() + "\n"@
            &&& printed.state == (State { output: printed.state.output, ..evaluated.state })
        }),
{
}

/// After a call the active scope is the one of the caller, whether the call
/// gave a value or failed.
pub proof fn lemma_call_restores_scope(s: State, function: Function, args: Seq<Value>, t: Trace)
    ensures
        call(s, function, args, t).state.env.current == s.env.current,
{
}

/// After a call of a function or a class the active scope is the one of
/// the caller, whether the call gave a value or failed.
pub proof fn lemma_apply_restores_scope(s: State, callee: Value, args: Seq<Value>, t: Trace)
    ensures
        apply(s, callee, args, t).state.env.current == s.env.current,
{
}

/// After a block the active scope is the one from which it was entered,
/// however the block ended: at its end, with an error, or with a `return`.
pub proof fn lemma_block_restores_scope(s: State, stmts: Seq<Stmt>, t: Trace)
    ensures
        block(s, stmts, t).state.env.current == s.env.current,
{
}

/// An expression that names no variable and holds plain literals only has
/// no side effect: evaluating it changes nothing but the budget, and its
/// value is plain.
pub proof fn lemma_constant_has_no_effect(s: State, e: Expr, t: Trace)
    requires
        constant(e),
    ensures
        eval(s, e, t).state.untouched(s),
        eval(s, e, t).out is Ok ==> plain(eval(s, e, t).out->Ok_0),
    decreases t, 9int, 0int,
{
    if s.budget > 0 {
        let s = s.ticked();
        match e {
            Expr::Literal(_) => {},
            Expr::Var(_) => {},
            Expr::Assign(_) => {},
            Expr::Group(g) => {
                if parts(t).len() >= 1 {
                    lemma_constant_has_no_effect(s, *g.expr, parts(t)[0]);
                }
            },
            Expr::Unary(u) => {
                if parts(t).len() >= 1 {
                    lemma_constant_has_no_effect(s, *u.right, parts(t)[0]);
                }
            },
            Expr::Binary(x) => {
                if parts(t).len() >= 3 {
                    lemma_constant_has_no_effect(s, *x.left, parts(t)[0]);
                    let l = eval(s, *x.left, parts(t)[0]);
                    lemma_constant_has_no_effect(l.state, *x.right, parts(t)[1]);
                }
            },
            Expr::Logical(x) => {
                if parts(t).len() >= 2 {
                    lemma_constant_has_no_effect(s, *x.left, parts(t)[0]);
                    let l = eval(s, *x.left, parts(t)[0]);
                    lemma_constant_has_no_effect(l.state, *x.right, parts(t)[1]);
                }
            },
            Expr::Get(x) => {
                if parts(t).len() >= 1 {
                    lemma_constant_has_no_effect(s, *x.object, parts(t)[0]);
                }
            },
            Expr::SetProperty(x) => {
                if parts(t).len() >= 2 {
                    lemma_constant_has_no_effect(s, *x.object, parts(t)[0]);
                }
            },
            Expr::Call(x) => {
                if parts(t).len() >= 3 {
                    lemma_constant_has_no_effect(s, *x.callee, parts(t)[0]);
                }
            },
        }
    }
}

} // verus!
