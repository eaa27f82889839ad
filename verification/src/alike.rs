use crate::expr::Expr;
use crate::stmt::{FunctionStmt, Stmt};
use crate::token::Token;
use vstd::prelude::*;

verus! {

/// Whether two sequences of tokens are alike, token by token.
pub open spec fn tokens_alike(a: Seq<Token>, b: Seq<Token>) -> bool {
    a.len() == b.len() && forall|i: int| 0 <= i < a.len() ==> (#[trigger] a[i]).same_spec(&b[i])
}

/// Whether two expressions are alike: trees of one shape, with tokens of the
/// same kind, text and line, and literals that are equal as `==` of the
/// language has it.
pub open spec fn expr_alike(a: Expr, b: Expr) -> bool
    decreases a, 0int,
{
    match (a, b) {
        (Expr::Binary(x), Expr::Binary(y)) => expr_alike(*x.left, *y.left) && x.op.same_spec(&y.op)
            && expr_alike(*x.right, *y.right),
        (Expr::Logical(x), Expr::Logical(y)) => expr_alike(*x.left, *y.left) && x.op.same_spec(
            &y.op,
        ) && expr_alike(*x.right, *y.right),
        (Expr::Literal(x), Expr::Literal(y)) => x.value.equals_spec(&y.value),
        (Expr::Unary(x), Expr::Unary(y)) => x.op.same_spec(&y.op) && expr_alike(
            *x.right,
            *y.right,
        ),
        (Expr::Group(x), Expr::Group(y)) => expr_alike(*x.expr, *y.expr),
        (Expr::Var(x), Expr::Var(y)) => x.name.same_spec(&y.name),
        (Expr::Assign(x), Expr::Assign(y)) => x.name.same_spec(&y.name) && expr_alike(
            *x.value,
            *y.value,
        ),
        (Expr::Call(x), Expr::Call(y)) => expr_alike(*x.callee, *y.callee) && x.paren.same_spec(
            &y.paren,
        ) && exprs_alike(x.args@, y.args@, 0),
        (Expr::Get(x), Expr::Get(y)) => expr_alike(*x.object, *y.object) && x.name.same_spec(
            &y.name,
        ),
        (Expr::SetProperty(x), Expr::SetProperty(y)) => expr_alike(*x.object, *y.object)
            && x.name.same_spec(&y.name) && expr_alike(*x.value, *y.value),
        _ => false,
    }
}

/// Whether two sequences of expressions are alike from the `i`-th on.
pub open spec fn exprs_alike(a: Seq<Expr>, b: Seq<Expr>, i: int) -> bool
    decreases a, a.len() - i,
{
    if a.len() != b.len() {
        false
    } else if i < 0 || i >= a.len() {
        true
    } else {
        expr_alike(a[i], b[i]) && exprs_alike(a, b, i + 1)
    }
}

/// Whether two declarations of functions are alike: the same name, the same
/// parameters and a body that is alike.
pub open spec fn declaration_alike(a: FunctionStmt, b: FunctionStmt) -> bool
    decreases a, 1int,
{
    a.name.same_spec(&b.name) && tokens_alike(a.params@, b.params@) && stmts_alike(
        a.body@,
        b.body@,
        0,
    )
}

/// Whether two statements are alike.
pub open spec fn stmt_alike(a: Stmt, b: Stmt) -> bool
    decreases a, 0int,
{
    match (a, b) {
        (Stmt::Expr(x), Stmt::Expr(y)) => expr_alike(x.expr, y.expr),
        (Stmt::Print(x), Stmt::Print(y)) => expr_alike(x.expr, y.expr),
        (Stmt::Var(x), Stmt::Var(y)) => x.name.same_spec(&y.name) && match (
            x.initializer,
            y.initializer,
        ) {
            (Some(e), Some(f)) => expr_alike(e, f),
            (None, None) => true,
            _ => false,
        },
        (Stmt::Block(x), Stmt::Block(y)) => stmts_alike(x.statements@, y.statements@, 0),
        (Stmt::If(x), Stmt::If(y)) => expr_alike(x.condition, y.condition) && stmt_alike(
            *x.then_stmt,
            *y.then_stmt,
        ) && match (x.else_stmt, y.else_stmt) {
            (Some(e), Some(f)) => stmt_alike(*e, *f),
            (None, None) => true,
            _ => false,
        },
        (Stmt::While(x), Stmt::While(y)) => expr_alike(x.condition, y.condition) && stmt_alike(
            *x.body,
            *y.body,
        ),
        (Stmt::Function(x), Stmt::Function(y)) => declaration_alike(*x, *y),
        (Stmt::Return(x), Stmt::Return(y)) => x.keyword.same_spec(&y.keyword) && expr_alike(
            x.value,
            y.value,
        ),
        (Stmt::Class(x), Stmt::Class(y)) => x.name.same_spec(&y.name) && stmts_alike(
            x.methods@,
            y.methods@,
            0,
        ),
        _ => false,
    }
}

/// Whether two sequences of statements are alike from the `i`-th on.
pub open spec fn stmts_alike(a: Seq<Stmt>, b: Seq<Stmt>, i: int) -> bool
    decreases a, a.len() - i,
{
    if a.len() != b.len() {
        false
    } else if i < 0 || i >= a.len() {
        true
    } else {
        stmt_alike(a[i], b[i]) && stmts_alike(a, b, i + 1)
    }
}

/// Whether two sequences of tokens are alike, token by token.
pub fn same_tokens(a: &Vec<Token>, b: &Vec<Token>) -> (r: bool)
    ensures
        r == tokens_alike(a@, b@),
{
    if a.len() != b.len() {
        return false;
    }
    let mut i: usize = 0;
    while i < a.len()
        invariant
            a@.len() == b@.len(),
            i <= a@.len(),
            forall|k: int| 0 <= k < i ==> (#[trigger] a@[k]).same_spec(&b@[k]),
        decreases a@.len() - i,
    {
        if !a[i].same(&b[i]) {
            return false;
        }
        i = i + 1;
    }
    true
}

impl Expr {
    /// Whether both expressions are alike.
    pub fn alike(&self, other: &Expr) -> (r: bool)
        ensures
            r == expr_alike(*self, *other),
        decreases *self, 0int,
    {
        match (self, other) {
            (Expr::Binary(x), Expr::Binary(y)) => x.left.alike(&y.left) && x.op.same(&y.op)
                && x.right.alike(&y.right),
            (Expr::Logical(x), Expr::Logical(y)) => x.left.alike(&y.left) && x.op.same(&y.op)
                && x.right.alike(&y.right),
            (Expr::Literal(x), Expr::Literal(y)) => x.value.equals(&y.value),
            (Expr::Unary(x), Expr::Unary(y)) => x.op.same(&y.op) && x.right.alike(&y.right),
            (Expr::Group(x), Expr::Group(y)) => x.expr.alike(&y.expr),
            (Expr::Var(x), Expr::Var(y)) => x.name.same(&y.name),
            (Expr::Assign(x), Expr::Assign(y)) => x.name.same(&y.name) && x.value.alike(&y.value),
            (Expr::Call(x), Expr::Call(y)) => x.callee.alike(&y.callee) && x.paren.same(&y.paren)
                && same_exprs(&x.args, &y.args),
            (Expr::Get(x), Expr::Get(y)) => x.object.alike(&y.object) && x.name.same(&y.name),
            (Expr::SetProperty(x), Expr::SetProperty(y)) => x.object.alike(&y.object)
                && x.name.same(&y.name) && x.value.alike(&y.value),
            _ => false,
        }
    }
}

/// Whether two sequences of expressions are alike, one by one.
pub fn same_exprs(a: &Vec<Expr>, b: &Vec<Expr>) -> (r: bool)
    ensures
        r == exprs_alike(a@, b@, 0),
    decreases a@, a@.len(),
{
    if a.len() != b.len() {
        return false;
    }
    let mut i: usize = 0;
    while i < a.len()
        invariant
            a@.len() == b@.len(),
            i <= a@.len(),
            exprs_alike(a@, b@, 0) == exprs_alike(a@, b@, i as int),
        decreases a@.len() - i,
    {
        if !a[i].alike(&b[i]) {
            return false;
        }
        i = i + 1;
    }
    true
}

/// Whether two declarations of functions are alike.
pub fn same_declaration(a: &FunctionStmt, b: &FunctionStmt) -> (r: bool)
    ensures
        r == declaration_alike(*a, *b),
    decreases *a, 1int,
{
    a.name.same(&b.name) && same_tokens(&a.params, &b.params) && same_stmts(&a.body, &b.body)
}

impl Stmt {
    /// Whether both statements are alike.
    pub fn alike(&self, other: &Stmt) -> (r: bool)
        ensures
            r == stmt_alike(*self, *other),
        decreases *self, 0int,
    {
        match (self, other) {
            (Stmt::Expr(x), Stmt::Expr(y)) => x.expr.alike(&y.expr),
            (Stmt::Print(x), Stmt::Print(y)) => x.expr.alike(&y.expr),
            (Stmt::Var(x), Stmt::Var(y)) => x.name.same(&y.name) && match (
                &x.initializer,
                &y.initializer,
            ) {
                (Some(e), Some(f)) => e.alike(f),
                (None, None) => true,
                _ => false,
            },
            (Stmt::Block(x), Stmt::Block(y)) => same_stmts(&x.statements, &y.statements),
            (Stmt::If(x), Stmt::If(y)) => x.condition.alike(&y.condition) && x.then_stmt.alike(
                &y.then_stmt,
            ) && match (&x.else_stmt, &y.else_stmt) {
                (Some(e), Some(f)) => e.alike(f),
                (None, None) => true,
                _ => false,
            },
            (Stmt::While(x), Stmt::While(y)) => x.condition.alike(&y.condition) && x.body.alike(
                &y.body,
            ),
            (Stmt::Function(x), Stmt::Function(y)) => same_declaration(x, y),
            (Stmt::Return(x), Stmt::Return(y)) => x.keyword.same(&y.keyword) && x.value.alike(
                &y.value,
            ),
            (Stmt::Class(x), Stmt::Class(y)) => x.name.same(&y.name) && same_stmts(
                &x.methods,
                &y.methods,
            ),
            _ => false,
        }
    }
}

/// Whether two sequences of statements are alike, one by one.
pub fn same_stmts(a: &Vec<Stmt>, b: &Vec<Stmt>) -> (r: bool)
    ensures
        r == stmts_alike(a@, b@, 0),
    decreases a@, a@.len(),
{
    if a.len() != b.len() {
        return false;
    }
    let mut i: usize = 0;
    while i < a.len()
        invariant
            a@.len() == b@.len(),
            i <= a@.len(),
            stmts_alike(a@, b@, 0) == stmts_alike(a@, b@, i as int),
        decreases a@.len() - i,
    {
        if !a[i].alike(&b[i]) {
            return false;
        }
        i = i + 1;
    }
    true
}

} // verus!
