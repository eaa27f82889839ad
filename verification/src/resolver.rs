use crate::expr::{
    AssignExpr, BinaryExpr, CallExpr, Expr, ExprVisitor, GetExpr, GroupExpr, LiteralExpr,
    LogicalExpr, SetExpr, UnaryExpr, VarExpr,
};
use crate::stmt::{
    BlockStmt, ClassStmt, ExprStmt, FunctionStmt, IfStmt, PrintStmt, ReturnStmt, Stmt,
    StmtVisitor, VarStmt, WhileStmt,
};
use crate::text::{decimal, decimal_string, same_text};
use crate::token::Token;
use std::rc::Rc;
use vstd::prelude::*;

verus! {

/// What the resolver objects to.
#[derive(Debug, PartialEq)]
pub enum ResolverError {
    /// A variable is read in the expression that gives it its first value.
    OwnInitializer { token: Token },
}

impl ResolverError {
    /// The words of the error.
    pub open spec fn message_spec(&self) -> Seq<char> {
        match self {
            ResolverError::OwnInitializer { token } => "line:"@ + decimal(token.line as nat)
                + ": can't read local variable in its own initializer;"@,
        }
    }

    /// The words of the error.
    pub fn message(&self) -> (r: String)
        ensures
            r@ == self.message_spec(),
    {
        match self {
            ResolverError::OwnInitializer { token } => {
                let mut s = String::from_str("line:");
                let n = decimal_string(token.line);
                s.append(n.as_str());
                s.append(": can't read local variable in its own initializer;");
                s
            },
        }
    }
}

/// Where a use of a variable finds its binding: so many scopes out from the
/// scope of the use, or among the globals, which no scope holds.
#[derive(Debug, PartialEq)]
pub struct Resolved {
    pub name: Token,
    pub depth: Option<usize>,
}

/// A name in a scope, and whether its variable has its first value yet.
pub struct Declared {
    pub name: Seq<char>,
    pub defined: bool,
}

/// The resolver as contracts see it: the scopes that are open, innermost
/// last, each with its names in the order they were declared; what was
/// resolved; and what was objected to.
pub struct Pass {
    pub scopes: Seq<Seq<Declared>>,
    pub found: Seq<Resolved>,
    pub errors: Seq<ResolverError>,
}

/// What the first `upto` entries of a scope last said of `name`.
pub open spec fn latest(scope: Seq<Declared>, name: Seq<char>, upto: int) -> Option<bool>
    decreases upto,
{
    if upto <= 0 || upto > scope.len() {
        None
    } else if scope[upto - 1].name == name {
        Some(scope[upto - 1].defined)
    } else {
        latest(scope, name, upto - 1)
    }
}

/// How many scopes out from the innermost of the first `upto` scopes the
/// nearest scope lies that holds `name`.
pub open spec fn distance(scopes: Seq<Seq<Declared>>, name: Seq<char>, upto: int) -> Option<usize>
    decreases upto,
{
    if upto <= 0 || upto > scopes.len() {
        None
    } else if latest(scopes[upto - 1], name, scopes[upto - 1].len() as int) is Some {
        Some((scopes.len() - upto) as usize)
    } else {
        distance(scopes, name, upto - 1)
    }
}

impl Pass {
    /// The pass with `name` in the innermost scope. Outside every scope
    /// nothing is kept: globals are not tracked.
    pub open spec fn noted(self, name: Seq<char>, defined: bool) -> Pass {
        if self.scopes.len() == 0 {
            self
        } else {
            let last = self.scopes.len() - 1;
            Pass {
                scopes: self.scopes.update(
                    last,
                    self.scopes[last].push(Declared { name, defined }),
                ),
                ..self
            }
        }
    }

    /// The pass with one more scope open.
    pub open spec fn begun(self) -> Pass {
        Pass { scopes: self.scopes.push(Seq::empty()), ..self }
    }

    /// The pass with the innermost scope closed.
    pub open spec fn ended(self) -> Pass {
        if self.scopes.len() == 0 {
            self
        } else {
            Pass { scopes: self.scopes.drop_last(), ..self }
        }
    }

    /// The pass with the use of `name` resolved.
    pub open spec fn located(self, name: Token) -> Pass {
        Pass {
            found: self.found.push(
                Resolved {
                    name,
                    depth: distance(self.scopes, name.lexeme@, self.scopes.len() as int),
                },
            ),
            ..self
        }
    }

    /// Whether `name` is declared in the innermost scope and has no value
    /// yet.
    pub open spec fn in_own_initializer(self, name: Seq<char>) -> bool {
        self.scopes.len() > 0 && latest(self.scopes.last(), name, self.scopes.last().len() as int)
            == Some(false)
    }

    /// The pass after a read of the variable `name`.
    pub open spec fn read(self, name: Token) -> Pass {
        let checked = if self.in_own_initializer(name.lexeme@) {
            Pass {
                errors: self.errors.push(ResolverError::OwnInitializer { token: name }),
                ..self
            }
        } else {
            self
        };
        checked.located(name)
    }
}

/// The pass after an expression.
pub open spec fn resolve_expr(p: Pass, e: Expr) -> Pass
    decreases e, 0int,
{
    match e {
        Expr::Binary(x) => resolve_expr(resolve_expr(p, *x.left), *x.right),
        Expr::Logical(x) => resolve_expr(resolve_expr(p, *x.left), *x.right),
        Expr::Literal(_) => p,
        Expr::Unary(x) => resolve_expr(p, *x.right),
        Expr::Group(x) => resolve_expr(p, *x.expr),
        Expr::Var(x) => p.read(x.name),
        Expr::Assign(x) => resolve_expr(p, *x.value).located(x.name),
        Expr::Call(x) => resolve_exprs(resolve_expr(p, *x.callee), x.args@, 0),
        Expr::Get(x) => resolve_expr(p, *x.object),
        Expr::SetProperty(x) => resolve_expr(resolve_expr(p, *x.value), *x.object),
    }
}

/// The pass after the expressions from the `i`-th on.
pub open spec fn resolve_exprs(p: Pass, es: Seq<Expr>, i: int) -> Pass
    decreases es, es.len() - i,
{
    if i < 0 || i >= es.len() {
        p
    } else {
        resolve_exprs(resolve_expr(p, es[i]), es, i + 1)
    }
}

/// The pass with the parameters from the `i`-th on declared.
pub open spec fn resolve_params(p: Pass, params: Seq<Token>, i: int) -> Pass
    decreases params.len() - i,
{
    if i < 0 || i >= params.len() {
        p
    } else {
        resolve_params(
            p.noted(params[i].lexeme@, false).noted(params[i].lexeme@, true),
            params,
            i + 1,
        )
    }
}

/// The pass after the body of a function: in a scope of its own, behind
/// its parameters.
pub open spec fn resolve_function(p: Pass, f: FunctionStmt) -> Pass
    decreases f, 1int,
{
    resolve_stmts(resolve_params(p.begun(), f.params@, 0), f.body@, 0).ended()
}

/// The pass after a statement.
pub open spec fn resolve_stmt(p: Pass, s: Stmt) -> Pass
    decreases s, 0int,
{
    match s {
        Stmt::Expr(x) => resolve_expr(p, x.expr),
        Stmt::Print(x) => resolve_expr(p, x.expr),
        Stmt::Var(x) => {
            let declared = p.noted(x.name.lexeme@, false);
            let initialized = match x.initializer {
                Some(e) => resolve_expr(declared, e),
                None => declared,
            };
            initialized.noted(x.name.lexeme@, true)
        },
        Stmt::Block(x) => resolve_stmts(p.begun(), x.statements@, 0).ended(),
        Stmt::If(x) => {
            let then = resolve_stmt(resolve_expr(p, x.condition), *x.then_stmt);
            match x.else_stmt {
                Some(other) => resolve_stmt(then, *other),
                None => then,
            }
        },
        Stmt::While(x) => resolve_stmt(resolve_expr(p, x.condition), *x.body),
        Stmt::Function(f) => resolve_function(
            p.noted(f.name.lexeme@, false).noted(f.name.lexeme@, true),
            *f,
        ),
        Stmt::Return(x) => resolve_expr(p, x.value),
        Stmt::Class(x) => resolve_stmts(
            p.noted(x.name.lexeme@, false).noted(x.name.lexeme@, true),
            x.methods@,
            0,
        ),
    }
}

/// The pass after the statements from the `i`-th on.
pub open spec fn resolve_stmts(p: Pass, ss: Seq<Stmt>, i: int) -> Pass
    decreases ss, ss.len() - i,
{
    if i < 0 || i >= ss.len() {
        p
    } else {
        resolve_stmts(resolve_stmt(p, ss[i]), ss, i + 1)
    }
}

struct Entry {
    name: String,
    defined: bool,
}

/// Finds, before a program runs, the scope of every use of a variable, and
/// the variables that are read in their own initializer.
pub struct Resolver {
    scopes: Vec<Vec<Entry>>,
    found: Vec<Resolved>,
    errs: Vec<ResolverError>,
}

spec fn scope_view(scope: Vec<Entry>) -> Seq<Declared> {
    Seq::new(
        scope@.len(),
        |j: int| Declared { name: scope@[j].name@, defined: scope@[j].defined },
    )
}

impl View for Resolver {
    type V = Pass;

    closed spec fn view(&self) -> Pass {
        Pass {
            scopes: Seq::new(self.scopes@.len(), |i: int| scope_view(self.scopes@[i])),
            found: self.found@,
            errors: self.errs@,
        }
    }
}

impl Resolver {
    /// A resolver outside every scope, with nothing resolved.
    pub fn new() -> (r: Resolver)
        ensures
            r@ == (Pass { scopes: Seq::empty(), found: Seq::empty(), errors: Seq::empty() }),
    {
        let r = Resolver { scopes: Vec::new(), found: Vec::new(), errs: Vec::new() };
        assert(r@.scopes =~= Seq::empty());
        r
    }

    /// What was resolved so far.
    pub fn resolutions(&self) -> (r: &Vec<Resolved>)
        ensures
            r@ == self@.found,
    {
        &self.found
    }

    /// What was objected to so far.
    pub fn errors(&self) -> (r: &Vec<ResolverError>)
        ensures
            r@ == self@.errors,
    {
        &self.errs
    }

    /// Whether anything was objected to.
    pub fn failed(&self) -> (r: bool)
        ensures
            r == (self@.errors.len() > 0),
    {
        !self.errs.is_empty()
    }

    fn begin_scope(&mut self)
        ensures
            final(self)@ == old(self)@.begun(),
    {
        self.scopes.push(Vec::new());
        assert(self@.scopes =~= old(self)@.begun().scopes) by {
            assert(scope_view(self.scopes@[self.scopes@.len() - 1]) =~= Seq::empty());
        }
    }

    fn end_scope(&mut self)
        ensures
            final(self)@ == old(self)@.ended(),
    {
        let _ = self.scopes.pop();
        assert(self@.scopes =~= old(self)@.ended().scopes);
    }

    /// Resolves an expression.
    pub fn resolve_expr(&mut self, expr: &Expr)
        ensures
            final(self)@ == resolve_expr(old(self)@, *expr),
        decreases *expr, 0int,
    {
        match expr {
            Expr::Binary(e) => {
                self.resolve_expr(&e.left);
                self.resolve_expr(&e.right);
            },
            Expr::Logical(e) => {
                self.resolve_expr(&e.left);
                self.resolve_expr(&e.right);
            },
            Expr::Literal(_) => {},
            Expr::Unary(e) => {
                self.resolve_expr(&e.right);
            },
            Expr::Group(e) => {
                self.resolve_expr(&e.expr);
            },
            Expr::Var(e) => {
                self.read(&e.name);
            },
            Expr::Assign(e) => {
                self.resolve_expr(&e.value);
                self.resolve_local(&e.name);
            },
            Expr::Call(e) => {
                self.resolve_expr(&e.callee);
                self.resolve_exprs(&e.args);
            },
            Expr::Get(e) => {
                self.resolve_expr(&e.object);
            },
            Expr::SetProperty(e) => {
                self.resolve_expr(&e.value);
                self.resolve_expr(&e.object);
            },
        }
    }

    /// Resolves expressions in order.
    pub fn resolve_exprs(&mut self, exprs: &Vec<Expr>)
        ensures
            final(self)@ == resolve_exprs(old(self)@, exprs@, 0),
        decreases exprs@, exprs@.len(),
    {
        let ghost start = self@;
        let mut i: usize = 0;
        while i < exprs.len()
            invariant
                i <= exprs@.len(),
                resolve_exprs(start, exprs@, 0) == resolve_exprs(self@, exprs@, i as int),
            decreases exprs@.len() - i,
        {
            self.resolve_expr(&exprs[i]);
            i = i + 1;
        }
    }

    /// Resolves a statement.
    pub fn resolve_stmt(&mut self, stmt: &Stmt)
        ensures
            final(self)@ == resolve_stmt(old(self)@, *stmt),
        decreases *stmt, 0int,
    {
        match stmt {
            Stmt::Expr(s) => {
                self.resolve_expr(&s.expr);
            },
            Stmt::Print(s) => {
                self.resolve_expr(&s.expr);
            },
            Stmt::Var(s) => {
                self.declare(&s.name);
                match &s.initializer {
                    Some(e) => {
                        self.resolve_expr(e);
                    },
                    None => {},
                }
                self.define(&s.name);
            },
            Stmt::Block(s) => {
                self.begin_scope();
                self.resolve_stmts(&s.statements);
                self.end_scope();
            },
            Stmt::If(s) => {
                self.resolve_expr(&s.condition);
                self.resolve_stmt(&s.then_stmt);
                match &s.else_stmt {
                    Some(other) => {
                        self.resolve_stmt(other);
                    },
                    None => {},
                }
            },
            Stmt::While(s) => {
                self.resolve_expr(&s.condition);
                self.resolve_stmt(&s.body);
            },
            Stmt::Function(f) => {
                self.declare(&f.name);
                self.define(&f.name);
                self.resolve_function(f);
            },
            Stmt::Return(s) => {
                self.resolve_expr(&s.value);
            },
            Stmt::Class(s) => {
                self.declare(&s.name);
                self.define(&s.name);
                self.resolve_stmts(&s.methods);
            },
        }
    }

    /// Resolves statements in order.
    pub fn resolve_stmts(&mut self, statements: &Vec<Stmt>)
        ensures
            final(self)@ == resolve_stmts(old(self)@, statements@, 0),
        decreases statements@, statements@.len(),
    {
        let ghost start = self@;
        let mut i: usize = 0;
        while i < statements.len()
            invariant
                i <= statements@.len(),
                resolve_stmts(start, statements@, 0) == resolve_stmts(
                    self@,
                    statements@,
                    i as int,
                ),
            decreases statements@.len() - i,
        {
            self.resolve_stmt(&statements[i]);
            i = i + 1;
        }
    }

    /// Notes a variable that is declared and has no value yet.
    fn declare(&mut self, name: &Token)
        ensures
            final(self)@ == old(self)@.noted(name.lexeme@, false),
    {
        self.note(name, false);
    }

    /// Notes a variable that has its value.
    fn define(&mut self, name: &Token)
        ensures
            final(self)@ == old(self)@.noted(name.lexeme@, true),
    {
        self.note(name, true);
    }

    fn note(&mut self, name: &Token, defined: bool)
        ensures
            final(self)@ == old(self)@.noted(name.lexeme@, defined),
    {
        let n = self.scopes.len();
        if n > 0 {
            let entry = Entry { name: name.lexeme.0.clone(), defined };
            self.scopes[n - 1].push(entry);
            proof {
                let want = old(self)@.noted(name.lexeme@, defined);
                assert(self.scopes@[n - 1]@ == old(self).scopes@[n - 1]@.push(entry));
                assert(forall|i: int|
                    0 <= i < n - 1 ==> self.scopes@[i] == old(self).scopes@[i]);
                assert(self@.scopes =~= want.scopes) by {
                    assert forall|i: int| 0 <= i < n implies self@.scopes[i] == want.scopes[i] by {
                        if i == n - 1 {
                            assert(self@.scopes[i] =~= want.scopes[i]);
                        }
                    }
                }
            }
        }
    }

    /// What the scope `i` last said of `name`.
    fn lookup(&self, i: usize, name: &str) -> (r: Option<bool>)
        requires
            i < self@.scopes.len(),
        ensures
            r == latest(self@.scopes[i as int], name@, self@.scopes[i as int].len() as int),
    {
        let scope = &self.scopes[i];
        let mut j: usize = scope.len();
        while j > 0
            invariant
                i < self.scopes@.len(),
                scope == &self.scopes@[i as int],
                j <= scope@.len(),
                latest(self@.scopes[i as int], name@, self@.scopes[i as int].len() as int)
                    == latest(self@.scopes[i as int], name@, j as int),
            decreases j,
        {
            if same_text(scope[j - 1].name.as_str(), name) {
                return Some(scope[j - 1].defined);
            }
            j = j - 1;
        }
        None
    }

    /// Resolves a use of a variable: finds the nearest scope that holds its
    /// name.
    fn resolve_local(&mut self, name: &Token)
        ensures
            final(self)@ == old(self)@.located(*name),
    {
        let n = self.scopes.len();
        let mut depth: Option<usize> = None;
        let mut i: usize = n;
        while i > 0 && depth.is_none()
            invariant
                n == self.scopes@.len(),
                *self == *old(self),
                i <= n,
                depth is None ==> distance(self@.scopes, name.lexeme@, n as int) == distance(
                    self@.scopes,
                    name.lexeme@,
                    i as int,
                ),
                depth is Some ==> distance(self@.scopes, name.lexeme@, n as int) == depth,
            decreases i, if depth is None { 1int } else { 0int },
        {
            if self.lookup(i - 1, name.lexeme.as_str()).is_some() {
                depth = Some(n - i);
            } else {
                i = i - 1;
            }
        }
        self.found.push(Resolved { name: name.duplicate(), depth });
        assert(self@.scopes =~= old(self)@.scopes);
    }

    /// Resolves a read of a variable, and objects where the variable is read
    /// in its own initializer.
    fn read(&mut self, name: &Token)
        ensures
            final(self)@ == old(self)@.read(*name),
    {
        let n = self.scopes.len();
        if n > 0 {
            match self.lookup(n - 1, name.lexeme.as_str()) {
                Some(false) => {
                    self.error(name);
                },
                _ => {},
            }
        }
        self.resolve_local(name);
    }

    fn resolve_function(&mut self, stmt: &FunctionStmt)
        ensures
            final(self)@ == resolve_function(old(self)@, *stmt),
        decreases *stmt, 1int,
    {
        self.begin_scope();
        let ghost start = self@;
        let mut i: usize = 0;
        while i < stmt.params.len()
            invariant
                i <= stmt.params@.len(),
                resolve_params(start, stmt.params@, 0) == resolve_params(
                    self@,
                    stmt.params@,
                    i as int,
                ),
            decreases stmt.params@.len() - i,
        {
            self.declare(&stmt.params[i]);
            self.define(&stmt.params[i]);
            i = i + 1;
        }
        self.resolve_stmts(&stmt.body);
        self.end_scope();
    }

    /// Records an objection to a read of the variable.
    fn error(&mut self, name: &Token)
        ensures
            final(self)@ == (Pass {
                errors: old(self)@.errors.push(ResolverError::OwnInitializer { token: *name }),
                ..old(self)@
            }),
    {
        self.errs.push(ResolverError::OwnInitializer { token: name.duplicate() });
        assert(self@.scopes =~= old(self)@.scopes);
    }
}

impl ExprVisitor for Resolver {
    type Output = ();

    open spec fn visits(&self, expr: Expr, after: Self, out: ()) -> bool {
        after@ == resolve_expr(self@, expr)
    }

    fn visit_binary_expr(&mut self, expr: &BinaryExpr) {
        self.resolve_expr(&expr.left);
        self.resolve_expr(&expr.right);
    }

    fn visit_literal_expr(&mut self, expr: &LiteralExpr) {
    }

    fn visit_unary_expr(&mut self, expr: &UnaryExpr) {
        self.resolve_expr(&expr.right);
    }

    fn visit_group_expr(&mut self, expr: &GroupExpr) {
        self.resolve_expr(&expr.expr);
    }

    fn visit_var_expr(&mut self, expr: &VarExpr) {
        self.read(&expr.name);
    }

    fn visit_assign_expr(&mut self, expr: &AssignExpr) {
        self.resolve_expr(&expr.value);
        self.resolve_local(&expr.name);
    }

    fn visit_logical_expr(&mut self, expr: &LogicalExpr) {
        self.resolve_expr(&expr.left);
        self.resolve_expr(&expr.right);
    }

    fn visit_call_expr(&mut self, expr: &CallExpr) {
        self.resolve_expr(&expr.callee);
        self.resolve_exprs(&expr.args);
    }

    fn visit_get_expr(&mut self, expr: &GetExpr) {
        self.resolve_expr(&expr.object);
    }

    fn visit_set_expr(&mut self, expr: &SetExpr) {
        self.resolve_expr(&expr.value);
        self.resolve_expr(&expr.object);
    }
}

impl StmtVisitor for Resolver {
    type Output = ();

    open spec fn visits(&self, stmt: Stmt, after: Self, out: ()) -> bool {
        after@ == resolve_stmt(self@, stmt)
    }

    fn visit_expr_stmt(&mut self, stmt: &ExprStmt) {
        self.resolve_expr(&stmt.expr);
    }

    fn visit_print_stmt(&mut self, stmt: &PrintStmt) {
        self.resolve_expr(&stmt.expr);
    }

    fn visit_var_stmt(&mut self, stmt: &VarStmt) {
        self.declare(&stmt.name);
        if let Some(initializer) = &stmt.initializer {
            self.resolve_expr(initializer);
        }
        self.define(&stmt.name);
    }

    fn visit_block_stmt(&mut self, stmt: &BlockStmt) {
        self.begin_scope();
        self.resolve_stmts(&stmt.statements);
        self.end_scope();
    }

    fn visit_if_stmt(&mut self, stmt: &IfStmt) {
        self.resolve_expr(&stmt.condition);
        self.resolve_stmt(&stmt.then_stmt);
        if let Some(else_stmt) = &stmt.else_stmt {
            self.resolve_stmt(else_stmt);
        }
    }

    fn visit_while_stmt(&mut self, stmt: &WhileStmt) {
        self.resolve_expr(&stmt.condition);
        self.resolve_stmt(&stmt.body);
    }

    fn visit_function_stmt(&mut self, stmt: &Rc<FunctionStmt>) {
        self.declare(&stmt.name);
        self.define(&stmt.name);
        self.resolve_function(stmt);
    }

    fn visit_return_stmt(&mut self, stmt: &ReturnStmt) {
        self.resolve_expr(&stmt.value);
    }

    fn visit_class_stmt(&mut self, stmt: &ClassStmt) {
        self.declare(&stmt.name);
        self.define(&stmt.name);
        self.resolve_stmts(&stmt.methods);
    }
}

} // verus!
