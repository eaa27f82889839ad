use crate::expr::{expr_view, Expr, ExprV};
use crate::token::Token;
use std::rc::Rc;
use vstd::prelude::*;

verus! {

/// A statement. A function declaration is shared with the function values
/// that are made from it.
#[derive(Debug, PartialEq)]
pub enum Stmt {
    Expr(ExprStmt),
    Print(PrintStmt),
    Var(VarStmt),
    Block(BlockStmt),
    If(IfStmt),
    While(WhileStmt),
    Function(Rc<FunctionStmt>),
    Return(ReturnStmt),
    Class(ClassStmt),
}

/// An expression that is evaluated for its effect.
#[derive(Debug, PartialEq)]
pub struct ExprStmt {
    pub expr: Expr,
}

/// An expression whose value is printed.
#[derive(Debug, PartialEq)]
pub struct PrintStmt {
    pub expr: Expr,
}

/// A variable that is declared, with or without a first value.
#[derive(Debug, PartialEq)]
pub struct VarStmt {
    pub name: Token,
    pub initializer: Option<Expr>,
}

/// Statements between braces, with a scope of their own.
#[derive(Debug, PartialEq)]
pub struct BlockStmt {
    pub statements: Vec<Stmt>,
}

/// A statement that runs where a condition holds, and one that may run
/// where it does not.
#[derive(Debug, PartialEq)]
pub struct IfStmt {
    pub condition: Expr,
    pub then_stmt: Box<Stmt>,
    pub else_stmt: Option<Box<Stmt>>,
}

/// A statement that runs as long as a condition holds.
#[derive(Debug, PartialEq)]
pub struct WhileStmt {
    pub condition: Expr,
    pub body: Box<Stmt>,
}

/// The declaration of a function: its name, its parameters and its body.
#[derive(Debug, PartialEq)]
pub struct FunctionStmt {
    pub name: Token,
    pub params: Vec<Token>,
    pub body: Vec<Stmt>,
}

/// The end of a call, with the value that the call gives.
#[derive(Debug, PartialEq)]
pub struct ReturnStmt {
    pub keyword: Token,
    pub value: Expr,
}

/// The declaration of a class: its name and its methods.
#[derive(Debug, PartialEq)]
pub struct ClassStmt {
    pub name: Token,
    pub methods: Vec<Stmt>,
}

/// What is done for each kind of statement. `Stmt::accept` hands a statement
/// to the method for its kind.
pub trait StmtVisitor: Sized {
    type Output;

    /// Whether a visit of `stmt` by this visitor may leave the visitor as
    /// `after` and give `out`.
    spec fn visits(&self, stmt: Stmt, after: Self, out: Self::Output) -> bool;

    fn visit_expr_stmt(&mut self, stmt: &ExprStmt) -> (out: Self::Output)
        ensures
            old(self).visits(Stmt::Expr(*stmt), *final(self), out),
    ;

    fn visit_print_stmt(&mut self, stmt: &PrintStmt) -> (out: Self::Output)
        ensures
            old(self).visits(Stmt::Print(*stmt), *final(self), out),
    ;

    fn visit_var_stmt(&mut self, stmt: &VarStmt) -> (out: Self::Output)
        ensures
            old(self).visits(Stmt::Var(*stmt), *final(self), out),
    ;

    fn visit_block_stmt(&mut self, stmt: &BlockStmt) -> (out: Self::Output)
        ensures
            old(self).visits(Stmt::Block(*stmt), *final(self), out),
    ;

    fn visit_if_stmt(&mut self, stmt: &IfStmt) -> (out: Self::Output)
        ensures
            old(self).visits(Stmt::If(*stmt), *final(self), out),
    ;

    fn visit_while_stmt(&mut self, stmt: &WhileStmt) -> (out: Self::Output)
        ensures
            old(self).visits(Stmt::While(*stmt), *final(self), out),
    ;

    fn visit_function_stmt(&mut self, stmt: &Rc<FunctionStmt>) -> (out: Self::Output)
        ensures
            old(self).visits(Stmt::Function(*stmt), *final(self), out),
    ;

    fn visit_return_stmt(&mut self, stmt: &ReturnStmt) -> (out: Self::Output)
        ensures
            old(self).visits(Stmt::Return(*stmt), *final(self), out),
    ;

    fn visit_class_stmt(&mut self, stmt: &ClassStmt) -> (out: Self::Output)
        ensures
            old(self).visits(Stmt::Class(*stmt), *final(self), out),
    ;
}

impl Stmt {
    /// Hands the statement to the visitor's method for its kind: the visit
    /// ends as the visitor says that a visit of this statement may.
    pub fn accept<V: StmtVisitor>(&self, visitor: &mut V) -> (out: V::Output)
        ensures
            old(visitor).visits(*self, *final(visitor), out),
    {
        match self {
            Stmt::Expr(s) => visitor.visit_expr_stmt(s),
            Stmt::Print(s) => visitor.visit_print_stmt(s),
            Stmt::Var(s) => visitor.visit_var_stmt(s),
            Stmt::Block(s) => visitor.visit_block_stmt(s),
            Stmt::If(s) => visitor.visit_if_stmt(s),
            Stmt::While(s) => visitor.visit_while_stmt(s),
            Stmt::Function(s) => visitor.visit_function_stmt(s),
            Stmt::Return(s) => visitor.visit_return_stmt(s),
            Stmt::Class(s) => visitor.visit_class_stmt(s),
        }
    }
}

/// A function declaration as contracts see it.
pub struct FunctionV {
    pub name: Token,
    pub params: Seq<Token>,
    pub body: Seq<StmtV>,
}

/// A statement as contracts see it: the same tree, with sequences for
/// vectors.
pub enum StmtV {
    Expr { expr: ExprV },
    Print { expr: ExprV },
    Var { name: Token, initializer: Option<ExprV> },
    Block { statements: Seq<StmtV> },
    If { condition: ExprV, then_stmt: Box<StmtV>, else_stmt: Option<Box<StmtV>> },
    While { condition: ExprV, body: Box<StmtV> },
    Function { function: FunctionV },
    Return { keyword: Token, value: ExprV },
    Class { name: Token, methods: Seq<StmtV> },
}

/// The view of a statement.
pub open spec fn stmt_view(s: Stmt) -> StmtV
    decreases s,
{
    match s {
        Stmt::Expr(e) => StmtV::Expr { expr: expr_view(e.expr) },
        Stmt::Print(e) => StmtV::Print { expr: expr_view(e.expr) },
        Stmt::Var(v) => StmtV::Var {
            name: v.name,
            initializer: match v.initializer {
                Some(e) => Some(expr_view(e)),
                None => None,
            },
        },
        Stmt::Block(b) => StmtV::Block { statements: stmts_view(b.statements@) },
        Stmt::If(i) => StmtV::If {
            condition: expr_view(i.condition),
            then_stmt: Box::new(stmt_view(*i.then_stmt)),
            else_stmt: match i.else_stmt {
                Some(e) => Some(Box::new(stmt_view(*e))),
                None => None,
            },
        },
        Stmt::While(w) => StmtV::While {
            condition: expr_view(w.condition),
            body: Box::new(stmt_view(*w.body)),
        },
        Stmt::Function(f) => StmtV::Function { function: function_view(*f) },
        Stmt::Return(r) => StmtV::Return { keyword: r.keyword, value: expr_view(r.value) },
        Stmt::Class(c) => StmtV::Class { name: c.name, methods: stmts_view(c.methods@) },
    }
}

/// The view of a function declaration.
pub open spec fn function_view(f: FunctionStmt) -> FunctionV
    decreases f,
{
    FunctionV { name: f.name, params: f.params@, body: stmts_view(f.body@) }
}

/// The views of the statements, in order.
pub open spec fn stmts_view(s: Seq<Stmt>) -> Seq<StmtV>
    decreases s,
{
    Seq::new(
        s.len(),
        |i: int|
            if 0 <= i < s.len() {
                stmt_view(s[i])
            } else {
                arbitrary()
            },
    )
}

impl View for Stmt {
    type V = StmtV;

    open spec fn view(&self) -> StmtV {
        stmt_view(*self)
    }
}

} // verus!
