use crate::token::Token;
use crate::value::Value;
use vstd::prelude::*;

verus! {

/// An expression. Operators are kept as the tokens they were read from.
#[derive(Debug, PartialEq)]
pub enum Expr {
    Binary(BinaryExpr),
    Logical(LogicalExpr),
    Literal(LiteralExpr),
    Unary(UnaryExpr),
    Group(GroupExpr),
    Var(VarExpr),
    Assign(AssignExpr),
    Call(CallExpr),
    Get(GetExpr),
    SetProperty(SetExpr),
}

/// A variable that is given a value: `name = value`.
#[derive(Debug, PartialEq)]
pub struct AssignExpr {
    pub name: Token,
    pub value: Box<Expr>,
}

/// Two operands joined by `and` or `or`.
#[derive(Debug, PartialEq)]
pub struct LogicalExpr {
    pub left: Box<Expr>,
    pub op: Token,
    pub right: Box<Expr>,
}

/// Two operands joined by an arithmetic operator, a comparison or an
/// equality.
#[derive(Debug, PartialEq)]
pub struct BinaryExpr {
    pub left: Box<Expr>,
    pub op: Token,
    pub right: Box<Expr>,
}

/// A value written out.
#[derive(Debug, PartialEq)]
pub struct LiteralExpr {
    pub value: Value,
}

/// An operand behind `!` or `-`.
#[derive(Debug, PartialEq)]
pub struct UnaryExpr {
    pub op: Token,
    pub right: Box<Expr>,
}

/// An expression between parentheses.
#[derive(Debug, PartialEq)]
pub struct GroupExpr {
    pub expr: Box<Expr>,
}

/// A variable that is read.
#[derive(Debug, PartialEq)]
pub struct VarExpr {
    pub name: Token,
}

/// A call: the callee, the closing parenthesis and the arguments.
#[derive(Debug, PartialEq)]
pub struct CallExpr {
    pub callee: Box<Expr>,
    pub paren: Token,
    pub args: Vec<Expr>,
}

/// A property that is read: `object.name`.
#[derive(Debug, PartialEq)]
pub struct GetExpr {
    pub object: Box<Expr>,
    pub name: Token,
}

/// A property that is given a value: `object.name = value`.
#[derive(Debug, PartialEq)]
pub struct SetExpr {
    pub object: Box<Expr>,
    pub name: Token,
    pub value: Box<Expr>,
}

/// What is done for each kind of expression. `Expr::accept` hands an
/// expression to the method for its kind.
pub trait ExprVisitor: Sized {
    type Output;

    /// Whether a visit of `expr` by this visitor may leave the visitor as
    /// `after` and give `out`.
    spec fn visits(&self, expr: Expr, after: Self, out: Self::Output) -> bool;

    fn visit_binary_expr(&mut self, expr: &BinaryExpr) -> (out: Self::Output)
        ensures
            old(self).visits(Expr::Binary(*expr), *final(self), out),
    ;

    fn visit_literal_expr(&mut self, expr: &LiteralExpr) -> (out: Self::Output)
        ensures
            old(self).visits(Expr::Literal(*expr), *final(self), out),
    ;

    fn visit_unary_expr(&mut self, expr: &UnaryExpr) -> (out: Self::Output)
        ensures
            old(self).visits(Expr::Unary(*expr), *final(self), out),
    ;

    fn visit_group_expr(&mut self, expr: &GroupExpr) -> (out: Self::Output)
        ensures
            old(self).visits(Expr::Group(*expr), *final(self), out),
    ;

    fn visit_var_expr(&mut self, expr: &VarExpr) -> (out: Self::Output)
        ensures
            old(self).visits(Expr::Var(*expr), *final(self), out),
    ;

    fn visit_assign_expr(&mut self, expr: &AssignExpr) -> (out: Self::Output)
        ensures
            old(self).visits(Expr::Assign(*expr), *final(self), out),
    ;

    fn visit_logical_expr(&mut self, expr: &LogicalExpr) -> (out: Self::Output)
        ensures
            old(self).visits(Expr::Logical(*expr), *final(self), out),
    ;

    fn visit_call_expr(&mut self, expr: &CallExpr) -> (out: Self::Output)
        ensures
            old(self).visits(Expr::Call(*expr), *final(self), out),
    ;

    fn visit_get_expr(&mut self, expr: &GetExpr) -> (out: Self::Output)
        ensures
            old(self).visits(Expr::Get(*expr), *final(self), out),
    ;

    fn visit_set_expr(&mut self, expr: &SetExpr) -> (out: Self::Output)
        ensures
            old(self).visits(Expr::SetProperty(*expr), *final(self), out),
    ;
}

/// An expression as contracts see it: the same tree, with sequences for
/// vectors.
pub enum ExprV {
    Binary { left: Box<ExprV>, op: Token, right: Box<ExprV> },
    Logical { left: Box<ExprV>, op: Token, right: Box<ExprV> },
    Literal { value: Value },
    Unary { op: Token, right: Box<ExprV> },
    Group { expr: Box<ExprV> },
    Var { name: Token },
    Assign { name: Token, value: Box<ExprV> },
    Call { callee: Box<ExprV>, paren: Token, args: Seq<ExprV> },
    Get { object: Box<ExprV>, name: Token },
    SetProperty { object: Box<ExprV>, name: Token, value: Box<ExprV> },
}

/// The view of an expression.
pub open spec fn expr_view(e: Expr) -> ExprV
    decreases e,
{
    match e {
        Expr::Binary(b) => ExprV::Binary {
            left: Box::new(expr_view(*b.left)),
            op: b.op,
            right: Box::new(expr_view(*b.right)),
        },
        Expr::Logical(b) => ExprV::Logical {
            left: Box::new(expr_view(*b.left)),
            op: b.op,
            right: Box::new(expr_view(*b.right)),
        },
        Expr::Literal(l) => ExprV::Literal { value: l.value },
        Expr::Unary(u) => ExprV::Unary { op: u.op, right: Box::new(expr_view(*u.right)) },
        Expr::Group(g) => ExprV::Group { expr: Box::new(expr_view(*g.expr)) },
        Expr::Var(v) => ExprV::Var { name: v.name },
        Expr::Assign(a) => ExprV::Assign { name: a.name, value: Box::new(expr_view(*a.value)) },
        Expr::Call(c) => ExprV::Call {
            callee: Box::new(expr_view(*c.callee)),
            paren: c.paren,
            args: exprs_view(c.args@),
        },
        Expr::Get(g) => ExprV::Get { object: Box::new(expr_view(*g.object)), name: g.name },
        Expr::SetProperty(s) => ExprV::SetProperty {
            object: Box::new(expr_view(*s.object)),
            name: s.name,
            value: Box::new(expr_view(*s.value)),
        },
    }
}

/// The views of the expressions, in order.
pub open spec fn exprs_view(s: Seq<Expr>) -> Seq<ExprV>
    decreases s,
{
    Seq::new(
        s.len(),
        |i: int|
            if 0 <= i < s.len() {
                expr_view(s[i])
            } else {
                arbitrary()
            },
    )
}

impl View for Expr {
    type V = ExprV;

    open spec fn view(&self) -> ExprV {
        expr_view(*self)
    }
}

impl Expr {
    /// The operands joined by the operator.
    pub fn binary(left: Expr, op: Token, right: Expr) -> (r: Expr)
        ensures
            r == Expr::Binary(BinaryExpr { left: Box::new(left), op, right: Box::new(right) }),
    {
        Expr::Binary(BinaryExpr { left: Box::new(left), op, right: Box::new(right) })
    }

    /// The operands joined by `and` or `or`.
    pub fn logical(left: Expr, op: Token, right: Expr) -> (r: Expr)
        ensures
            r == Expr::Logical(LogicalExpr { left: Box::new(left), op, right: Box::new(right) }),
    {
        Expr::Logical(LogicalExpr { left: Box::new(left), op, right: Box::new(right) })
    }

    /// The value written out.
    pub fn literal(value: Value) -> (r: Expr)
        ensures
            r == Expr::Literal(LiteralExpr { value }),
    {
        Expr::Literal(LiteralExpr { value })
    }

    /// The operand behind the operator.
    pub fn unary(op: Token, right: Expr) -> (r: Expr)
        ensures
            r == Expr::Unary(UnaryExpr { op, right: Box::new(right) }),
    {
        Expr::Unary(UnaryExpr { op, right: Box::new(right) })
    }

    /// The expression between parentheses.
    pub fn group(expr: Expr) -> (r: Expr)
        ensures
            r == Expr::Group(GroupExpr { expr: Box::new(expr) }),
    {
        Expr::Group(GroupExpr { expr: Box::new(expr) })
    }

    /// Hands the expression to the visitor's method for its kind: the visit
    /// ends as the visitor says that a visit of this expression may.
    pub fn accept<V: ExprVisitor>(&self, visitor: &mut V) -> (out: V::Output)
        ensures
            old(visitor).visits(*self, *final(visitor), out),
    {
        match self {
            Expr::Binary(e) => visitor.visit_binary_expr(e),
            Expr::Literal(e) => visitor.visit_literal_expr(e),
            Expr::Unary(e) => visitor.visit_unary_expr(e),
            Expr::Group(e) => visitor.visit_group_expr(e),
            Expr::Var(e) => visitor.visit_var_expr(e),
            Expr::Assign(e) => visitor.visit_assign_expr(e),
            Expr::Logical(e) => visitor.visit_logical_expr(e),
            Expr::Call(e) => visitor.visit_call_expr(e),
            Expr::Get(e) => visitor.visit_get_expr(e),
            Expr::SetProperty(e) => visitor.visit_set_expr(e),
        }
    }
}

} // verus!
