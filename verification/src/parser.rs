use crate::expr::{
    exprs_view, AssignExpr, CallExpr, Expr, ExprV, GetExpr, LiteralExpr, SetExpr, VarExpr,
};
use crate::stmt::{
    function_view, stmts_view, BlockStmt, ClassStmt, ExprStmt, FunctionStmt, FunctionV,
    IfStmt, PrintStmt, ReturnStmt, Stmt, StmtV, VarStmt, WhileStmt,
};
use crate::text::{decimal, decimal_string};
use crate::token::{Literal, Token, TokenType};
use crate::value::Value;
use std::rc::Rc;
use vstd::prelude::*;

verus! {

/// What a function declaration declares.
#[derive(Clone, Copy, Debug, PartialEq, Eq, Structural)]
pub enum FunctionKind {
    Function,
    Method,
}

impl FunctionKind {
    /// The kind's name as it is written in diagnostics.
    pub open spec fn name_spec(self) -> Seq<char> {
        match self {
            FunctionKind::Function => "Function"@,
            FunctionKind::Method => "Method"@,
        }
    }

    /// The kind's name as it is written in diagnostics.
    pub fn name(self) -> (r: &'static str)
        ensures
            r@ == self.name_spec(),
    {
        match self {
            FunctionKind::Function => "Function",
            FunctionKind::Method => "Method",
        }
    }
}

/// The most arguments that a call, and the most parameters that a function,
/// may have without a diagnostic.
pub const MAX_ARGS: usize = 255;

/// A syntax error and where it was found.
#[derive(Debug, PartialEq)]
pub enum LineError {
    Expected { expected: TokenType, actual: TokenType, line: usize },
    ExpectedExpr { line: usize },
    TooManyArgs { token: Token },
    TooManyParams { token: Token },
    InvalidAssignment { token: Token },
    FunctionKind { kind: FunctionKind, err: Box<LineError> },
    WithContext { context: String, err: Box<LineError> },
}

/// A syntax error as contracts see it.
pub enum LineErrorV {
    Expected { expected: TokenType, actual: TokenType, line: usize },
    ExpectedExpr { line: usize },
    TooManyArgs { token: Token },
    TooManyParams { token: Token },
    InvalidAssignment { token: Token },
    FunctionKind { kind: FunctionKind, err: Box<LineErrorV> },
    WithContext { context: Seq<char>, err: Box<LineErrorV> },
}

/// The view of a syntax error.
pub open spec fn line_error_view(e: LineError) -> LineErrorV
    decreases e,
{
    match e {
        LineError::Expected { expected, actual, line } => LineErrorV::Expected {
            expected,
            actual,
            line,
        },
        LineError::ExpectedExpr { line } => LineErrorV::ExpectedExpr { line },
        LineError::TooManyArgs { token } => LineErrorV::TooManyArgs { token },
        LineError::TooManyParams { token } => LineErrorV::TooManyParams { token },
        LineError::InvalidAssignment { token } => LineErrorV::InvalidAssignment { token },
        LineError::FunctionKind { kind, err } => LineErrorV::FunctionKind {
            kind,
            err: Box::new(line_error_view(*err)),
        },
        LineError::WithContext { context, err } => LineErrorV::WithContext {
            context: context@,
            err: Box::new(line_error_view(*err)),
        },
    }
}

/// The views of the errors, in order.
pub open spec fn line_errors_view(errs: Seq<LineError>) -> Seq<LineErrorV> {
    Seq::new(errs.len(), |i: int| line_error_view(errs[i]))
}

/// The words of a syntax error.
pub open spec fn line_error_text(e: LineErrorV) -> Seq<char>
    decreases e,
{
    match e {
        LineErrorV::Expected { expected, actual, line } => "line "@ + decimal(line as nat)
            + ": expected "@ + expected.name_spec() + " but was instead "@ + actual.name_spec(),
        LineErrorV::ExpectedExpr { line } => "line "@ + decimal(line as nat)
            + ": expected expression"@,
        LineErrorV::TooManyArgs { token } => "line "@ + decimal(token.line as nat)
            + ": too many args (max: 255)"@,
        LineErrorV::TooManyParams { token } => "line "@ + decimal(token.line as nat)
            + ": too many params (max: 255)"@,
        LineErrorV::InvalidAssignment { token } => "line "@ + decimal(token.line as nat)
            + ": invalid assignment target"@,
        LineErrorV::FunctionKind { kind, err } => "("@ + kind.name_spec() + "): "@
            + line_error_text(*err),
        LineErrorV::WithContext { context, err } => context + ": "@ + line_error_text(*err),
    }
}

impl View for LineError {
    type V = LineErrorV;

    open spec fn view(&self) -> LineErrorV {
        line_error_view(*self)
    }
}

impl LineError {
    /// The error, marked as one of a declaration of kind `kind`.
    pub fn fn_kind(kind: FunctionKind, err: LineError) -> (r: LineError)
        ensures
            r@ == (LineErrorV::FunctionKind { kind, err: Box::new(err@) }),
    {
        LineError::FunctionKind { kind, err: Box::new(err) }
    }

    /// The error with a note on what was being read.
    pub fn context(self, context: &str) -> (r: LineError)
        ensures
            r@ == (LineErrorV::WithContext { context: context@, err: Box::new(self@) }),
    {
        LineError::WithContext { context: String::from_str(context), err: Box::new(self) }
    }

    /// The words of the error.
    pub fn message(&self) -> (r: String)
        ensures
            r@ == line_error_text(self@),
        decreases self,
    {
        match self {
            LineError::Expected { expected, actual, line } => {
                let mut s = String::from_str("line ");
                let n = decimal_string(*line);
                s.append(n.as_str());
                s.append(": expected ");
                s.append(expected.name());
                s.append(" but was instead ");
                s.append(actual.name());
                s
            },
            LineError::ExpectedExpr { line } => {
                let mut s = String::from_str("line ");
                let n = decimal_string(*line);
                s.append(n.as_str());
                s.append(": expected expression");
                s
            },
            LineError::TooManyArgs { token } => {
                let mut s = String::from_str("line ");
                let n = decimal_string(token.line);
                s.append(n.as_str());
                s.append(": too many args (max: 255)");
                s
            },
            LineError::TooManyParams { token } => {
                let mut s = String::from_str("line ");
                let n = decimal_string(token.line);
                s.append(n.as_str());
                s.append(": too many params (max: 255)");
                s
            },
            LineError::InvalidAssignment { token } => {
                let mut s = String::from_str("line ");
                let n = decimal_string(token.line);
                s.append(n.as_str());
                s.append(": invalid assignment target");
                s
            },
            LineError::FunctionKind { kind, err } => {
                let mut s = String::from_str("(");
                s.append(kind.name());
                s.append("): ");
                let inner = err.message();
                s.append(inner.as_str());
                s
            },
            LineError::WithContext { context, err } => {
                let mut s = context.clone();
                s.append(": ");
                let inner = err.message();
                s.append(inner.as_str());
                s
            },
        }
    }
}

/// Why parsing failed.
#[derive(Debug, PartialEq)]
pub enum ParseError {
    /// A program had syntax errors.
    Failed,
    /// Something follows the one expression that was asked for.
    SingleEpxr,
    /// The one expression that was asked for has a syntax error.
    LineError(LineError),
}

impl ParseError {
    /// The words of the error.
    pub open spec fn message_spec(&self) -> Seq<char> {
        match self {
            ParseError::Failed => "parsing failed"@,
            ParseError::SingleEpxr => "single expr required"@,
            ParseError::LineError(e) => line_error_text(e@),
        }
    }

    /// The words of the error.
    pub fn message(&self) -> (r: String)
        ensures
            r@ == self.message_spec(),
    {
        match self {
            ParseError::Failed => String::from_str("parsing failed"),
            ParseError::SingleEpxr => String::from_str("single expr required"),
            ParseError::LineError(e) => e.message(),
        }
    }
}

/// What a rule of the grammar makes of the tokens from some place on: the
/// tree or the error, the place behind what it read, and the diagnostics
/// collected so far.
pub struct Parsed<T> {
    pub out: Result<T, LineErrorV>,
    pub pos: int,
    pub errs: Seq<LineErrorV>,
}

/// The result of a rule that read a tree.
pub open spec fn done<T>(value: T, pos: int, errs: Seq<LineErrorV>) -> Parsed<T> {
    Parsed { out: Ok(value), pos, errs }
}

/// The result of a rule that met an error.
pub open spec fn failed<T>(err: LineErrorV, pos: int, errs: Seq<LineErrorV>) -> Parsed<T> {
    Parsed { out: Err(err), pos, errs }
}

/// Whether the token at `pos` is of kind `typ`.
pub open spec fn kind_at(toks: Seq<Token>, pos: int, typ: TokenType) -> bool {
    0 <= pos < toks.len() && toks[pos].typ == typ
}

/// Whether `pos` is where the tokens end: at the end-of-file token.
pub open spec fn ends_at(toks: Seq<Token>, pos: int) -> bool {
    kind_at(toks, pos, TokenType::Eof)
}

/// Whether a rule that started at `pos` and stopped at `next` read at least
/// one token and stayed among the tokens. Every rule that reads a tree does;
/// the rules ask for it before they go on, so that they are defined on every
/// input.
pub open spec fn moved(toks: Seq<Token>, pos: int, next: int) -> bool {
    pos < next <= toks.len()
}

/// The error of a token of kind `typ` that was looked for at `pos`.
pub open spec fn expected_at(toks: Seq<Token>, pos: int, typ: TokenType) -> LineErrorV {
    LineErrorV::Expected { expected: typ, actual: toks[pos].typ, line: toks[pos].line }
}

/// Reads the token at `pos` where it is of kind `typ`.
pub open spec fn consume_spec(toks: Seq<Token>, pos: int, errs: Seq<LineErrorV>, typ: TokenType)
    -> Parsed<Token> {
    if kind_at(toks, pos, typ) {
        done(toks[pos], pos + 1, errs)
    } else {
        failed(expected_at(toks, pos, typ), pos, errs)
    }
}

/// The value that a literal token stands for.
pub open spec fn token_value(token: Token) -> Value {
    match token.literal {
        Some(l) => Value::of_literal(l),
        None => Value::Nil,
    }
}

/// Whether an operator of kind `typ` joins two operands at `level` of the
/// binary operators, counted from the tightest: `/ *`, `- +`, the four
/// comparisons, `!= ==`, `and`, `or`.
pub open spec fn joins(level: int, typ: TokenType) -> bool {
    if level == 0 {
        typ == TokenType::Slash || typ == TokenType::Star
    } else if level == 1 {
        typ == TokenType::Minus || typ == TokenType::Plus
    } else if level == 2 {
        typ == TokenType::Less || typ == TokenType::LessEqual || typ == TokenType::Greater || typ
            == TokenType::GreaterEqual
    } else if level == 3 {
        typ == TokenType::BangEqual || typ == TokenType::EqualEqual
    } else if level == 4 {
        typ == TokenType::And
    } else {
        typ == TokenType::Or
    }
}

/// The tree of two operands joined at `level`: `and` and `or` are kept
/// apart from the other operators.
pub open spec fn joined_expr(level: int, left: ExprV, op: Token, right: ExprV) -> ExprV {
    if level >= 4 {
        ExprV::Logical { left: Box::new(left), op, right: Box::new(right) }
    } else {
        ExprV::Binary { left: Box::new(left), op, right: Box::new(right) }
    }
}

/// primary → "true" | "false" | "nil" | NUMBER | STRING | IDENT | "(" expression ")"
pub open spec fn spec_primary(toks: Seq<Token>, pos: int, errs: Seq<LineErrorV>) -> Parsed<ExprV>
    decreases toks.len() - pos, 7int,
{
    if kind_at(toks, pos, TokenType::False) {
        done(ExprV::Literal { value: Value::Bool(false) }, pos + 1, errs)
    } else if kind_at(toks, pos, TokenType::True) {
        done(ExprV::Literal { value: Value::Bool(true) }, pos + 1, errs)
    } else if kind_at(toks, pos, TokenType::Nil) {
        done(ExprV::Literal { value: Value::Nil }, pos + 1, errs)
    } else if kind_at(toks, pos, TokenType::Number) || kind_at(toks, pos, TokenType::String) {
        done(ExprV::Literal { value: token_value(toks[pos]) }, pos + 1, errs)
    } else if kind_at(toks, pos, TokenType::Identifier) {
        done(ExprV::Var { name: toks[pos] }, pos + 1, errs)
    } else if kind_at(toks, pos, TokenType::LeftParen) {
        let r = spec_expr(toks, pos + 1, errs);
        match r.out {
            Ok(e) => {
                let c = consume_spec(toks, r.pos, r.errs, TokenType::RightParen);
                match c.out {
                    Ok(_) => done(ExprV::Group { expr: Box::new(e) }, c.pos, c.errs),
                    Err(x) => failed(x, c.pos, c.errs),
                }
            },
            Err(x) => failed(x, r.pos, r.errs),
        }
    } else {
        failed(LineErrorV::ExpectedExpr { line: toks[pos].line }, pos, errs)
    }
}

/// args → expression ( "," expression )*, from `pos` on, behind the
/// arguments `args`. `over` is the token behind the argument that last
/// brought the count to the limit or over it.
pub open spec fn spec_args(
    toks: Seq<Token>,
    pos: int,
    errs: Seq<LineErrorV>,
    args: Seq<ExprV>,
    over: Option<Token>,
) -> Parsed<(Seq<ExprV>, Option<Token>)>
    decreases toks.len() - pos, 25int,
{
    let r = spec_expr(toks, pos, errs);
    match r.out {
        Ok(e) => {
            let args = args.push(e);
            let over = if args.len() >= MAX_ARGS {
                Some(toks[r.pos])
            } else {
                over
            };
            if kind_at(toks, r.pos, TokenType::Comma) && moved(toks, pos, r.pos + 1) {
                spec_args(toks, r.pos + 1, r.errs, args, over)
            } else {
                done((args, over), r.pos, r.errs)
            }
        },
        Err(x) => failed(x, r.pos, r.errs),
    }
}

/// The rest of a call behind its "(": the arguments and the ")".
pub open spec fn spec_finish_call(
    toks: Seq<Token>,
    pos: int,
    errs: Seq<LineErrorV>,
    callee: ExprV,
) -> Parsed<ExprV>
    decreases toks.len() - pos, 26int,
{
    let a = if kind_at(toks, pos, TokenType::RightParen) {
        done((Seq::<ExprV>::empty(), None::<Token>), pos, errs)
    } else {
        spec_args(toks, pos, errs, Seq::empty(), None)
    };
    match a.out {
        Ok((args, over)) => {
            let errs = match over {
                Some(token) => a.errs.push(LineErrorV::TooManyArgs { token }),
                None => a.errs,
            };
            let c = consume_spec(toks, a.pos, errs, TokenType::RightParen);
            match c.out {
                Ok(paren) => done(
                    ExprV::Call { callee: Box::new(callee), paren, args },
                    c.pos,
                    c.errs,
                ),
                Err(x) => failed(x, c.pos, c.errs),
            }
        },
        Err(x) => failed(x, a.pos, a.errs),
    }
}

/// What follows a primary in a call: ( "(" args? ")" | "." IDENT )*
pub open spec fn spec_call_rest(toks: Seq<Token>, pos: int, errs: Seq<LineErrorV>, callee: ExprV)
    -> Parsed<ExprV>
    decreases toks.len() - pos, 0int,
{
    if kind_at(toks, pos, TokenType::LeftParen) {
        let r = spec_finish_call(toks, pos + 1, errs, callee);
        match r.out {
            Ok(e) => if moved(toks, pos, r.pos) {
                spec_call_rest(toks, r.pos, r.errs, e)
            } else {
                r
            },
            Err(x) => failed(x, r.pos, r.errs),
        }
    } else if kind_at(toks, pos, TokenType::Dot) {
        let c = consume_spec(toks, pos + 1, errs, TokenType::Identifier);
        match c.out {
            Ok(name) => spec_call_rest(
                toks,
                c.pos,
                c.errs,
                ExprV::Get { object: Box::new(callee), name },
            ),
            Err(x) => failed(
                LineErrorV::WithContext {
                    context: "expect property name after '.'"@,
                    err: Box::new(x),
                },
                c.pos,
                c.errs,
            ),
        }
    } else {
        done(callee, pos, errs)
    }
}

/// call → primary ( "(" args? ")" | "." IDENT )*
pub open spec fn spec_call(toks: Seq<Token>, pos: int, errs: Seq<LineErrorV>) -> Parsed<ExprV>
    decreases toks.len() - pos, 8int,
{
    let r = spec_primary(toks, pos, errs);
    match r.out {
        Ok(e) => if moved(toks, pos, r.pos) {
            spec_call_rest(toks, r.pos, r.errs, e)
        } else {
            r
        },
        Err(x) => r,
    }
}

/// unary → ( "!" | "-" ) unary | call
pub open spec fn spec_unary(toks: Seq<Token>, pos: int, errs: Seq<LineErrorV>) -> Parsed<ExprV>
    decreases toks.len() - pos, 9int,
{
    if kind_at(toks, pos, TokenType::Bang) || kind_at(toks, pos, TokenType::Minus) {
        let r = spec_unary(toks, pos + 1, errs);
        match r.out {
            Ok(right) => done(
                ExprV::Unary { op: toks[pos], right: Box::new(right) },
                r.pos,
                r.errs,
            ),
            Err(x) => r,
        }
    } else {
        spec_call(toks, pos, errs)
    }
}

/// An operand of the operators at `level`: a chain of the next tighter
/// level, or a unary expression under the tightest.
pub open spec fn spec_operand(toks: Seq<Token>, pos: int, errs: Seq<LineErrorV>, level: int)
    -> Parsed<ExprV>
    decreases toks.len() - pos, 10 + level, 0int,
{
    if level == 0 {
        spec_unary(toks, pos, errs)
    } else if 1 <= level <= 5 {
        spec_chain(toks, pos, errs, level - 1)
    } else {
        failed(LineErrorV::ExpectedExpr { line: 0 }, pos, errs)
    }
}

/// What follows the operand `left` in a chain at `level`: ( operator operand )*.
/// The chain leans to the left.
pub open spec fn spec_chain_rest(
    toks: Seq<Token>,
    pos: int,
    errs: Seq<LineErrorV>,
    level: int,
    left: ExprV,
) -> Parsed<ExprV>
    decreases toks.len() - pos, 0int, 0int,
{
    if 0 <= pos < toks.len() && 0 <= level <= 5 && joins(level, toks[pos].typ) {
        let r = spec_operand(toks, pos + 1, errs, level);
        match r.out {
            Ok(right) => if moved(toks, pos, r.pos) {
                spec_chain_rest(toks, r.pos, r.errs, level, joined_expr(level, left, toks[pos], right))
            } else {
                r
            },
            Err(x) => r,
        }
    } else {
        done(left, pos, errs)
    }
}

/// A chain at `level` of the binary operators: operand ( operator operand )*.
/// Level 0 is `factor`, 1 `term`, 2 `comparison`, 3 `equality`, 4
/// `logic_and`, 5 `logic_or`.
pub open spec fn spec_chain(toks: Seq<Token>, pos: int, errs: Seq<LineErrorV>, level: int)
    -> Parsed<ExprV>
    decreases toks.len() - pos, 10 + level, 1int,
{
    if 0 <= level <= 5 {
        let r = spec_operand(toks, pos, errs, level);
        match r.out {
            Ok(e) => if moved(toks, pos, r.pos) {
                spec_chain_rest(toks, r.pos, r.errs, level, e)
            } else {
                r
            },
            Err(x) => r,
        }
    } else {
        failed(LineErrorV::ExpectedExpr { line: 0 }, pos, errs)
    }
}

/// assignment → ( call "." IDENT | IDENT ) "=" assignment | logic_or
///
/// The left side is read as a `logic_or`. Where "=" follows, a variable
/// becomes an assignment and a property read a property write; behind
/// anything else the "=" is an error.
pub open spec fn spec_assignment(toks: Seq<Token>, pos: int, errs: Seq<LineErrorV>) -> Parsed<
    ExprV,
>
    decreases toks.len() - pos, 16int, 0int,
{
    let r = spec_chain(toks, pos, errs, 5);
    match r.out {
        Ok(target) => if kind_at(toks, r.pos, TokenType::Equal) && moved(toks, pos, r.pos + 1) {
            match target {
                ExprV::Var { name } => {
                    let v = spec_assignment(toks, r.pos + 1, r.errs);
                    match v.out {
                        Ok(value) => done(
                            ExprV::Assign { name, value: Box::new(value) },
                            v.pos,
                            v.errs,
                        ),
                        Err(x) => v,
                    }
                },
                ExprV::Get { object, name } => {
                    let v = spec_assignment(toks, r.pos + 1, r.errs);
                    match v.out {
                        Ok(value) => done(
                            ExprV::SetProperty { object, name, value: Box::new(value) },
                            v.pos,
                            v.errs,
                        ),
                        Err(x) => v,
                    }
                },
                _ => failed(
                    LineErrorV::InvalidAssignment { token: toks[r.pos] },
                    r.pos + 1,
                    r.errs,
                ),
            }
        } else {
            r
        },
        Err(x) => r,
    }
}

/// expression → assignment
pub open spec fn spec_expr(toks: Seq<Token>, pos: int, errs: Seq<LineErrorV>) -> Parsed<ExprV>
    decreases toks.len() - pos, 17int, 0int,
{
    spec_assignment(toks, pos, errs)
}

/// An expression and the ";" behind it.
pub open spec fn spec_expr_then_semicolon(toks: Seq<Token>, pos: int, errs: Seq<LineErrorV>)
    -> Parsed<ExprV>
    decreases toks.len() - pos, 18int, 0int,
{
    let r = spec_expr(toks, pos, errs);
    match r.out {
        Ok(e) => {
            let c = consume_spec(toks, r.pos, r.errs, TokenType::Semicolon);
            match c.out {
                Ok(_) => done(e, c.pos, c.errs),
                Err(x) => failed(x, c.pos, c.errs),
            }
        },
        Err(x) => r,
    }
}

/// exprStmt → expression ";"
pub open spec fn spec_expr_stmt(toks: Seq<Token>, pos: int, errs: Seq<LineErrorV>) -> Parsed<StmtV>
    decreases toks.len() - pos, 18int, 1int,
{
    let r = spec_expr_then_semicolon(toks, pos, errs);
    match r.out {
        Ok(expr) => done(StmtV::Expr { expr }, r.pos, r.errs),
        Err(x) => failed(x, r.pos, r.errs),
    }
}

/// printStmt → "print" expression ";", behind the "print".
pub open spec fn spec_print_stmt(toks: Seq<Token>, pos: int, errs: Seq<LineErrorV>) -> Parsed<StmtV>
    decreases toks.len() - pos, 18int, 1int,
{
    let r = spec_expr_then_semicolon(toks, pos, errs);
    match r.out {
        Ok(expr) => done(StmtV::Print { expr }, r.pos, r.errs),
        Err(x) => failed(x, r.pos, r.errs),
    }
}

/// returnStmt → "return" expression? ";", behind the "return". Without an
/// expression the value is nil.
pub open spec fn spec_return_stmt(toks: Seq<Token>, pos: int, errs: Seq<LineErrorV>) -> Parsed<
    StmtV,
>
    decreases toks.len() - pos, 18int, 1int,
{
    let keyword = toks[pos - 1];
    if kind_at(toks, pos, TokenType::Semicolon) {
        done(
            StmtV::Return { keyword, value: ExprV::Literal { value: Value::Nil } },
            pos + 1,
            errs,
        )
    } else {
        let r = spec_expr_then_semicolon(toks, pos, errs);
        match r.out {
            Ok(value) => done(StmtV::Return { keyword, value }, r.pos, r.errs),
            Err(x) => failed(x, r.pos, r.errs),
        }
    }
}

/// varDecl → "var" IDENT ( "=" expression )? ";", behind the "var".
pub open spec fn spec_var_decl(toks: Seq<Token>, pos: int, errs: Seq<LineErrorV>) -> Parsed<StmtV>
    decreases toks.len() - pos, 18int, 1int,
{
    let n = consume_spec(toks, pos, errs, TokenType::Identifier);
    match n.out {
        Ok(name) => if kind_at(toks, n.pos, TokenType::Equal) {
            let r = spec_expr_then_semicolon(toks, n.pos + 1, errs);
            match r.out {
                Ok(e) => done(StmtV::Var { name, initializer: Some(e) }, r.pos, r.errs),
                Err(x) => failed(x, r.pos, r.errs),
            }
        } else {
            let c = consume_spec(toks, n.pos, errs, TokenType::Semicolon);
            match c.out {
                Ok(_) => done(StmtV::Var { name, initializer: None }, c.pos, c.errs),
                Err(x) => failed(x, c.pos, c.errs),
            }
        },
        Err(x) => failed(x, n.pos, n.errs),
    }
}

/// "(" expression ")", the head of `if` and `while`.
pub open spec fn spec_condition(toks: Seq<Token>, pos: int, errs: Seq<LineErrorV>) -> Parsed<ExprV>
    decreases toks.len() - pos, 18int, 0int,
{
    let o = consume_spec(toks, pos, errs, TokenType::LeftParen);
    match o.out {
        Ok(_) => {
            let r = spec_expr(toks, o.pos, o.errs);
            match r.out {
                Ok(e) => {
                    let c = consume_spec(toks, r.pos, r.errs, TokenType::RightParen);
                    match c.out {
                        Ok(_) => done(e, c.pos, c.errs),
                        Err(x) => failed(x, c.pos, c.errs),
                    }
                },
                Err(x) => r,
            }
        },
        Err(x) => failed(x, o.pos, o.errs),
    }
}

/// whileStmt → "while" "(" expression ")" statement, behind the "while".
pub open spec fn spec_while_stmt(toks: Seq<Token>, pos: int, errs: Seq<LineErrorV>) -> Parsed<StmtV>
    decreases toks.len() - pos, 18int, 1int,
{
    let c = spec_condition(toks, pos, errs);
    match c.out {
        Ok(condition) => if moved(toks, pos, c.pos) {
            let b = spec_stmt(toks, c.pos, c.errs);
            match b.out {
                Ok(body) => done(StmtV::While { condition, body: Box::new(body) }, b.pos, b.errs),
                Err(x) => b,
            }
        } else {
            failed(LineErrorV::ExpectedExpr { line: 0 }, c.pos, c.errs)
        },
        Err(x) => failed(x, c.pos, c.errs),
    }
}

/// ifStmt → "if" "(" expression ")" statement ( "else" statement )?, behind
/// the "if".
pub open spec fn spec_if_stmt(toks: Seq<Token>, pos: int, errs: Seq<LineErrorV>) -> Parsed<StmtV>
    decreases toks.len() - pos, 18int, 1int,
{
    let c = spec_condition(toks, pos, errs);
    match c.out {
        Ok(condition) => if moved(toks, pos, c.pos) {
            let t = spec_stmt(toks, c.pos, c.errs);
            match t.out {
                Ok(then_stmt) => if kind_at(toks, t.pos, TokenType::Else) && moved(
                    toks,
                    pos,
                    t.pos + 1,
                ) {
                    let e = spec_stmt(toks, t.pos + 1, t.errs);
                    match e.out {
                        Ok(else_stmt) => done(
                            StmtV::If {
                                condition,
                                then_stmt: Box::new(then_stmt),
                                else_stmt: Some(Box::new(else_stmt)),
                            },
                            e.pos,
                            e.errs,
                        ),
                        Err(x) => e,
                    }
                } else {
                    done(
                        StmtV::If { condition, then_stmt: Box::new(then_stmt), else_stmt: None },
                        t.pos,
                        t.errs,
                    )
                },
                Err(x) => t,
            }
        } else {
            failed(LineErrorV::ExpectedExpr { line: 0 }, c.pos, c.errs)
        },
        Err(x) => failed(x, c.pos, c.errs),
    }
}

/// The first clause of a `for`: ";", a variable declaration, or an
/// expression statement.
pub open spec fn spec_for_init(toks: Seq<Token>, pos: int, errs: Seq<LineErrorV>) -> Parsed<
    Option<StmtV>,
>
    decreases toks.len() - pos, 19int, 0int,
{
    if kind_at(toks, pos, TokenType::Semicolon) {
        done(None, pos + 1, errs)
    } else {
        let r = if kind_at(toks, pos, TokenType::Var) {
            spec_var_decl(toks, pos + 1, errs)
        } else {
            spec_expr_stmt(toks, pos, errs)
        };
        match r.out {
            Ok(s) => done(Some(s), r.pos, r.errs),
            Err(x) => failed(x, r.pos, r.errs),
        }
    }
}

/// The second clause of a `for`: expression? ";". Without an expression
/// the condition is `true`.
pub open spec fn spec_for_condition(toks: Seq<Token>, pos: int, errs: Seq<LineErrorV>) -> Parsed<
    ExprV,
>
    decreases toks.len() - pos, 19int, 0int,
{
    if kind_at(toks, pos, TokenType::Semicolon) {
        done(ExprV::Literal { value: Value::Bool(true) }, pos + 1, errs)
    } else {
        spec_expr_then_semicolon(toks, pos, errs)
    }
}

/// The third clause of a `for`: expression? ")".
pub open spec fn spec_for_increment(toks: Seq<Token>, pos: int, errs: Seq<LineErrorV>) -> Parsed<
    Option<ExprV>,
>
    decreases toks.len() - pos, 19int, 0int,
{
    if kind_at(toks, pos, TokenType::RightParen) {
        done(None, pos + 1, errs)
    } else {
        let r = spec_expr(toks, pos, errs);
        match r.out {
            Ok(e) => {
                let c = consume_spec(toks, r.pos, r.errs, TokenType::RightParen);
                match c.out {
                    Ok(_) => done(Some(e), c.pos, c.errs),
                    Err(x) => failed(x, c.pos, c.errs),
                }
            },
            Err(x) => failed(x, r.pos, r.errs),
        }
    }
}

/// What a `for` loop is written out as: the body with the increment behind
/// it, under a `while` with the condition, behind the first clause.
pub open spec fn for_loop(init: Option<StmtV>, condition: ExprV, incr: Option<ExprV>, body: StmtV)
    -> StmtV {
    let body = match incr {
        Some(e) => StmtV::Block { statements: seq![body, StmtV::Expr { expr: e }] },
        None => body,
    };
    let looped = StmtV::While { condition, body: Box::new(body) };
    match init {
        Some(s) => StmtV::Block { statements: seq![s, looped] },
        None => looped,
    }
}

/// forStmt → "for" "(" ( varDecl | exprStmt | ";" ) expression? ";"
/// expression? ")" statement, behind the "for".
pub open spec fn spec_for_stmt(toks: Seq<Token>, pos: int, errs: Seq<LineErrorV>) -> Parsed<StmtV>
    decreases toks.len() - pos, 19int, 1int,
{
    let o = consume_spec(toks, pos, errs, TokenType::LeftParen);
    match o.out {
        Ok(_) => {
            let i = spec_for_init(toks, o.pos, o.errs);
            match i.out {
                Ok(init) => if moved(toks, pos, i.pos) {
                    let c = spec_for_condition(toks, i.pos, i.errs);
                    match c.out {
                        Ok(condition) => if moved(toks, pos, c.pos) {
                            let n = spec_for_increment(toks, c.pos, c.errs);
                            match n.out {
                                Ok(incr) => if moved(toks, pos, n.pos) {
                                    let b = spec_stmt(toks, n.pos, n.errs);
                                    match b.out {
                                        Ok(body) => done(
                                            for_loop(init, condition, incr, body),
                                            b.pos,
                                            b.errs,
                                        ),
                                        Err(x) => b,
                                    }
                                } else {
                                    failed(LineErrorV::ExpectedExpr { line: 0 }, n.pos, n.errs)
                                },
                                Err(x) => failed(x, n.pos, n.errs),
                            }
                        } else {
                            failed(LineErrorV::ExpectedExpr { line: 0 }, c.pos, c.errs)
                        },
                        Err(x) => failed(x, c.pos, c.errs),
                    }
                } else {
                    failed(LineErrorV::ExpectedExpr { line: 0 }, i.pos, i.errs)
                },
                Err(x) => failed(x, i.pos, i.errs),
            }
        },
        Err(x) => failed(x, o.pos, o.errs),
    }
}

/// block → "{" declaration* "}", behind the "{" and the statements `stmts`.
pub open spec fn spec_block(toks: Seq<Token>, pos: int, errs: Seq<LineErrorV>, stmts: Seq<StmtV>)
    -> Parsed<Seq<StmtV>>
    decreases toks.len() - pos, 30int, 0int,
{
    if !kind_at(toks, pos, TokenType::RightBrace) && !ends_at(toks, pos) {
        let r = spec_decl(toks, pos, errs);
        match r.out {
            Ok(s) => if moved(toks, pos, r.pos) {
                spec_block(toks, r.pos, r.errs, stmts.push(s))
            } else {
                failed(LineErrorV::ExpectedExpr { line: 0 }, r.pos, r.errs)
            },
            Err(x) => failed(x, r.pos, r.errs),
        }
    } else {
        let c = consume_spec(toks, pos, errs, TokenType::RightBrace);
        match c.out {
            Ok(_) => done(stmts, c.pos, c.errs),
            Err(x) => failed(x, c.pos, c.errs),
        }
    }
}

/// A block as a statement, behind the "{".
pub open spec fn spec_block_stmt(toks: Seq<Token>, pos: int, errs: Seq<LineErrorV>) -> Parsed<StmtV>
    decreases toks.len() - pos, 31int, 0int,
{
    let r = spec_block(toks, pos, errs, Seq::empty());
    match r.out {
        Ok(statements) => done(StmtV::Block { statements }, r.pos, r.errs),
        Err(x) => failed(x, r.pos, r.errs),
    }
}

/// statement → ifStmt | printStmt | returnStmt | whileStmt | forStmt | block
/// | exprStmt
pub open spec fn spec_stmt(toks: Seq<Token>, pos: int, errs: Seq<LineErrorV>) -> Parsed<StmtV>
    decreases toks.len() - pos, 23int, 0int,
{
    if kind_at(toks, pos, TokenType::If) {
        spec_if_stmt(toks, pos + 1, errs)
    } else if kind_at(toks, pos, TokenType::Print) {
        spec_print_stmt(toks, pos + 1, errs)
    } else if kind_at(toks, pos, TokenType::Return) {
        spec_return_stmt(toks, pos + 1, errs)
    } else if kind_at(toks, pos, TokenType::While) {
        spec_while_stmt(toks, pos + 1, errs)
    } else if kind_at(toks, pos, TokenType::For) {
        spec_for_stmt(toks, pos + 1, errs)
    } else if kind_at(toks, pos, TokenType::LeftBrace) {
        spec_block_stmt(toks, pos + 1, errs)
    } else {
        spec_expr_stmt(toks, pos, errs)
    }
}

/// params → IDENT ( "," IDENT )*, behind the parameters `params`.
pub open spec fn spec_params(toks: Seq<Token>, pos: int, errs: Seq<LineErrorV>, params: Seq<Token>)
    -> Parsed<Seq<Token>>
    decreases toks.len() - pos,
{
    let c = consume_spec(toks, pos, errs, TokenType::Identifier);
    match c.out {
        Ok(name) => if kind_at(toks, c.pos, TokenType::Comma) {
            spec_params(toks, c.pos + 1, errs, params.push(name))
        } else {
            done(params.push(name), c.pos, errs)
        },
        Err(x) => failed(x, c.pos, c.errs),
    }
}

/// An error of the header of a declaration of kind `kind`.
pub open spec fn of_kind<T>(kind: FunctionKind, c: Parsed<Token>) -> Parsed<T> {
    failed(LineErrorV::FunctionKind { kind, err: Box::new(c.out->Err_0) }, c.pos, c.errs)
}

/// function → IDENT "(" params? ")" block
pub open spec fn spec_function(
    toks: Seq<Token>,
    pos: int,
    errs: Seq<LineErrorV>,
    kind: FunctionKind,
) -> Parsed<StmtV>
    decreases toks.len() - pos, 24int, 0int,
{
    let n = consume_spec(toks, pos, errs, TokenType::Identifier);
    if n.out is Err {
        of_kind(kind, n)
    } else {
        let o = consume_spec(toks, n.pos, errs, TokenType::LeftParen);
        if o.out is Err {
            of_kind(kind, o)
        } else {
            let p = if kind_at(toks, o.pos, TokenType::RightParen) {
                done(Seq::<Token>::empty(), o.pos, errs)
            } else {
                spec_params(toks, o.pos, errs, Seq::empty())
            };
            match p.out {
                Ok(params) => {
                    let errs = if params.len() >= MAX_ARGS {
                        errs.push(LineErrorV::TooManyParams { token: toks[p.pos] })
                    } else {
                        errs
                    };
                    let c = consume_spec(toks, p.pos, errs, TokenType::RightParen);
                    if c.out is Err {
                        of_kind(kind, c)
                    } else {
                        let b = consume_spec(toks, c.pos, errs, TokenType::LeftBrace);
                        match b.out {
                            Ok(_) => if moved(toks, pos, b.pos) {
                                let r = spec_block(toks, b.pos, errs, Seq::empty());
                                match r.out {
                                    Ok(body) => done(
                                        StmtV::Function {
                                            function: FunctionV {
                                                name: n.out->Ok_0,
                                                params,
                                                body,
                                            },
                                        },
                                        r.pos,
                                        r.errs,
                                    ),
                                    Err(x) => failed(x, r.pos, r.errs),
                                }
                            } else {
                                failed(LineErrorV::ExpectedExpr { line: 0 }, b.pos, b.errs)
                            },
                            Err(x) => failed(x, b.pos, b.errs),
                        }
                    }
                },
                Err(x) => failed(x, p.pos, p.errs),
            }
        }
    }
}

/// The methods of a class, behind the methods `methods`, and the "}".
pub open spec fn spec_methods(toks: Seq<Token>, pos: int, errs: Seq<LineErrorV>, methods: Seq<StmtV>)
    -> Parsed<Seq<StmtV>>
    decreases toks.len() - pos, 25int, 0int,
{
    if !kind_at(toks, pos, TokenType::RightBrace) && !ends_at(toks, pos) {
        let r = spec_function(toks, pos, errs, FunctionKind::Method);
        match r.out {
            Ok(m) => if moved(toks, pos, r.pos) {
                spec_methods(toks, r.pos, r.errs, methods.push(m))
            } else {
                failed(LineErrorV::ExpectedExpr { line: 0 }, r.pos, r.errs)
            },
            Err(x) => failed(x, r.pos, r.errs),
        }
    } else {
        let c = consume_spec(toks, pos, errs, TokenType::RightBrace);
        match c.out {
            Ok(_) => done(methods, c.pos, c.errs),
            Err(x) => failed(
                LineErrorV::WithContext {
                    context: "expect '}' after class body"@,
                    err: Box::new(x),
                },
                c.pos,
                c.errs,
            ),
        }
    }
}

/// classDecl → "class" IDENT "{" function* "}", behind the "class".
pub open spec fn spec_class_decl(toks: Seq<Token>, pos: int, errs: Seq<LineErrorV>) -> Parsed<StmtV>
    decreases toks.len() - pos, 26int, 0int,
{
    let n = consume_spec(toks, pos, errs, TokenType::Identifier);
    match n.out {
        Ok(name) => {
            let o = consume_spec(toks, n.pos, errs, TokenType::LeftBrace);
            match o.out {
                Ok(_) => {
                    let r = spec_methods(toks, o.pos, errs, Seq::empty());
                    match r.out {
                        Ok(methods) => done(StmtV::Class { name, methods }, r.pos, r.errs),
                        Err(x) => failed(x, r.pos, r.errs),
                    }
                },
                Err(x) => failed(
                    LineErrorV::WithContext {
                        context: "expect '{' before class body"@,
                        err: Box::new(x),
                    },
                    o.pos,
                    o.errs,
                ),
            }
        },
        Err(x) => failed(x, n.pos, n.errs),
    }
}

/// declaration → classDecl | funDecl | varDecl | statement
pub open spec fn spec_decl(toks: Seq<Token>, pos: int, errs: Seq<LineErrorV>) -> Parsed<StmtV>
    decreases toks.len() - pos, 27int, 0int,
{
    if kind_at(toks, pos, TokenType::Fun) {
        spec_function(toks, pos + 1, errs, FunctionKind::Function)
    } else if kind_at(toks, pos, TokenType::Var) {
        spec_var_decl(toks, pos + 1, errs)
    } else if kind_at(toks, pos, TokenType::Class) {
        spec_class_decl(toks, pos + 1, errs)
    } else {
        spec_stmt(toks, pos, errs)
    }
}

/// Whether a statement may start with a token of this kind.
pub open spec fn starts_statement(typ: TokenType) -> bool {
    typ == TokenType::Class || typ == TokenType::For || typ == TokenType::Fun || typ
        == TokenType::If || typ == TokenType::Print || typ == TokenType::Return || typ
        == TokenType::Var || typ == TokenType::While
}

/// The first place from `pos` on where parsing can take up again: behind a
/// ";", before a token that starts a statement, or at the end.
pub open spec fn sync_from(toks: Seq<Token>, pos: int) -> int
    decreases toks.len() - pos,
{
    if pos < 1 || pos >= toks.len() || ends_at(toks, pos) {
        pos
    } else if toks[pos - 1].typ == TokenType::Semicolon {
        pos
    } else if starts_statement(toks[pos].typ) {
        pos
    } else {
        sync_from(toks, pos + 1)
    }
}

/// Where parsing takes up again behind an error at `pos`: the token at
/// `pos` is skipped, then tokens are skipped up to the next place where a
/// statement can start.
pub open spec fn synchronize_spec(toks: Seq<Token>, pos: int) -> int {
    if ends_at(toks, pos) {
        pos
    } else {
        sync_from(toks, pos + 1)
    }
}

/// What parsing a program yields.
pub enum Program {
    /// The statements, where no declaration had an error and no diagnostic
    /// was recorded.
    Accepted(Seq<StmtV>),
    Rejected,
}

/// program → declaration* EOF, from `pos` on, behind the statements
/// `stmts`. After an error the statements are dropped, and parsing goes on
/// from the next place where a statement can start.
pub open spec fn spec_program(
    toks: Seq<Token>,
    pos: int,
    errs: Seq<LineErrorV>,
    stmts: Seq<StmtV>,
    failed: bool,
) -> Program
    decreases toks.len() - pos,
{
    if pos < 0 || pos >= toks.len() || ends_at(toks, pos) {
        if failed || errs.len() > 0 {
            Program::Rejected
        } else {
            Program::Accepted(stmts)
        }
    } else {
        let r = spec_decl(toks, pos, errs);
        match r.out {
            Ok(s) => if moved(toks, pos, r.pos) {
                spec_program(
                    toks,
                    r.pos,
                    r.errs,
                    if failed {
                        stmts
                    } else {
                        stmts.push(s)
                    },
                    failed,
                )
            } else {
                Program::Rejected
            },
            Err(x) => {
                let next = synchronize_spec(toks, r.pos);
                if moved(toks, pos, next) {
                    spec_program(toks, next, r.errs, stmts, true)
                } else {
                    Program::Rejected
                }
            },
        }
    }
}

/// Whether the tokens can be parsed: there is at least one, the last is the
/// end-of-file token, and every number and string token carries what it
/// stands for.
pub open spec fn parsable(toks: Seq<Token>) -> bool {
    &&& toks.len() > 0
    &&& toks.last().typ == TokenType::Eof
    &&& forall|i: int|
        0 <= i < toks.len() && ((#[trigger] toks[i]).typ == TokenType::Number || toks[i].typ
            == TokenType::String) ==> toks[i].literal is Some
}

/// What a rule returned, as contracts see it.
pub open spec fn expr_out(r: Result<Expr, LineError>) -> Result<ExprV, LineErrorV> {
    match r {
        Ok(e) => Ok(e@),
        Err(x) => Err(x@),
    }
}

/// What a rule returned, as contracts see it.
pub open spec fn stmt_out(r: Result<Stmt, LineError>) -> Result<StmtV, LineErrorV> {
    match r {
        Ok(s) => Ok(s@),
        Err(x) => Err(x@),
    }
}

/// What a rule returned, as contracts see it.
pub open spec fn stmts_out(r: Result<Vec<Stmt>, LineError>) -> Result<Seq<StmtV>, LineErrorV> {
    match r {
        Ok(s) => Ok(stmts_view(s@)),
        Err(x) => Err(x@),
    }
}

/// What a rule returned, as contracts see it.
pub open spec fn token_out(r: Result<Token, LineError>) -> Result<Token, LineErrorV> {
    match r {
        Ok(t) => Ok(t),
        Err(x) => Err(x@),
    }
}

/// The view of a statement that may be absent.
pub open spec fn optional_stmt_view(s: Option<Stmt>) -> Option<StmtV> {
    match s {
        Some(s) => Some(s@),
        None => None,
    }
}

/// The view of an expression that may be absent.
pub open spec fn optional_expr_view(e: Option<Expr>) -> Option<ExprV> {
    match e {
        Some(e) => Some(e@),
        None => None,
    }
}

/// What parsing a program returned, as contracts see it.
pub open spec fn program_out(r: Result<Vec<Stmt>, ParseError>) -> Program {
    match r {
        Ok(s) => Program::Accepted(stmts_view(s@)),
        Err(_) => Program::Rejected,
    }
}

/// Whether the tokens hold what `Parser::new` asks for.
pub fn is_parsable(tokens: &Vec<Token>) -> (r: bool)
    ensures
        r == parsable(tokens@),
{
    let n = tokens.len();
    if n == 0 {
        return false;
    }
    if tokens[n - 1].typ != TokenType::Eof {
        return false;
    }
    let mut i: usize = 0;
    while i < n
        invariant
            n == tokens@.len(),
            i <= n,
            forall|k: int|
                0 <= k < i && ((#[trigger] tokens@[k]).typ == TokenType::Number || tokens@[k].typ
                    == TokenType::String) ==> tokens@[k].literal is Some,
        decreases n - i,
    {
        if (tokens[i].typ == TokenType::Number || tokens[i].typ == TokenType::String)
            && tokens[i].literal.is_none() {
            return false;
        }
        i = i + 1;
    }
    true
}

/// Writes a `for` loop out as a `while` loop.
pub fn for_loop_of(init: Option<Stmt>, condition: Expr, incr: Option<Expr>, body: Stmt) -> (r: Stmt)
    ensures
        r@ == for_loop(optional_stmt_view(init), condition@, optional_expr_view(incr), body@),
{
    let ghost body_view = body@;
    let ghost condition_view = condition@;
    let inner = match incr {
        Some(e) => {
            let mut statements: Vec<Stmt> = Vec::new();
            statements.push(body);
            statements.push(Stmt::Expr(ExprStmt { expr: e }));
            assert(stmts_view(statements@) =~= seq![body_view, StmtV::Expr { expr: e@ }]);
            let block = Stmt::Block(BlockStmt { statements });
            assert(block@ == StmtV::Block {
                statements: seq![body_view, StmtV::Expr { expr: e@ }],
            });
            block
        },
        None => body,
    };
    let ghost inner_view = inner@;
    let looped = Stmt::While(WhileStmt { condition, body: Box::new(inner) });
    assert(looped@ == StmtV::While { condition: condition_view, body: Box::new(inner_view) });
    match init {
        Some(s) => {
            let ghost shown = looped@;
            let mut statements: Vec<Stmt> = Vec::new();
            statements.push(s);
            statements.push(looped);
            assert(stmts_view(statements@) =~= seq![s@, shown]);
            let block = Stmt::Block(BlockStmt { statements });
            assert(block@ == StmtV::Block { statements: seq![s@, shown] });
            block
        },
        None => looped,
    }
}

/// A recursive-descent parser over a sequence of tokens.
pub struct Parser {
    tokens: Vec<Token>,
    current: usize,
    errs: Vec<LineError>,
}

impl Parser {
    /// The tokens that the parser reads.
    pub closed spec fn tokens(&self) -> Seq<Token> {
        self.tokens@
    }

    /// The place of the next token to read.
    pub closed spec fn position(&self) -> int {
        self.current as int
    }

    /// The diagnostics recorded so far.
    pub closed spec fn diagnostics(&self) -> Seq<LineErrorV> {
        line_errors_view(self.errs@)
    }

    /// The parser stands on a token, and the tokens are as `new` took them.
    pub open spec fn inv(&self) -> bool {
        parsable(self.tokens()) && 0 <= self.position() < self.tokens().len()
    }

    /// What holds after a rule that started in the state `before`.
    pub open spec fn follows(&self, before: &Parser) -> bool {
        &&& self.inv()
        &&& self.tokens() == before.tokens()
        &&& before.position() <= self.position()
    }

    /// A parser at the first of the tokens.
    pub fn new(tokens: Vec<Token>) -> (r: Parser)
        requires
            parsable(tokens@),
        ensures
            r.inv(),
            r.tokens() == tokens@,
            r.position() == 0,
            r.diagnostics() == Seq::<LineErrorV>::empty(),
    {
        let r = Parser { tokens, current: 0, errs: Vec::new() };
        assert(r.diagnostics() =~= Seq::<LineErrorV>::empty());
        r
    }

    /// Parses a program. The statements are returned where no declaration
    /// had an error and no diagnostic was recorded.
    pub fn parse(&mut self) -> (r: Result<Vec<Stmt>, ParseError>)
        requires
            old(self).inv(),
        ensures
            final(self).follows(old(self)),
            program_out(r) == spec_program(
                old(self).tokens(),
                old(self).position(),
                old(self).diagnostics(),
                Seq::empty(),
                false,
            ),
            r is Err ==> r->Err_0 == ParseError::Failed,
    {
        let mut stmts: Vec<Stmt> = Vec::new();
        let mut failed = false;
        let ghost toks = self.tokens@;
        let ghost want = spec_program(
            toks,
            self.current as int,
            line_errors_view(self.errs@),
            Seq::empty(),
            false,
        );
        assert(stmts_view(stmts@) =~= Seq::empty());
        while !self.at_end()
            invariant
                self.follows(old(self)),
                toks == self.tokens@,
                want == spec_program(
                    toks,
                    self.current as int,
                    line_errors_view(self.errs@),
                    stmts_view(stmts@),
                    failed,
                ),
            decreases self.tokens@.len() - self.current,
        {
            let ghost before = stmts_view(stmts@);
            let ghost start = self.current;
            match self.decl() {
                Ok(stmt) => {
                    if !failed {
                        stmts.push(stmt);
                        assert(stmts_view(stmts@) =~= before.push(stmt@));
                    }
                },
                Err(_) => {
                    failed = true;
                    self.synchronize();
                },
            }
        }
        if failed || !self.errs.is_empty() {
            Err(ParseError::Failed)
        } else {
            Ok(stmts)
        }
    }

    /// Parses one expression, which has to be all there is: behind it the
    /// tokens end.
    pub fn single_expr(&mut self) -> (r: Result<Expr, ParseError>)
        requires
            old(self).inv(),
        ensures
            final(self).follows(old(self)),
            ({
                let p = spec_expr(old(self).tokens(), old(self).position(), old(self).diagnostics());
                match p.out {
                    Ok(e) => if ends_at(old(self).tokens(), p.pos) {
                        r is Ok && r->Ok_0@ == e
                    } else {
                        r == Err::<Expr, ParseError>(ParseError::SingleEpxr)
                    },
                    Err(x) => r is Err && r->Err_0 is LineError && r->Err_0->LineError_0@ == x,
                }
            }),
    {
        match self.expr() {
            Ok(expr) => {
                if self.at_end() {
                    Ok(expr)
                } else {
                    Err(ParseError::SingleEpxr)
                }
            },
            Err(x) => Err(ParseError::LineError(x)),
        }
    }

    /// Skips to the next place where a statement can start.
    fn synchronize(&mut self)
        requires
            old(self).inv(),
        ensures
            final(self).follows(old(self)),
            final(self).errs == old(self).errs,
            final(self).current == synchronize_spec(old(self).tokens@, old(self).current as int),
            !ends_at(old(self).tokens@, old(self).current as int) ==> final(self).current > old(
                self,
            ).current,
    {
        if self.at_end() {
            return ;
        }
        self.advance();
        while !self.at_end()
            invariant
                self.follows(old(self)),
                self.errs == old(self).errs,
                self.current >= 1,
                self.current > old(self).current,
                !ends_at(old(self).tokens@, old(self).current as int),
                sync_from(self.tokens@, self.current as int) == sync_from(
                    self.tokens@,
                    old(self).current + 1,
                ),
            decreases self.tokens@.len() - self.current,
        {
            if self.tokens[self.current - 1].typ == TokenType::Semicolon {
                return ;
            }
            let typ = self.tokens[self.current].typ;
            if typ == TokenType::Class || typ == TokenType::For || typ == TokenType::Fun || typ
                == TokenType::If || typ == TokenType::Print || typ == TokenType::Return || typ
                == TokenType::Var || typ == TokenType::While {
                return ;
            }
            self.advance();
        }
    }

    fn decl(&mut self) -> (r: Result<Stmt, LineError>)
        requires
            old(self).inv(),
        ensures
            final(self).follows(old(self)),
            r is Ok ==> final(self).current > old(self).current,
            (Parsed { out: stmt_out(r), pos: final(self).position(), errs: final(self).diagnostics() })
                == spec_decl(old(self).tokens(), old(self).position(), old(self).diagnostics()),
        decreases old(self).tokens@.len() - old(self).current, 27int, 0int,
    {
        if self.match_any(TokenType::Fun) {
            return self.function(FunctionKind::Function);
        }
        if self.match_any(TokenType::Var) {
            return self.var_decl();
        }
        if self.match_any(TokenType::Class) {
            return self.class_decl();
        }
        self.stmt()
    }

    fn class_decl(&mut self) -> (r: Result<Stmt, LineError>)
        requires
            old(self).inv(),
        ensures
            final(self).follows(old(self)),
            r is Ok ==> final(self).current > old(self).current,
            (Parsed { out: stmt_out(r), pos: final(self).position(), errs: final(self).diagnostics() })
                == spec_class_decl(
                old(self).tokens(),
                old(self).position(),
                old(self).diagnostics(),
            ),
        decreases old(self).tokens@.len() - old(self).current, 26int, 0int,
    {
        let name = match self.consume(TokenType::Identifier) {
            Ok(t) => t,
            Err(x) => {
                return Err(x);
            },
        };
        match self.consume(TokenType::LeftBrace) {
            Ok(_) => {},
            Err(x) => {
                return Err(x.context("expect '{' before class body"));
            },
        }
        match self.methods() {
            Ok(methods) => Ok(Stmt::Class(ClassStmt { name, methods })),
            Err(x) => Err(x),
        }
    }

    fn function(&mut self, kind: FunctionKind) -> (r: Result<Stmt, LineError>)
        requires
            old(self).inv(),
        ensures
            final(self).follows(old(self)),
            r is Ok ==> final(self).current > old(self).current,
            (Parsed { out: stmt_out(r), pos: final(self).position(), errs: final(self).diagnostics() })
                == spec_function(
                old(self).tokens(),
                old(self).position(),
                old(self).diagnostics(),
                kind,
            ),
        decreases old(self).tokens@.len() - old(self).current, 24int, 0int,
    {
        let name = match self.consume(TokenType::Identifier) {
            Ok(t) => t,
            Err(x) => {
                return Err(LineError::fn_kind(kind, x));
            },
        };
        match self.consume(TokenType::LeftParen) {
            Ok(_) => {},
            Err(x) => {
                return Err(LineError::fn_kind(kind, x));
            },
        }
        let params = if self.check(TokenType::RightParen) {
            Vec::new()
        } else {
            match self.params() {
                Ok(p) => p,
                Err(x) => {
                    return Err(x);
                },
            }
        };
        if params.len() >= MAX_ARGS {
            let token = self.peek();
            self.smol_error(LineError::TooManyParams { token });
        }
        match self.consume(TokenType::RightParen) {
            Ok(_) => {},
            Err(x) => {
                return Err(LineError::fn_kind(kind, x));
            },
        }
        match self.consume(TokenType::LeftBrace) {
            Ok(_) => {},
            Err(x) => {
                return Err(x);
            },
        }
        let body = match self.block() {
            Ok(b) => b,
            Err(x) => {
                return Err(x);
            },
        };
        let function = FunctionStmt { name, params, body };
        let ghost shown = function_view(function);
        let stmt = Stmt::Function(Rc::new(function));
        assert(stmt@ == StmtV::Function { function: shown });
        Ok(stmt)
    }

    fn var_decl(&mut self) -> (r: Result<Stmt, LineError>)
        requires
            old(self).inv(),
        ensures
            final(self).follows(old(self)),
            r is Ok ==> final(self).current > old(self).current,
            (Parsed { out: stmt_out(r), pos: final(self).position(), errs: final(self).diagnostics() })
                == spec_var_decl(old(self).tokens(), old(self).position(), old(self).diagnostics()),
        decreases old(self).tokens@.len() - old(self).current, 18int, 1int,
    {
        let name = match self.consume(TokenType::Identifier) {
            Ok(t) => t,
            Err(x) => {
                return Err(x);
            },
        };
        if self.match_any(TokenType::Equal) {
            match self.expr_then_semicolon() {
                Ok(e) => Ok(Stmt::Var(VarStmt { name, initializer: Some(e) })),
                Err(x) => Err(x),
            }
        } else {
            match self.consume(TokenType::Semicolon) {
                Ok(_) => Ok(Stmt::Var(VarStmt { name, initializer: None })),
                Err(x) => Err(x),
            }
        }
    }

    fn stmt(&mut self) -> (r: Result<Stmt, LineError>)
        requires
            old(self).inv(),
        ensures
            final(self).follows(old(self)),
            r is Ok ==> final(self).current > old(self).current,
            (Parsed { out: stmt_out(r), pos: final(self).position(), errs: final(self).diagnostics() })
                == spec_stmt(old(self).tokens(), old(self).position(), old(self).diagnostics()),
        decreases old(self).tokens@.len() - old(self).current, 23int, 0int,
    {
        if self.match_any(TokenType::If) {
            return self.if_stmt();
        }
        if self.match_any(TokenType::Print) {
            return self.print_stmt();
        }
        if self.match_any(TokenType::Return) {
            return self.return_stmt();
        }
        if self.match_any(TokenType::While) {
            return self.while_stmt();
        }
        if self.match_any(TokenType::For) {
            return self.for_stmt();
        }
        if self.match_any(TokenType::LeftBrace) {
            return self.block_stmt();
        }
        self.expr_stmt()
    }

    fn return_stmt(&mut self) -> (r: Result<Stmt, LineError>)
        requires
            old(self).inv(),
            old(self).current >= 1,
        ensures
            final(self).follows(old(self)),
            r is Ok ==> final(self).current > old(self).current,
            (Parsed { out: stmt_out(r), pos: final(self).position(), errs: final(self).diagnostics() })
                == spec_return_stmt(
                old(self).tokens(),
                old(self).position(),
                old(self).diagnostics(),
            ),
        decreases old(self).tokens@.len() - old(self).current, 18int, 1int,
    {
        let keyword = self.previous();
        if self.match_any(TokenType::Semicolon) {
            return Ok(
                Stmt::Return(
                    ReturnStmt { keyword, value: Expr::Literal(LiteralExpr { value: Value::Nil }) },
                ),
            );
        }
        match self.expr_then_semicolon() {
            Ok(value) => Ok(Stmt::Return(ReturnStmt { keyword, value })),
            Err(x) => Err(x),
        }
    }

    fn for_init(&mut self) -> (r: Result<Option<Stmt>, LineError>)
        requires
            old(self).inv(),
        ensures
            final(self).follows(old(self)),
            r is Ok ==> final(self).current > old(self).current,
            ({
                let want = spec_for_init(
                    old(self).tokens(),
                    old(self).position(),
                    old(self).diagnostics(),
                );
                &&& want.pos == final(self).position()
                &&& want.errs == final(self).diagnostics()
                &&& match r {
                    Ok(Some(s)) => want.out == Ok::<Option<StmtV>, LineErrorV>(Some(s@)),
                    Ok(None) => want.out == Ok::<Option<StmtV>, LineErrorV>(None),
                    Err(x) => want.out == Err::<Option<StmtV>, LineErrorV>(x@),
                }
            }),
        decreases old(self).tokens@.len() - old(self).current, 19int, 0int,
    {
        if self.match_any(TokenType::Semicolon) {
            return Ok(None);
        }
        let r = if self.match_any(TokenType::Var) {
            self.var_decl()
        } else {
            self.expr_stmt()
        };
        match r {
            Ok(s) => Ok(Some(s)),
            Err(x) => Err(x),
        }
    }

    fn for_condition(&mut self) -> (r: Result<Expr, LineError>)
        requires
            old(self).inv(),
        ensures
            final(self).follows(old(self)),
            r is Ok ==> final(self).current > old(self).current,
            (Parsed { out: expr_out(r), pos: final(self).position(), errs: final(self).diagnostics() })
                == spec_for_condition(
                old(self).tokens(),
                old(self).position(),
                old(self).diagnostics(),
            ),
        decreases old(self).tokens@.len() - old(self).current, 19int, 0int,
    {
        if self.match_any(TokenType::Semicolon) {
            return Ok(Expr::literal(Value::Bool(true)));
        }
        self.expr_then_semicolon()
    }

    fn for_increment(&mut self) -> (r: Result<Option<Expr>, LineError>)
        requires
            old(self).inv(),
        ensures
            final(self).follows(old(self)),
            r is Ok ==> final(self).current > old(self).current,
            ({
                let want = spec_for_increment(
                    old(self).tokens(),
                    old(self).position(),
                    old(self).diagnostics(),
                );
                &&& want.pos == final(self).position()
                &&& want.errs == final(self).diagnostics()
                &&& match r {
                    Ok(Some(e)) => want.out == Ok::<Option<ExprV>, LineErrorV>(Some(e@)),
                    Ok(None) => want.out == Ok::<Option<ExprV>, LineErrorV>(None),
                    Err(x) => want.out == Err::<Option<ExprV>, LineErrorV>(x@),
                }
            }),
        decreases old(self).tokens@.len() - old(self).current, 19int, 0int,
    {
        if self.match_any(TokenType::RightParen) {
            return Ok(None);
        }
        let e = match self.expr() {
            Ok(e) => e,
            Err(x) => {
                return Err(x);
            },
        };
        match self.consume(TokenType::RightParen) {
            Ok(_) => Ok(Some(e)),
            Err(x) => Err(x),
        }
    }

    fn for_stmt(&mut self) -> (r: Result<Stmt, LineError>)
        requires
            old(self).inv(),
        ensures
            final(self).follows(old(self)),
            r is Ok ==> final(self).current > old(self).current,
            (Parsed { out: stmt_out(r), pos: final(self).position(), errs: final(self).diagnostics() })
                == spec_for_stmt(old(self).tokens(), old(self).position(), old(self).diagnostics()),
        decreases old(self).tokens@.len() - old(self).current, 19int, 1int,
    {
        match self.consume(TokenType::LeftParen) {
            Ok(_) => {},
            Err(x) => {
                return Err(x);
            },
        }
        let init = match self.for_init() {
            Ok(i) => i,
            Err(x) => {
                return Err(x);
            },
        };
        let condition = match self.for_condition() {
            Ok(c) => c,
            Err(x) => {
                return Err(x);
            },
        };
        let incr = match self.for_increment() {
            Ok(i) => i,
            Err(x) => {
                return Err(x);
            },
        };
        let body = match self.stmt() {
            Ok(b) => b,
            Err(x) => {
                return Err(x);
            },
        };
        Ok(for_loop_of(init, condition, incr, body))
    }

    /// "(" expression ")"
    fn condition(&mut self) -> (r: Result<Expr, LineError>)
        requires
            old(self).inv(),
        ensures
            final(self).follows(old(self)),
            r is Ok ==> final(self).current > old(self).current,
            (Parsed { out: expr_out(r), pos: final(self).position(), errs: final(self).diagnostics() })
                == spec_condition(old(self).tokens(), old(self).position(), old(self).diagnostics()),
        decreases old(self).tokens@.len() - old(self).current, 18int, 0int,
    {
        match self.consume(TokenType::LeftParen) {
            Ok(_) => {},
            Err(x) => {
                return Err(x);
            },
        }
        let e = match self.expr() {
            Ok(e) => e,
            Err(x) => {
                return Err(x);
            },
        };
        match self.consume(TokenType::RightParen) {
            Ok(_) => Ok(e),
            Err(x) => Err(x),
        }
    }

    fn while_stmt(&mut self) -> (r: Result<Stmt, LineError>)
        requires
            old(self).inv(),
        ensures
            final(self).follows(old(self)),
            r is Ok ==> final(self).current > old(self).current,
            (Parsed { out: stmt_out(r), pos: final(self).position(), errs: final(self).diagnostics() })
                == spec_while_stmt(
                old(self).tokens(),
                old(self).position(),
                old(self).diagnostics(),
            ),
        decreases old(self).tokens@.len() - old(self).current, 18int, 1int,
    {
        let condition = match self.condition() {
            Ok(c) => c,
            Err(x) => {
                return Err(x);
            },
        };
        match self.stmt() {
            Ok(body) => Ok(Stmt::While(WhileStmt { condition, body: Box::new(body) })),
            Err(x) => Err(x),
        }
    }

    fn if_stmt(&mut self) -> (r: Result<Stmt, LineError>)
        requires
            old(self).inv(),
        ensures
            final(self).follows(old(self)),
            r is Ok ==> final(self).current > old(self).current,
            (Parsed { out: stmt_out(r), pos: final(self).position(), errs: final(self).diagnostics() })
                == spec_if_stmt(old(self).tokens(), old(self).position(), old(self).diagnostics()),
        decreases old(self).tokens@.len() - old(self).current, 18int, 1int,
    {
        let condition = match self.condition() {
            Ok(c) => c,
            Err(x) => {
                return Err(x);
            },
        };
        let then_stmt = match self.stmt() {
            Ok(s) => Box::new(s),
            Err(x) => {
                return Err(x);
            },
        };
        if self.match_any(TokenType::Else) {
            match self.stmt() {
                Ok(e) => Ok(
                    Stmt::If(IfStmt { condition, then_stmt, else_stmt: Some(Box::new(e)) }),
                ),
                Err(x) => Err(x),
            }
        } else {
            Ok(Stmt::If(IfStmt { condition, then_stmt, else_stmt: None }))
        }
    }

    fn print_stmt(&mut self) -> (r: Result<Stmt, LineError>)
        requires
            old(self).inv(),
        ensures
            final(self).follows(old(self)),
            r is Ok ==> final(self).current > old(self).current,
            (Parsed { out: stmt_out(r), pos: final(self).position(), errs: final(self).diagnostics() })
                == spec_print_stmt(
                old(self).tokens(),
                old(self).position(),
                old(self).diagnostics(),
            ),
        decreases old(self).tokens@.len() - old(self).current, 18int, 1int,
    {
        match self.expr_then_semicolon() {
            Ok(expr) => Ok(Stmt::Print(PrintStmt { expr })),
            Err(x) => Err(x),
        }
    }

    /// The statements of a block and the "}" behind them.
    fn block(&mut self) -> (r: Result<Vec<Stmt>, LineError>)
        requires
            old(self).inv(),
        ensures
            final(self).follows(old(self)),
            r is Ok ==> final(self).current > old(self).current,
            (Parsed {
                out: stmts_out(r),
                pos: final(self).position(),
                errs: final(self).diagnostics(),
            }) == spec_block(
                old(self).tokens(),
                old(self).position(),
                old(self).diagnostics(),
                Seq::empty(),
            ),
        decreases old(self).tokens@.len() - old(self).current, 30int, 1int,
    {
        let mut statements: Vec<Stmt> = Vec::new();
        let ghost toks = self.tokens@;
        let ghost want = spec_block(
            toks,
            self.current as int,
            line_errors_view(self.errs@),
            Seq::empty(),
        );
        assert(stmts_view(statements@) =~= Seq::empty());
        while !self.check(TokenType::RightBrace) && !self.at_end()
            invariant
                self.follows(old(self)),
                toks == self.tokens@,
                want == spec_block(
                    old(self).tokens(),
                    old(self).position(),
                    old(self).diagnostics(),
                    Seq::empty(),
                ),
                want == spec_block(
                    toks,
                    self.current as int,
                    line_errors_view(self.errs@),
                    stmts_view(statements@),
                ),
            decreases self.tokens@.len() - self.current,
        {
            let ghost before = stmts_view(statements@);
            match self.decl() {
                Ok(stmt) => {
                    statements.push(stmt);
                    assert(stmts_view(statements@) =~= before.push(stmt@));
                },
                Err(x) => {
                    return Err(x);
                },
            }
        }
        match self.consume(TokenType::RightBrace) {
            Ok(_) => Ok(statements),
            Err(x) => Err(x),
        }
    }

    fn block_stmt(&mut self) -> (r: Result<Stmt, LineError>)
        requires
            old(self).inv(),
        ensures
            final(self).follows(old(self)),
            r is Ok ==> final(self).current > old(self).current,
            (Parsed { out: stmt_out(r), pos: final(self).position(), errs: final(self).diagnostics() })
                == spec_block_stmt(
                old(self).tokens(),
                old(self).position(),
                old(self).diagnostics(),
            ),
        decreases old(self).tokens@.len() - old(self).current, 31int, 0int,
    {
        match self.block() {
            Ok(statements) => Ok(Stmt::Block(BlockStmt { statements })),
            Err(x) => Err(x),
        }
    }

    /// expression ";"
    fn expr_then_semicolon(&mut self) -> (r: Result<Expr, LineError>)
        requires
            old(self).inv(),
        ensures
            final(self).follows(old(self)),
            r is Ok ==> final(self).current > old(self).current,
            (Parsed { out: expr_out(r), pos: final(self).position(), errs: final(self).diagnostics() })
                == spec_expr_then_semicolon(
                old(self).tokens(),
                old(self).position(),
                old(self).diagnostics(),
            ),
        decreases old(self).tokens@.len() - old(self).current, 18int, 0int,
    {
        let e = match self.expr() {
            Ok(e) => e,
            Err(x) => {
                return Err(x);
            },
        };
        match self.consume(TokenType::Semicolon) {
            Ok(_) => Ok(e),
            Err(x) => Err(x),
        }
    }

    fn expr_stmt(&mut self) -> (r: Result<Stmt, LineError>)
        requires
            old(self).inv(),
        ensures
            final(self).follows(old(self)),
            r is Ok ==> final(self).current > old(self).current,
            (Parsed { out: stmt_out(r), pos: final(self).position(), errs: final(self).diagnostics() })
                == spec_expr_stmt(old(self).tokens(), old(self).position(), old(self).diagnostics()),
        decreases old(self).tokens@.len() - old(self).current, 18int, 1int,
    {
        match self.expr_then_semicolon() {
            Ok(expr) => Ok(Stmt::Expr(ExprStmt { expr })),
            Err(x) => Err(x),
        }
    }

    fn expr(&mut self) -> (r: Result<Expr, LineError>)
        requires
            old(self).inv(),
        ensures
            final(self).follows(old(self)),
            r is Ok ==> final(self).current > old(self).current,
            (Parsed { out: expr_out(r), pos: final(self).position(), errs: final(self).diagnostics() })
                == spec_expr(old(self).tokens(), old(self).position(), old(self).diagnostics()),
        decreases old(self).tokens@.len() - old(self).current, 17int, 0int,
    {
        self.assignment()
    }

    fn assignment(&mut self) -> (r: Result<Expr, LineError>)
        requires
            old(self).inv(),
        ensures
            final(self).follows(old(self)),
            r is Ok ==> final(self).current > old(self).current,
            (Parsed { out: expr_out(r), pos: final(self).position(), errs: final(self).diagnostics() })
                == spec_assignment(
                old(self).tokens(),
                old(self).position(),
                old(self).diagnostics(),
            ),
        decreases old(self).tokens@.len() - old(self).current, 16int, 0int,
    {
        let target = match self.or() {
            Ok(e) => e,
            Err(x) => {
                return Err(x);
            },
        };
        if self.match_any(TokenType::Equal) {
            match target {
                Expr::Var(v) => match self.assignment() {
                    Ok(value) => Ok(
                        Expr::Assign(AssignExpr { name: v.name, value: Box::new(value) }),
                    ),
                    Err(x) => Err(x),
                },
                Expr::Get(g) => match self.assignment() {
                    Ok(value) => Ok(
                        Expr::SetProperty(
                            SetExpr { object: g.object, name: g.name, value: Box::new(value) },
                        ),
                    ),
                    Err(x) => Err(x),
                },
                _ => Err(LineError::InvalidAssignment { token: self.previous() }),
            }
        } else {
            Ok(target)
        }
    }

    fn or(&mut self) -> (r: Result<Expr, LineError>)
        requires
            old(self).inv(),
        ensures
            final(self).follows(old(self)),
            r is Ok ==> final(self).current > old(self).current,
            (Parsed { out: expr_out(r), pos: final(self).position(), errs: final(self).diagnostics() })
                == spec_chain(old(self).tokens(), old(self).position(), old(self).diagnostics(), 5),
        decreases old(self).tokens@.len() - old(self).current, 15int, 2int,
    {
        self.chain(5)
    }

    fn and(&mut self) -> (r: Result<Expr, LineError>)
        requires
            old(self).inv(),
        ensures
            final(self).follows(old(self)),
            r is Ok ==> final(self).current > old(self).current,
            (Parsed { out: expr_out(r), pos: final(self).position(), errs: final(self).diagnostics() })
                == spec_chain(old(self).tokens(), old(self).position(), old(self).diagnostics(), 4),
        decreases old(self).tokens@.len() - old(self).current, 14int, 2int,
    {
        self.chain(4)
    }

    fn equality(&mut self) -> (r: Result<Expr, LineError>)
        requires
            old(self).inv(),
        ensures
            final(self).follows(old(self)),
            r is Ok ==> final(self).current > old(self).current,
            (Parsed { out: expr_out(r), pos: final(self).position(), errs: final(self).diagnostics() })
                == spec_chain(old(self).tokens(), old(self).position(), old(self).diagnostics(), 3),
        decreases old(self).tokens@.len() - old(self).current, 13int, 2int,
    {
        self.chain(3)
    }

    fn comparison(&mut self) -> (r: Result<Expr, LineError>)
        requires
            old(self).inv(),
        ensures
            final(self).follows(old(self)),
            r is Ok ==> final(self).current > old(self).current,
            (Parsed { out: expr_out(r), pos: final(self).position(), errs: final(self).diagnostics() })
                == spec_chain(old(self).tokens(), old(self).position(), old(self).diagnostics(), 2),
        decreases old(self).tokens@.len() - old(self).current, 12int, 2int,
    {
        self.chain(2)
    }

    fn term(&mut self) -> (r: Result<Expr, LineError>)
        requires
            old(self).inv(),
        ensures
            final(self).follows(old(self)),
            r is Ok ==> final(self).current > old(self).current,
            (Parsed { out: expr_out(r), pos: final(self).position(), errs: final(self).diagnostics() })
                == spec_chain(old(self).tokens(), old(self).position(), old(self).diagnostics(), 1),
        decreases old(self).tokens@.len() - old(self).current, 11int, 2int,
    {
        self.chain(1)
    }

    fn factor(&mut self) -> (r: Result<Expr, LineError>)
        requires
            old(self).inv(),
        ensures
            final(self).follows(old(self)),
            r is Ok ==> final(self).current > old(self).current,
            (Parsed { out: expr_out(r), pos: final(self).position(), errs: final(self).diagnostics() })
                == spec_chain(old(self).tokens(), old(self).position(), old(self).diagnostics(), 0),
        decreases old(self).tokens@.len() - old(self).current, 10int, 2int,
    {
        self.chain(0)
    }

    /// Whether the token at the parser's place joins operands at `level`.
    fn at_operator(&self, level: u8) -> (r: bool)
        requires
            self.inv(),
            level <= 5,
        ensures
            r == joins(level as int, self.tokens@[self.current as int].typ),
    {
        let typ = self.tokens[self.current].typ;
        if level == 0 {
            typ == TokenType::Slash || typ == TokenType::Star
        } else if level == 1 {
            typ == TokenType::Minus || typ == TokenType::Plus
        } else if level == 2 {
            typ == TokenType::Less || typ == TokenType::LessEqual || typ == TokenType::Greater
                || typ == TokenType::GreaterEqual
        } else if level == 3 {
            typ == TokenType::BangEqual || typ == TokenType::EqualEqual
        } else if level == 4 {
            typ == TokenType::And
        } else {
            typ == TokenType::Or
        }
    }

    /// An operand of the operators at `level`.
    fn operand(&mut self, level: u8) -> (r: Result<Expr, LineError>)
        requires
            old(self).inv(),
            level <= 5,
        ensures
            final(self).follows(old(self)),
            r is Ok ==> final(self).current > old(self).current,
            (Parsed { out: expr_out(r), pos: final(self).position(), errs: final(self).diagnostics() })
                == spec_operand(
                old(self).tokens(),
                old(self).position(),
                old(self).diagnostics(),
                level as int,
            ),
        decreases old(self).tokens@.len() - old(self).current, 10 + level, 0int,
    {
        if level == 0 {
            self.unary()
        } else if level == 1 {
            self.factor()
        } else if level == 2 {
            self.term()
        } else if level == 3 {
            self.comparison()
        } else if level == 4 {
            self.equality()
        } else {
            self.and()
        }
    }

    /// A chain of operands joined by the operators at `level`.
    fn chain(&mut self, level: u8) -> (r: Result<Expr, LineError>)
        requires
            old(self).inv(),
            level <= 5,
        ensures
            final(self).follows(old(self)),
            r is Ok ==> final(self).current > old(self).current,
            (Parsed { out: expr_out(r), pos: final(self).position(), errs: final(self).diagnostics() })
                == spec_chain(
                old(self).tokens(),
                old(self).position(),
                old(self).diagnostics(),
                level as int,
            ),
        decreases old(self).tokens@.len() - old(self).current, 10 + level, 1int,
    {
        let ghost toks = self.tokens@;
        let ghost want = spec_chain(
            toks,
            self.current as int,
            line_errors_view(self.errs@),
            level as int,
        );
        let mut expr = match self.operand(level) {
            Ok(e) => e,
            Err(x) => {
                return Err(x);
            },
        };
        while self.at_operator(level)
            invariant
                self.follows(old(self)),
                self.current > old(self).current,
                level <= 5,
                toks == self.tokens@,
                want == spec_chain(
                    old(self).tokens(),
                    old(self).position(),
                    old(self).diagnostics(),
                    level as int,
                ),
                want == spec_chain_rest(
                    toks,
                    self.current as int,
                    line_errors_view(self.errs@),
                    level as int,
                    expr@,
                ),
            decreases self.tokens@.len() - self.current,
        {
            self.advance();
            let op = self.previous();
            let right = match self.operand(level) {
                Ok(e) => e,
                Err(x) => {
                    return Err(x);
                },
            };
            expr = if level >= 4 {
                Expr::logical(expr, op, right)
            } else {
                Expr::binary(expr, op, right)
            };
        }
        Ok(expr)
    }

    fn unary(&mut self) -> (r: Result<Expr, LineError>)
        requires
            old(self).inv(),
        ensures
            final(self).follows(old(self)),
            r is Ok ==> final(self).current > old(self).current,
            (Parsed { out: expr_out(r), pos: final(self).position(), errs: final(self).diagnostics() })
                == spec_unary(old(self).tokens(), old(self).position(), old(self).diagnostics()),
        decreases old(self).tokens@.len() - old(self).current, 9int, 0int,
    {
        if self.match_any(TokenType::Bang) || self.match_any(TokenType::Minus) {
            let op = self.previous();
            return match self.unary() {
                Ok(right) => Ok(Expr::unary(op, right)),
                Err(x) => Err(x),
            };
        }
        self.call()
    }

    fn call(&mut self) -> (r: Result<Expr, LineError>)
        requires
            old(self).inv(),
        ensures
            final(self).follows(old(self)),
            r is Ok ==> final(self).current > old(self).current,
            (Parsed { out: expr_out(r), pos: final(self).position(), errs: final(self).diagnostics() })
                == spec_call(old(self).tokens(), old(self).position(), old(self).diagnostics()),
        decreases old(self).tokens@.len() - old(self).current, 8int, 0int,
    {
        let ghost toks = self.tokens@;
        let ghost want = spec_call(toks, self.current as int, line_errors_view(self.errs@));
        let mut expr = match self.primary() {
            Ok(e) => e,
            Err(x) => {
                return Err(x);
            },
        };
        loop
            invariant
                self.follows(old(self)),
                self.current > old(self).current,
                toks == self.tokens@,
                want == spec_call(old(self).tokens(), old(self).position(), old(self).diagnostics()),
                want == spec_call_rest(
                    toks,
                    self.current as int,
                    line_errors_view(self.errs@),
                    expr@,
                ),
            decreases self.tokens@.len() - self.current,
        {
            if self.match_any(TokenType::LeftParen) {
                expr = match self.finish_call(expr) {
                    Ok(e) => e,
                    Err(x) => {
                        return Err(x);
                    },
                };
            } else if self.match_any(TokenType::Dot) {
                let name = match self.consume(TokenType::Identifier) {
                    Ok(t) => t,
                    Err(x) => {
                        return Err(x.context("expect property name after '.'"));
                    },
                };
                expr = Expr::Get(GetExpr { name, object: Box::new(expr) });
            } else {
                return Ok(expr);
            }
        }
    }

    fn finish_call(&mut self, callee: Expr) -> (r: Result<Expr, LineError>)
        requires
            old(self).inv(),
        ensures
            final(self).follows(old(self)),
            r is Ok ==> final(self).current > old(self).current,
            (Parsed { out: expr_out(r), pos: final(self).position(), errs: final(self).diagnostics() })
                == spec_finish_call(
                old(self).tokens(),
                old(self).position(),
                old(self).diagnostics(),
                callee@,
            ),
        decreases old(self).tokens@.len() - old(self).current, 26int, 0int,
    {
        let (args, over) = if self.check(TokenType::RightParen) {
            let none: Vec<Expr> = Vec::new();
            assert(exprs_view(none@) =~= Seq::empty());
            (none, None)
        } else {
            match self.args() {
                Ok(a) => a,
                Err(x) => {
                    return Err(x);
                },
            }
        };
        if let Some(token) = over {
            self.smol_error(LineError::TooManyArgs { token });
        }
        match self.consume(TokenType::RightParen) {
            Ok(paren) => Ok(Expr::Call(CallExpr { callee: Box::new(callee), paren, args })),
            Err(x) => Err(x),
        }
    }

    /// The methods of a class and the "}" behind them.
    fn methods(&mut self) -> (r: Result<Vec<Stmt>, LineError>)
        requires
            old(self).inv(),
        ensures
            final(self).follows(old(self)),
            r is Ok ==> final(self).current > old(self).current,
            (Parsed {
                out: stmts_out(r),
                pos: final(self).position(),
                errs: final(self).diagnostics(),
            }) == spec_methods(
                old(self).tokens(),
                old(self).position(),
                old(self).diagnostics(),
                Seq::empty(),
            ),
        decreases old(self).tokens@.len() - old(self).current, 25int, 1int,
    {
        let mut methods: Vec<Stmt> = Vec::new();
        let ghost toks = self.tokens@;
        let ghost want = spec_methods(
            toks,
            self.current as int,
            line_errors_view(self.errs@),
            Seq::empty(),
        );
        assert(stmts_view(methods@) =~= Seq::empty());
        while !self.check(TokenType::RightBrace) && !self.at_end()
            invariant
                self.follows(old(self)),
                toks == self.tokens@,
                want == spec_methods(
                    old(self).tokens(),
                    old(self).position(),
                    old(self).diagnostics(),
                    Seq::empty(),
                ),
                want == spec_methods(
                    toks,
                    self.current as int,
                    line_errors_view(self.errs@),
                    stmts_view(methods@),
                ),
            decreases self.tokens@.len() - self.current,
        {
            let ghost before = stmts_view(methods@);
            match self.function(FunctionKind::Method) {
                Ok(m) => {
                    methods.push(m);
                    assert(stmts_view(methods@) =~= before.push(m@));
                },
                Err(x) => {
                    return Err(x);
                },
            }
        }
        match self.consume(TokenType::RightBrace) {
            Ok(_) => Ok(methods),
            Err(x) => Err(x.context("expect '}' after class body")),
        }
    }

    /// The parameters of a function.
    fn params(&mut self) -> (r: Result<Vec<Token>, LineError>)
        requires
            old(self).inv(),
        ensures
            final(self).follows(old(self)),
            final(self).errs == old(self).errs,
            ({
                let want = spec_params(
                    old(self).tokens(),
                    old(self).position(),
                    old(self).diagnostics(),
                    Seq::empty(),
                );
                &&& want.pos == final(self).position()
                &&& want.errs == final(self).diagnostics()
                &&& match r {
                    Ok(p) => want.out == Ok::<Seq<Token>, LineErrorV>(p@),
                    Err(x) => want.out == Err::<Seq<Token>, LineErrorV>(x@),
                }
            }),
    {
        let mut params: Vec<Token> = Vec::new();
        let ghost toks = self.tokens@;
        let ghost errs = line_errors_view(self.errs@);
        let ghost want = spec_params(toks, self.current as int, errs, Seq::empty());
        let mut more = true;
        assert(params@ =~= Seq::empty());
        while more
            invariant
                self.follows(old(self)),
                toks == self.tokens@,
                errs == line_errors_view(self.errs@),
                self.errs == old(self).errs,
                want == spec_params(
                    old(self).tokens(),
                    old(self).position(),
                    old(self).diagnostics(),
                    Seq::empty(),
                ),
                more ==> want == spec_params(toks, self.current as int, errs, params@),
                !more ==> want == done(params@, self.current as int, errs),
            decreases self.tokens@.len() - self.current, if more { 1int } else { 0int },
        {
            match self.consume(TokenType::Identifier) {
                Ok(t) => {
                    params.push(t);
                },
                Err(x) => {
                    return Err(x);
                },
            }
            if !self.match_any(TokenType::Comma) {
                more = false;
            }
        }
        Ok(params)
    }

    /// The arguments of a call, and the token behind the argument that last
    /// brought their number to the limit, where one did.
    fn args(&mut self) -> (r: Result<(Vec<Expr>, Option<Token>), LineError>)
        requires
            old(self).inv(),
        ensures
            final(self).follows(old(self)),
            r is Ok ==> final(self).current > old(self).current,
            ({
                let want = spec_args(
                    old(self).tokens(),
                    old(self).position(),
                    old(self).diagnostics(),
                    Seq::empty(),
                    None,
                );
                &&& want.pos == final(self).position()
                &&& want.errs == final(self).diagnostics()
                &&& match r {
                    Ok((a, over)) => want.out == Ok::<(Seq<ExprV>, Option<Token>), LineErrorV>(
                        (exprs_view(a@), over),
                    ),
                    Err(x) => want.out == Err::<(Seq<ExprV>, Option<Token>), LineErrorV>(x@),
                }
            }),
        decreases old(self).tokens@.len() - old(self).current, 25int, 1int,
    {
        let mut args: Vec<Expr> = Vec::new();
        let mut over: Option<Token> = None;
        assert(exprs_view(args@) =~= Seq::empty());
        let ghost toks = self.tokens@;
        let ghost want = spec_args(
            toks,
            self.current as int,
            line_errors_view(self.errs@),
            Seq::empty(),
            None,
        );
        let mut more = true;
        while more
            invariant
                self.follows(old(self)),
                toks == self.tokens@,
                want == spec_args(
                    old(self).tokens(),
                    old(self).position(),
                    old(self).diagnostics(),
                    Seq::empty(),
                    None,
                ),
                more ==> want == spec_args(
                    toks,
                    self.current as int,
                    line_errors_view(self.errs@),
                    exprs_view(args@),
                    over,
                ),
                !more ==> want == done(
                    (exprs_view(args@), over),
                    self.current as int,
                    line_errors_view(self.errs@),
                ),
                !more ==> self.current > old(self).current,
            decreases self.tokens@.len() - self.current, if more { 1int } else { 0int },
        {
            let ghost before = exprs_view(args@);
            match self.expr() {
                Ok(e) => {
                    args.push(e);
                    assert(exprs_view(args@) =~= before.push(e@));
                },
                Err(x) => {
                    return Err(x);
                },
            }
            if args.len() >= MAX_ARGS {
                over = Some(self.peek());
            }
            if !self.match_any(TokenType::Comma) {
                more = false;
            }
        }
        Ok((args, over))
    }

    /// Records a diagnostic that does not stop the rule.
    fn smol_error(&mut self, err: LineError)
        requires
            old(self).inv(),
        ensures
            final(self).follows(old(self)),
            final(self).current == old(self).current,
            final(self).diagnostics() == old(self).diagnostics().push(err@),
    {
        self.errs.push(err);
        assert(line_errors_view(self.errs@) =~= line_errors_view(old(self).errs@).push(err@));
    }

    fn primary(&mut self) -> (r: Result<Expr, LineError>)
        requires
            old(self).inv(),
        ensures
            final(self).follows(old(self)),
            r is Ok ==> final(self).current > old(self).current,
            (Parsed { out: expr_out(r), pos: final(self).position(), errs: final(self).diagnostics() })
                == spec_primary(old(self).tokens(), old(self).position(), old(self).diagnostics()),
        decreases old(self).tokens@.len() - old(self).current, 7int, 0int,
    {
        if self.match_any(TokenType::False) {
            return Ok(Expr::literal(Value::Bool(false)));
        }
        if self.match_any(TokenType::True) {
            return Ok(Expr::literal(Value::Bool(true)));
        }
        if self.match_any(TokenType::Nil) {
            return Ok(Expr::literal(Value::Nil));
        }
        if self.match_any(TokenType::Number) || self.match_any(TokenType::String) {
            let prev = self.previous();
            let value = match prev.literal {
                Some(l) => Value::from_literal(l),
                None => Value::Nil,
            };
            return Ok(Expr::literal(value));
        }
        if self.match_any(TokenType::Identifier) {
            let name = self.previous();
            return Ok(Expr::Var(VarExpr { name }));
        }
        if self.match_any(TokenType::LeftParen) {
            let expr = match self.expr() {
                Ok(e) => e,
                Err(x) => {
                    return Err(x);
                },
            };
            return match self.consume(TokenType::RightParen) {
                Ok(_) => Ok(Expr::group(expr)),
                Err(x) => Err(x),
            };
        }
        Err(LineError::ExpectedExpr { line: self.tokens[self.current].line })
    }

    /// Passes over the token at the parser's place where it is of kind `typ`.
    fn match_any(&mut self, typ: TokenType) -> (r: bool)
        requires
            old(self).inv(),
            typ != TokenType::Eof,
        ensures
            final(self).follows(old(self)),
            final(self).errs == old(self).errs,
            r == kind_at(old(self).tokens@, old(self).current as int, typ),
            r ==> final(self).current == old(self).current + 1,
            !r ==> final(self).current == old(self).current,
    {
        if self.check(typ) {
            self.advance();
            return true;
        }
        false
    }

    /// Reads a token of kind `typ`.
    fn consume(&mut self, typ: TokenType) -> (r: Result<Token, LineError>)
        requires
            old(self).inv(),
            typ != TokenType::Eof,
        ensures
            final(self).follows(old(self)),
            final(self).errs == old(self).errs,
            r is Ok ==> final(self).current == old(self).current + 1,
            r is Err ==> final(self).current == old(self).current,
            (Parsed {
                out: token_out(r),
                pos: final(self).position(),
                errs: final(self).diagnostics(),
            }) == consume_spec(
                old(self).tokens(),
                old(self).position(),
                old(self).diagnostics(),
                typ,
            ),
    {
        if self.match_any(typ) {
            return Ok(self.previous());
        }
        Err(self.expected_typ_error(typ))
    }

    fn expected_typ_error(&self, typ: TokenType) -> (r: LineError)
        requires
            self.inv(),
        ensures
            r@ == expected_at(self.tokens@, self.current as int, typ),
    {
        LineError::Expected {
            expected: typ,
            actual: self.tokens[self.current].typ,
            line: self.tokens[self.current].line,
        }
    }

    fn check(&self, typ: TokenType) -> (r: bool)
        requires
            self.inv(),
        ensures
            r == kind_at(self.tokens@, self.current as int, typ),
    {
        self.tokens[self.current].typ == typ
    }

    fn previous(&self) -> (r: Token)
        requires
            self.inv(),
            self.current >= 1,
        ensures
            r == self.tokens@[self.current - 1],
    {
        self.token_at(self.current - 1)
    }

    fn peek(&self) -> (r: Token)
        requires
            self.inv(),
        ensures
            r == self.tokens@[self.current as int],
    {
        self.token_at(self.current)
    }

    fn token_at(&self, pos: usize) -> (r: Token)
        requires
            pos < self.tokens@.len(),
        ensures
            r == self.tokens@[pos as int],
    {
        self.tokens[pos].duplicate()
    }

    /// Passes over one token, unless the tokens end here.
    fn advance(&mut self)
        requires
            old(self).inv(),
        ensures
            final(self).follows(old(self)),
            final(self).errs == old(self).errs,
            ends_at(old(self).tokens@, old(self).current as int) ==> final(self).current == old(
                self,
            ).current,
            !ends_at(old(self).tokens@, old(self).current as int) ==> final(self).current == old(
                self,
            ).current + 1,
    {
        let n = self.tokens.len();
        if !self.at_end() {
            self.current = self.current + 1;
        }
    }

    fn at_end(&self) -> (r: bool)
        requires
            self.inv(),
        ensures
            r == ends_at(self.tokens@, self.current as int),
    {
        self.tokens[self.current].typ == TokenType::Eof
    }
}

} // verus!
