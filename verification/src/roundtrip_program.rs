use crate::expr::ExprV;
use crate::parser::{
    consume_spec, ends_at, for_loop, kind_at, moved, spec_block, spec_block_stmt,
    spec_class_decl, spec_condition, spec_decl, spec_expr, spec_expr_stmt,
    spec_expr_then_semicolon, spec_for_condition, spec_for_increment, spec_for_init,
    spec_for_stmt, spec_function, spec_if_stmt, spec_methods, spec_params, spec_print_stmt,
    spec_program, spec_return_stmt, spec_stmt, spec_var_decl, spec_while_stmt, sync_from,
    synchronize_spec, FunctionKind, LineErrorV, Parsed, Program, MAX_ARGS,
};
use crate::roundtrip::{
    ended, lemma_expr_alike, lemma_expr_prints, lemma_lies_append, lemma_lies_one, lies_at,
    literals_fit, mark, parallel, printed, reads_alike, same_shape, tokens_read_alike,
};
use crate::stmt::{FunctionV, StmtV};
use crate::token::{Token, TokenType};
use vstd::prelude::*;

verus! {

/// Whether two statements have the same structure: trees of one shape,
/// whose tokens read alike and whose literals are the same values.
pub open spec fn same_stmt(a: StmtV, b: StmtV) -> bool
    decreases a, 0int,
{
    match (a, b) {
        (StmtV::Expr { expr }, StmtV::Expr { expr: expr2 }) => same_shape(expr, expr2),
        (StmtV::Print { expr }, StmtV::Print { expr: expr2 }) => same_shape(expr, expr2),
        (
            StmtV::Var { name, initializer },
            StmtV::Var { name: name2, initializer: initializer2 },
        ) => reads_alike(name, name2) && same_optional(initializer, initializer2),
        (StmtV::Block { statements }, StmtV::Block { statements: statements2 }) => same_stmts(
            statements,
            statements2,
        ),
        (
            StmtV::If { condition, then_stmt, else_stmt },
            StmtV::If { condition: condition2, then_stmt: then2, else_stmt: else2 },
        ) => same_shape(condition, condition2) && same_stmt(*then_stmt, *then2) && match (
            else_stmt,
            else2,
        ) {
            (Some(x), Some(y)) => same_stmt(*x, *y),
            (None, None) => true,
            _ => false,
        },
        (StmtV::While { condition, body }, StmtV::While { condition: condition2, body: body2 }) =>
            same_shape(condition, condition2) && same_stmt(*body, *body2),
        (StmtV::Function { function }, StmtV::Function { function: function2 }) => same_function(
            function,
            function2,
        ),
        (StmtV::Return { keyword, value }, StmtV::Return { keyword: keyword2, value: value2 }) =>
            reads_alike(keyword, keyword2) && same_shape(value, value2),
        (StmtV::Class { name, methods }, StmtV::Class { name: name2, methods: methods2 }) =>
            reads_alike(name, name2) && same_stmts(methods, methods2),
        _ => false,
    }
}

/// Whether two expressions that may be absent have the same structure.
pub open spec fn same_optional(a: Option<ExprV>, b: Option<ExprV>) -> bool {
    match (a, b) {
        (Some(x), Some(y)) => same_shape(x, y),
        (None, None) => true,
        _ => false,
    }
}

/// Whether two declarations of functions have the same structure.
pub open spec fn same_function(a: FunctionV, b: FunctionV) -> bool
    decreases a, 1int,
{
    reads_alike(a.name, b.name) && tokens_read_alike(a.params, b.params) && same_stmts(
        a.body,
        b.body,
    )
}

/// Whether two sequences of statements have the same structure, one by one.
pub open spec fn same_stmts(a: Seq<StmtV>, b: Seq<StmtV>) -> bool
    decreases a, 0int,
{
    a.len() == b.len() && forall|i: int| 0 <= i < a.len() ==> same_stmt(#[trigger] a[i], b[i])
}

/// Whether two rules stopped at the same place and recorded as many
/// diagnostics, both with a statement, of the same structure, or both with
/// an error.
pub open spec fn parallel_stmt(a: Parsed<StmtV>, b: Parsed<StmtV>) -> bool {
    a.pos == b.pos && a.errs.len() == b.errs.len() && match (a.out, b.out) {
        (Ok(x), Ok(y)) => same_stmt(x, y),
        (Err(_), Err(_)) => true,
        _ => false,
    }
}

/// The same for rules that read statements.
pub open spec fn parallel_stmts(a: Parsed<Seq<StmtV>>, b: Parsed<Seq<StmtV>>) -> bool {
    a.pos == b.pos && a.errs.len() == b.errs.len() && match (a.out, b.out) {
        (Ok(x), Ok(y)) => same_stmts(x, y),
        (Err(_), Err(_)) => true,
        _ => false,
    }
}

/// The same for rules that read parameters.
pub open spec fn parallel_params(a: Parsed<Seq<Token>>, b: Parsed<Seq<Token>>) -> bool {
    a.pos == b.pos && a.errs.len() == b.errs.len() && match (a.out, b.out) {
        (Ok(x), Ok(y)) => tokens_read_alike(x, y),
        (Err(_), Err(_)) => true,
        _ => false,
    }
}

/// The same for the first clause of a `for`.
pub open spec fn parallel_init(a: Parsed<Option<StmtV>>, b: Parsed<Option<StmtV>>) -> bool {
    a.pos == b.pos && a.errs.len() == b.errs.len() && match (a.out, b.out) {
        (Ok(Some(x)), Ok(Some(y))) => same_stmt(x, y),
        (Ok(None), Ok(None)) => true,
        (Err(_), Err(_)) => true,
        _ => false,
    }
}

/// The same for the third clause of a `for`.
pub open spec fn parallel_increment(a: Parsed<Option<ExprV>>, b: Parsed<Option<ExprV>>) -> bool {
    a.pos == b.pos && a.errs.len() == b.errs.len() && match (a.out, b.out) {
        (Ok(x), Ok(y)) => same_optional(x, y),
        (Err(_), Err(_)) => true,
        _ => false,
    }
}

/// Whether two programs were both accepted, with statements of the same
/// structure, or both rejected.
pub open spec fn parallel_program(a: Program, b: Program) -> bool {
    match (a, b) {
        (Program::Accepted(x), Program::Accepted(y)) => same_stmts(x, y),
        (Program::Rejected, Program::Rejected) => true,
        _ => false,
    }
}

proof fn lemma_expr_then_semicolon_alike(
    a: Seq<Token>,
    b: Seq<Token>,
    pos: int,
    ea: Seq<LineErrorV>,
    eb: Seq<LineErrorV>,
)
    requires
        tokens_read_alike(a, b),
        ea.len() == eb.len(),
    ensures
        parallel(spec_expr_then_semicolon(a, pos, ea), spec_expr_then_semicolon(b, pos, eb)),
{
    lemma_expr_alike(a, b, pos, ea, eb);
    let ra = spec_expr(a, pos, ea);
    if ra.out is Ok && 0 <= ra.pos < a.len() {
        assert(reads_alike(a[ra.pos], b[ra.pos]));
    }
}

proof fn lemma_return_stmt_alike(
    a: Seq<Token>,
    b: Seq<Token>,
    pos: int,
    ea: Seq<LineErrorV>,
    eb: Seq<LineErrorV>,
)
    requires
        tokens_read_alike(a, b),
        ea.len() == eb.len(),
        1 <= pos <= a.len(),
    ensures
        parallel_stmt(spec_return_stmt(a, pos, ea), spec_return_stmt(b, pos, eb)),
{
    assert(reads_alike(a[pos - 1], b[pos - 1]));
    if pos < a.len() {
        assert(reads_alike(a[pos], b[pos]));
    }
    lemma_expr_then_semicolon_alike(a, b, pos, ea, eb);
}

proof fn lemma_var_decl_alike(
    a: Seq<Token>,
    b: Seq<Token>,
    pos: int,
    ea: Seq<LineErrorV>,
    eb: Seq<LineErrorV>,
)
    requires
        tokens_read_alike(a, b),
        ea.len() == eb.len(),
    ensures
        parallel_stmt(spec_var_decl(a, pos, ea), spec_var_decl(b, pos, eb)),
{
    if 0 <= pos < a.len() {
        assert(reads_alike(a[pos], b[pos]));
    }
    if 0 <= pos + 1 < a.len() {
        assert(reads_alike(a[pos + 1], b[pos + 1]));
    }
    lemma_expr_then_semicolon_alike(a, b, pos + 2, ea, eb);
}

proof fn lemma_condition_alike(
    a: Seq<Token>,
    b: Seq<Token>,
    pos: int,
    ea: Seq<LineErrorV>,
    eb: Seq<LineErrorV>,
)
    requires
        tokens_read_alike(a, b),
        ea.len() == eb.len(),
    ensures
        parallel(spec_condition(a, pos, ea), spec_condition(b, pos, eb)),
{
    if 0 <= pos < a.len() {
        assert(reads_alike(a[pos], b[pos]));
    }
    lemma_expr_alike(a, b, pos + 1, ea, eb);
    let ra = spec_expr(a, pos + 1, ea);
    if ra.out is Ok && 0 <= ra.pos < a.len() {
        assert(reads_alike(a[ra.pos], b[ra.pos]));
    }
}

proof fn lemma_while_stmt_alike(
    a: Seq<Token>,
    b: Seq<Token>,
    pos: int,
    ea: Seq<LineErrorV>,
    eb: Seq<LineErrorV>,
)
    requires
        tokens_read_alike(a, b),
        ea.len() == eb.len(),
    ensures
        parallel_stmt(spec_while_stmt(a, pos, ea), spec_while_stmt(b, pos, eb)),
    decreases a.len() - pos, 18int, 1int,
{
    lemma_condition_alike(a, b, pos, ea, eb);
    let ca = spec_condition(a, pos, ea);
    let cb = spec_condition(b, pos, eb);
    if ca.out is Ok && moved(a, pos, ca.pos) {
        lemma_stmt_alike(a, b, ca.pos, ca.errs, cb.errs);
    }
}

proof fn lemma_if_stmt_alike(
    a: Seq<Token>,
    b: Seq<Token>,
    pos: int,
    ea: Seq<LineErrorV>,
    eb: Seq<LineErrorV>,
)
    requires
        tokens_read_alike(a, b),
        ea.len() == eb.len(),
    ensures
        parallel_stmt(spec_if_stmt(a, pos, ea), spec_if_stmt(b, pos, eb)),
    decreases a.len() - pos, 18int, 1int,
{
    lemma_condition_alike(a, b, pos, ea, eb);
    let ca = spec_condition(a, pos, ea);
    let cb = spec_condition(b, pos, eb);
    if ca.out is Ok && moved(a, pos, ca.pos) {
        lemma_stmt_alike(a, b, ca.pos, ca.errs, cb.errs);
        let ta = spec_stmt(a, ca.pos, ca.errs);
        let tb = spec_stmt(b, cb.pos, cb.errs);
        if ta.out is Ok {
            if 0 <= ta.pos < a.len() {
                assert(reads_alike(a[ta.pos], b[ta.pos]));
            }
            if kind_at(a, ta.pos, TokenType::Else) && moved(a, pos, ta.pos + 1) {
                lemma_stmt_alike(a, b, ta.pos + 1, ta.errs, tb.errs);
            }
        }
    }
}

proof fn lemma_for_init_alike(
    a: Seq<Token>,
    b: Seq<Token>,
    pos: int,
    ea: Seq<LineErrorV>,
    eb: Seq<LineErrorV>,
)
    requires
        tokens_read_alike(a, b),
        ea.len() == eb.len(),
    ensures
        parallel_init(spec_for_init(a, pos, ea), spec_for_init(b, pos, eb)),
{
    if 0 <= pos < a.len() {
        assert(reads_alike(a[pos], b[pos]));
    }
    if !kind_at(a, pos, TokenType::Semicolon) {
        if kind_at(a, pos, TokenType::Var) {
            lemma_var_decl_alike(a, b, pos + 1, ea, eb);
        } else {
            lemma_expr_then_semicolon_alike(a, b, pos, ea, eb);
        }
    }
}

proof fn lemma_for_condition_alike(
    a: Seq<Token>,
    b: Seq<Token>,
    pos: int,
    ea: Seq<LineErrorV>,
    eb: Seq<LineErrorV>,
)
    requires
        tokens_read_alike(a, b),
        ea.len() == eb.len(),
    ensures
        parallel(spec_for_condition(a, pos, ea), spec_for_condition(b, pos, eb)),
{
    if 0 <= pos < a.len() {
        assert(reads_alike(a[pos], b[pos]));
    }
    lemma_expr_then_semicolon_alike(a, b, pos, ea, eb);
}

proof fn lemma_for_increment_alike(
    a: Seq<Token>,
    b: Seq<Token>,
    pos: int,
    ea: Seq<LineErrorV>,
    eb: Seq<LineErrorV>,
)
    requires
        tokens_read_alike(a, b),
        ea.len() == eb.len(),
    ensures
        parallel_increment(spec_for_increment(a, pos, ea), spec_for_increment(b, pos, eb)),
{
    if 0 <= pos < a.len() {
        assert(reads_alike(a[pos], b[pos]));
    }
    lemma_expr_alike(a, b, pos, ea, eb);
    let ra = spec_expr(a, pos, ea);
    if ra.out is Ok && 0 <= ra.pos < a.len() {
        assert(reads_alike(a[ra.pos], b[ra.pos]));
    }
}

/// A `for` loop is written out with the same structure for parts of the
/// same structure.
proof fn lemma_for_loop_alike(
    ia: Option<StmtV>,
    ib: Option<StmtV>,
    ca: ExprV,
    cb: ExprV,
    na: Option<ExprV>,
    nb: Option<ExprV>,
    ba: StmtV,
    bb: StmtV,
)
    requires
        match (ia, ib) {
            (Some(x), Some(y)) => same_stmt(x, y),
            (None, None) => true,
            _ => false,
        },
        same_shape(ca, cb),
        same_optional(na, nb),
        same_stmt(ba, bb),
    ensures
        same_stmt(for_loop(ia, ca, na, ba), for_loop(ib, cb, nb, bb)),
{
    let inner_a = match na {
        Some(e) => StmtV::Block { statements: seq![ba, StmtV::Expr { expr: e }] },
        None => ba,
    };
    let inner_b = match nb {
        Some(e) => StmtV::Block { statements: seq![bb, StmtV::Expr { expr: e }] },
        None => bb,
    };
    if na is Some {
        let x = seq![ba, StmtV::Expr { expr: na->Some_0 }];
        let y = seq![bb, StmtV::Expr { expr: nb->Some_0 }];
        assert(same_stmts(x, y)) by {
            assert forall|i: int| 0 <= i < x.len() implies same_stmt(#[trigger] x[i], y[i]) by {
                if i == 0 {
                } else {
                    assert(i == 1);
                }
            }
        }
    }
    assert(same_stmt(inner_a, inner_b));
    let la = StmtV::While { condition: ca, body: Box::new(inner_a) };
    let lb = StmtV::While { condition: cb, body: Box::new(inner_b) };
    assert(same_stmt(la, lb));
    if ia is Some {
        let x = seq![ia->Some_0, la];
        let y = seq![ib->Some_0, lb];
        assert(same_stmts(x, y)) by {
            assert forall|i: int| 0 <= i < x.len() implies same_stmt(#[trigger] x[i], y[i]) by {
                if i == 0 {
                } else {
                    assert(i == 1);
                }
            }
        }
    }
}

proof fn lemma_for_stmt_alike(
    a: Seq<Token>,
    b: Seq<Token>,
    pos: int,
    ea: Seq<LineErrorV>,
    eb: Seq<LineErrorV>,
)
    requires
        tokens_read_alike(a, b),
        ea.len() == eb.len(),
    ensures
        parallel_stmt(spec_for_stmt(a, pos, ea), spec_for_stmt(b, pos, eb)),
    decreases a.len() - pos, 19int, 1int,
{
    if 0 <= pos < a.len() {
        assert(reads_alike(a[pos], b[pos]));
    }
    let oa = consume_spec(a, pos, ea, TokenType::LeftParen);
    let ob = consume_spec(b, pos, eb, TokenType::LeftParen);
    if oa.out is Ok {
        lemma_for_init_alike(a, b, oa.pos, oa.errs, ob.errs);
        let ia = spec_for_init(a, oa.pos, oa.errs);
        let ib = spec_for_init(b, ob.pos, ob.errs);
        if ia.out is Ok && moved(a, pos, ia.pos) {
            lemma_for_condition_alike(a, b, ia.pos, ia.errs, ib.errs);
            let ca = spec_for_condition(a, ia.pos, ia.errs);
            let cb = spec_for_condition(b, ib.pos, ib.errs);
            if ca.out is Ok && moved(a, pos, ca.pos) {
                lemma_for_increment_alike(a, b, ca.pos, ca.errs, cb.errs);
                let na = spec_for_increment(a, ca.pos, ca.errs);
                let nb = spec_for_increment(b, cb.pos, cb.errs);
                if na.out is Ok && moved(a, pos, na.pos) {
                    lemma_stmt_alike(a, b, na.pos, na.errs, nb.errs);
                    let ba = spec_stmt(a, na.pos, na.errs);
                    let bb = spec_stmt(b, nb.pos, nb.errs);
                    if ba.out is Ok {
                        lemma_for_loop_alike(
                            ia.out->Ok_0,
                            ib.out->Ok_0,
                            ca.out->Ok_0,
                            cb.out->Ok_0,
                            na.out->Ok_0,
                            nb.out->Ok_0,
                            ba.out->Ok_0,
                            bb.out->Ok_0,
                        );
                    }
                }
            }
        }
    }
}

proof fn lemma_block_alike(
    a: Seq<Token>,
    b: Seq<Token>,
    pos: int,
    ea: Seq<LineErrorV>,
    eb: Seq<LineErrorV>,
    xs: Seq<StmtV>,
    ys: Seq<StmtV>,
)
    requires
        tokens_read_alike(a, b),
        ea.len() == eb.len(),
        same_stmts(xs, ys),
    ensures
        parallel_stmts(spec_block(a, pos, ea, xs), spec_block(b, pos, eb, ys)),
    decreases a.len() - pos, 30int, 0int,
{
    if 0 <= pos < a.len() {
        assert(reads_alike(a[pos], b[pos]));
    }
    if !kind_at(a, pos, TokenType::RightBrace) && !ends_at(a, pos) {
        lemma_decl_alike(a, b, pos, ea, eb);
        let ra = spec_decl(a, pos, ea);
        let rb = spec_decl(b, pos, eb);
        if ra.out is Ok && moved(a, pos, ra.pos) {
            let xs2 = xs.push(ra.out->Ok_0);
            let ys2 = ys.push(rb.out->Ok_0);
            assert(same_stmts(xs2, ys2));
            lemma_block_alike(a, b, ra.pos, ra.errs, rb.errs, xs2, ys2);
        }
    }
}

/// From tokens that read alike, statements of the same structure are
/// read.
pub proof fn lemma_stmt_alike(
    a: Seq<Token>,
    b: Seq<Token>,
    pos: int,
    ea: Seq<LineErrorV>,
    eb: Seq<LineErrorV>,
)
    requires
        tokens_read_alike(a, b),
        ea.len() == eb.len(),
    ensures
        parallel_stmt(spec_stmt(a, pos, ea), spec_stmt(b, pos, eb)),
    decreases a.len() - pos, 23int, 0int,
{
    if 0 <= pos < a.len() {
        assert(reads_alike(a[pos], b[pos]));
    }
    if kind_at(a, pos, TokenType::If) {
        lemma_if_stmt_alike(a, b, pos + 1, ea, eb);
    } else if kind_at(a, pos, TokenType::Print) {
        lemma_expr_then_semicolon_alike(a, b, pos + 1, ea, eb);
    } else if kind_at(a, pos, TokenType::Return) {
        lemma_return_stmt_alike(a, b, pos + 1, ea, eb);
    } else if kind_at(a, pos, TokenType::While) {
        lemma_while_stmt_alike(a, b, pos + 1, ea, eb);
    } else if kind_at(a, pos, TokenType::For) {
        lemma_for_stmt_alike(a, b, pos + 1, ea, eb);
    } else if kind_at(a, pos, TokenType::LeftBrace) {
        lemma_block_alike(a, b, pos + 1, ea, eb, Seq::empty(), Seq::empty());
        assert(spec_block_stmt(a, pos + 1, ea).pos == spec_block(a, pos + 1, ea, Seq::empty()).pos);
    } else {
        lemma_expr_then_semicolon_alike(a, b, pos, ea, eb);
    }
}

proof fn lemma_params_alike(
    a: Seq<Token>,
    b: Seq<Token>,
    pos: int,
    ea: Seq<LineErrorV>,
    eb: Seq<LineErrorV>,
    xs: Seq<Token>,
    ys: Seq<Token>,
)
    requires
        tokens_read_alike(a, b),
        ea.len() == eb.len(),
        tokens_read_alike(xs, ys),
    ensures
        parallel_params(spec_params(a, pos, ea, xs), spec_params(b, pos, eb, ys)),
    decreases a.len() - pos,
{
    if 0 <= pos < a.len() {
        assert(reads_alike(a[pos], b[pos]));
    }
    if 0 <= pos + 1 < a.len() {
        assert(reads_alike(a[pos + 1], b[pos + 1]));
    }
    if kind_at(a, pos, TokenType::Identifier) {
        let xs2 = xs.push(a[pos]);
        let ys2 = ys.push(b[pos]);
        assert(tokens_read_alike(xs2, ys2));
        if kind_at(a, pos + 1, TokenType::Comma) {
            lemma_params_alike(a, b, pos + 2, ea, eb, xs2, ys2);
        }
    }
}

proof fn lemma_function_alike(
    a: Seq<Token>,
    b: Seq<Token>,
    pos: int,
    ea: Seq<LineErrorV>,
    eb: Seq<LineErrorV>,
    kind: FunctionKind,
)
    requires
        tokens_read_alike(a, b),
        ea.len() == eb.len(),
    ensures
        parallel_stmt(spec_function(a, pos, ea, kind), spec_function(b, pos, eb, kind)),
    decreases a.len() - pos, 24int, 0int,
{
    if 0 <= pos < a.len() {
        assert(reads_alike(a[pos], b[pos]));
    }
    if 0 <= pos + 1 < a.len() {
        assert(reads_alike(a[pos + 1], b[pos + 1]));
    }
    if 0 <= pos + 2 < a.len() {
        assert(reads_alike(a[pos + 2], b[pos + 2]));
    }
    let fa = spec_function(a, pos, ea, kind);
    let fb = spec_function(b, pos, eb, kind);
    let na = consume_spec(a, pos, ea, TokenType::Identifier);
    let nb = consume_spec(b, pos, eb, TokenType::Identifier);
    if na.out is Err {
        assert(nb.out is Err);
        assert(parallel_stmt(fa, fb));
    } else {
        let oa = consume_spec(a, na.pos, ea, TokenType::LeftParen);
        let ob = consume_spec(b, nb.pos, eb, TokenType::LeftParen);
        if oa.out is Err {
            assert(ob.out is Err);
            assert(parallel_stmt(fa, fb));
        } else {
            if !kind_at(a, oa.pos, TokenType::RightParen) {
                lemma_params_alike(a, b, oa.pos, ea, eb, Seq::empty(), Seq::empty());
            }
            let pa = if kind_at(a, oa.pos, TokenType::RightParen) {
                crate::parser::done(Seq::<Token>::empty(), oa.pos, ea)
            } else {
                spec_params(a, oa.pos, ea, Seq::empty())
            };
            let pb = if kind_at(b, ob.pos, TokenType::RightParen) {
                crate::parser::done(Seq::<Token>::empty(), ob.pos, eb)
            } else {
                spec_params(b, ob.pos, eb, Seq::empty())
            };
            assert(parallel_params(pa, pb));
            if pa.out is Err {
                assert(parallel_stmt(fa, fb));
            } else {
                let params_a = pa.out->Ok_0;
                let params_b = pb.out->Ok_0;
                assert(tokens_read_alike(params_a, params_b));
                if 0 <= pa.pos < a.len() {
                    assert(reads_alike(a[pa.pos], b[pa.pos]));
                }
                if 0 <= pa.pos + 1 < a.len() {
                    assert(reads_alike(a[pa.pos + 1], b[pa.pos + 1]));
                }
                let ea2 = if params_a.len() >= MAX_ARGS {
                    ea.push(LineErrorV::TooManyParams { token: a[pa.pos] })
                } else {
                    ea
                };
                let eb2 = if params_b.len() >= MAX_ARGS {
                    eb.push(LineErrorV::TooManyParams { token: b[pb.pos] })
                } else {
                    eb
                };
                assert(ea2.len() == eb2.len());
                let ca = consume_spec(a, pa.pos, ea2, TokenType::RightParen);
                let cb = consume_spec(b, pb.pos, eb2, TokenType::RightParen);
                if ca.out is Err {
                    assert(cb.out is Err);
                    assert(parallel_stmt(fa, fb));
                } else {
                    let ba = consume_spec(a, ca.pos, ea2, TokenType::LeftBrace);
                    let bb = consume_spec(b, cb.pos, eb2, TokenType::LeftBrace);
                    if ba.out is Err {
                        assert(bb.out is Err);
                        assert(parallel_stmt(fa, fb));
                    } else if !moved(a, pos, ba.pos) {
                        assert(parallel_stmt(fa, fb));
                    } else {
                        lemma_block_alike(a, b, ba.pos, ea2, eb2, Seq::empty(), Seq::empty());
                        let ra = spec_block(a, ba.pos, ea2, Seq::empty());
                        let rb = spec_block(b, bb.pos, eb2, Seq::empty());
                        assert(parallel_stmts(ra, rb));
                        if ra.out is Ok {
                            let da = FunctionV {
                                name: na.out->Ok_0,
                                params: params_a,
                                body: ra.out->Ok_0,
                            };
                            let db = FunctionV {
                                name: nb.out->Ok_0,
                                params: params_b,
                                body: rb.out->Ok_0,
                            };
                            assert(same_function(da, db));
                            assert(fa.out == Ok::<StmtV, LineErrorV>(
                                StmtV::Function { function: da },
                            ));
                            assert(fb.out == Ok::<StmtV, LineErrorV>(
                                StmtV::Function { function: db },
                            ));
                        }
                        assert(parallel_stmt(fa, fb));
                    }
                }
            }
        }
    }
}

proof fn lemma_methods_alike(
    a: Seq<Token>,
    b: Seq<Token>,
    pos: int,
    ea: Seq<LineErrorV>,
    eb: Seq<LineErrorV>,
    xs: Seq<StmtV>,
    ys: Seq<StmtV>,
)
    requires
        tokens_read_alike(a, b),
        ea.len() == eb.len(),
        same_stmts(xs, ys),
    ensures
        parallel_stmts(spec_methods(a, pos, ea, xs), spec_methods(b, pos, eb, ys)),
    decreases a.len() - pos, 25int, 0int,
{
    if 0 <= pos < a.len() {
        assert(reads_alike(a[pos], b[pos]));
    }
    if !kind_at(a, pos, TokenType::RightBrace) && !ends_at(a, pos) {
        lemma_function_alike(a, b, pos, ea, eb, FunctionKind::Method);
        let ra = spec_function(a, pos, ea, FunctionKind::Method);
        let rb = spec_function(b, pos, eb, FunctionKind::Method);
        if ra.out is Ok && moved(a, pos, ra.pos) {
            let xs2 = xs.push(ra.out->Ok_0);
            let ys2 = ys.push(rb.out->Ok_0);
            assert(same_stmts(xs2, ys2));
            lemma_methods_alike(a, b, ra.pos, ra.errs, rb.errs, xs2, ys2);
        }
    }
}

proof fn lemma_class_decl_alike(
    a: Seq<Token>,
    b: Seq<Token>,
    pos: int,
    ea: Seq<LineErrorV>,
    eb: Seq<LineErrorV>,
)
    requires
        tokens_read_alike(a, b),
        ea.len() == eb.len(),
    ensures
        parallel_stmt(spec_class_decl(a, pos, ea), spec_class_decl(b, pos, eb)),
    decreases a.len() - pos, 26int, 0int,
{
    if 0 <= pos < a.len() {
        assert(reads_alike(a[pos], b[pos]));
    }
    if 0 <= pos + 1 < a.len() {
        assert(reads_alike(a[pos + 1], b[pos + 1]));
    }
    if kind_at(a, pos, TokenType::Identifier) && kind_at(a, pos + 1, TokenType::LeftBrace) {
        lemma_methods_alike(a, b, pos + 2, ea, eb, Seq::empty(), Seq::empty());
    }
}

/// From tokens that read alike, declarations of the same structure are
/// read.
pub proof fn lemma_decl_alike(
    a: Seq<Token>,
    b: Seq<Token>,
    pos: int,
    ea: Seq<LineErrorV>,
    eb: Seq<LineErrorV>,
)
    requires
        tokens_read_alike(a, b),
        ea.len() == eb.len(),
    ensures
        parallel_stmt(spec_decl(a, pos, ea), spec_decl(b, pos, eb)),
    decreases a.len() - pos, 27int, 0int,
{
    if 0 <= pos < a.len() {
        assert(reads_alike(a[pos], b[pos]));
    }
    if kind_at(a, pos, TokenType::Fun) {
        lemma_function_alike(a, b, pos + 1, ea, eb, FunctionKind::Function);
    } else if kind_at(a, pos, TokenType::Var) {
        lemma_var_decl_alike(a, b, pos + 1, ea, eb);
    } else if kind_at(a, pos, TokenType::Class) {
        lemma_class_decl_alike(a, b, pos + 1, ea, eb);
    } else {
        lemma_stmt_alike(a, b, pos, ea, eb);
    }
}

/// Parsing takes up again at the same place behind an error in tokens
/// that read alike.
proof fn lemma_sync_alike(a: Seq<Token>, b: Seq<Token>, pos: int)
    requires
        tokens_read_alike(a, b),
    ensures
        sync_from(a, pos) == sync_from(b, pos),
    decreases a.len() - pos,
{
    if 1 <= pos < a.len() {
        assert(reads_alike(a[pos], b[pos]));
        assert(reads_alike(a[pos - 1], b[pos - 1]));
        if !ends_at(a, pos) && a[pos - 1].typ != TokenType::Semicolon
            && !crate::parser::starts_statement(a[pos].typ) {
            lemma_sync_alike(a, b, pos + 1);
        }
    }
}

/// From tokens that read alike, programs of the same structure are read:
/// where the one sequence is accepted, the other is, with statements of the
/// same shape, names and values; and where the one is rejected, the other
/// is.
pub proof fn lemma_program_alike(
    a: Seq<Token>,
    b: Seq<Token>,
    pos: int,
    ea: Seq<LineErrorV>,
    eb: Seq<LineErrorV>,
    xs: Seq<StmtV>,
    ys: Seq<StmtV>,
    failed: bool,
)
    requires
        tokens_read_alike(a, b),
        ea.len() == eb.len(),
        same_stmts(xs, ys),
    ensures
        parallel_program(
            spec_program(a, pos, ea, xs, failed),
            spec_program(b, pos, eb, ys, failed),
        ),
    decreases a.len() - pos,
{
    if 0 <= pos < a.len() {
        assert(reads_alike(a[pos], b[pos]));
    }
    if !(pos < 0 || pos >= a.len() || ends_at(a, pos)) {
        lemma_decl_alike(a, b, pos, ea, eb);
        let ra = spec_decl(a, pos, ea);
        let rb = spec_decl(b, pos, eb);
        if ra.out is Ok {
            if moved(a, pos, ra.pos) {
                let xs2 = if failed {
                    xs
                } else {
                    xs.push(ra.out->Ok_0)
                };
                let ys2 = if failed {
                    ys
                } else {
                    ys.push(rb.out->Ok_0)
                };
                assert(same_stmts(xs2, ys2));
                lemma_program_alike(a, b, ra.pos, ra.errs, rb.errs, xs2, ys2, failed);
            }
        } else {
            if 0 <= ra.pos < a.len() {
                assert(reads_alike(a[ra.pos], b[ra.pos]));
            }
            lemma_sync_alike(a, b, ra.pos + 1);
            let next = synchronize_spec(a, ra.pos);
            if moved(a, pos, next) {
                lemma_program_alike(a, b, next, ra.errs, rb.errs, xs, ys, true);
            }
        }
    }
}

/// Whether the tokens hold no `for`, and no `return` without a value: what
/// a tree does not keep as it was written.
pub open spec fn plainly_written(toks: Seq<Token>) -> bool {
    forall|i: int| 0 <= i < toks.len() ==> #[trigger] plain_at(toks, i)
}

/// Whether the token at `i` is no `for`, and no `return` with a ";"
/// behind it.
pub open spec fn plain_at(toks: Seq<Token>, i: int) -> bool {
    &&& toks[i].typ != TokenType::For
    &&& toks[i].typ == TokenType::Return && i + 1 < toks.len() ==> toks[i + 1].typ
        != TokenType::Semicolon
}

/// A statement printed as tokens.
pub open spec fn printed_stmt(s: StmtV) -> Seq<Token>
    decreases s, 0int,
{
    match s {
        StmtV::Expr { expr } => printed(expr) + seq![mark(TokenType::Semicolon)],
        StmtV::Print { expr } => seq![mark(TokenType::Print)] + (printed(expr) + seq![
            mark(TokenType::Semicolon),
        ]),
        StmtV::Var { name, initializer } => match initializer {
            Some(e) => seq![mark(TokenType::Var), name, mark(TokenType::Equal)] + (printed(e)
                + seq![mark(TokenType::Semicolon)]),
            None => seq![mark(TokenType::Var), name, mark(TokenType::Semicolon)],
        },
        StmtV::Block { statements } => seq![mark(TokenType::LeftBrace)] + (printed_stmts(
            statements,
            statements.len() as int,
        ) + seq![mark(TokenType::RightBrace)]),
        StmtV::If { condition, then_stmt, else_stmt } => {
            let head = seq![mark(TokenType::If)] + printed_condition(condition) + printed_stmt(
                *then_stmt,
            );
            match else_stmt {
                Some(other) => head + seq![mark(TokenType::Else)] + printed_stmt(*other),
                None => head,
            }
        },
        StmtV::While { condition, body } => seq![mark(TokenType::While)] + printed_condition(
            condition,
        ) + printed_stmt(*body),
        StmtV::Function { function } => seq![mark(TokenType::Fun)] + printed_function(function),
        StmtV::Return { keyword, value } => seq![keyword] + (printed(value) + seq![
            mark(TokenType::Semicolon),
        ]),
        StmtV::Class { name, methods } => seq![
            mark(TokenType::Class),
            name,
            mark(TokenType::LeftBrace),
        ] + (printed_methods(methods, methods.len() as int) + seq![mark(TokenType::RightBrace)]),
    }
}

/// A condition printed as tokens: between parentheses.
pub open spec fn printed_condition(e: ExprV) -> Seq<Token> {
    seq![mark(TokenType::LeftParen)] + printed(e) + seq![mark(TokenType::RightParen)]
}

/// The first `n` of the statements printed as tokens.
pub open spec fn printed_stmts(ss: Seq<StmtV>, n: int) -> Seq<Token>
    decreases ss, n,
{
    if n <= 0 || n > ss.len() {
        Seq::empty()
    } else {
        printed_stmts(ss, n - 1) + printed_stmt(ss[n - 1])
    }
}

/// The first `n` of the methods of a class printed as tokens.
pub open spec fn printed_methods(ms: Seq<StmtV>, n: int) -> Seq<Token>
    decreases ms, n,
{
    if n <= 0 || n > ms.len() {
        Seq::empty()
    } else {
        printed_methods(ms, n - 1) + match ms[n - 1] {
            StmtV::Function { function } => printed_function(function),
            _ => Seq::empty(),
        }
    }
}

/// The first `n` of the parameters printed as tokens, with commas between
/// them.
pub open spec fn printed_params(ps: Seq<Token>, n: int) -> Seq<Token>
    decreases n,
{
    if n <= 0 || n > ps.len() {
        Seq::empty()
    } else if n == 1 {
        seq![ps[0]]
    } else {
        printed_params(ps, n - 1) + seq![mark(TokenType::Comma), ps[n - 1]]
    }
}

/// The declaration of a function printed as tokens, from its name on.
pub open spec fn printed_function(f: FunctionV) -> Seq<Token>
    decreases f, 1int,
{
    seq![f.name, mark(TokenType::LeftParen)] + printed_params(f.params, f.params.len() as int)
        + seq![mark(TokenType::RightParen), mark(TokenType::LeftBrace)] + (printed_stmts(
        f.body,
        f.body.len() as int,
    ) + seq![mark(TokenType::RightBrace)])
}

/// Whether the statement that a rule read, where it read one, prints as
/// what the parser reads from the tokens from `start` on that it was read
/// from, and the rule stopped before the end of the tokens.
pub open spec fn stmt_prints_back(toks: Seq<Token>, start: int, r: Parsed<StmtV>) -> bool {
    r.out is Ok ==> lies_at(printed_stmt(r.out->Ok_0), toks, start) && start + printed_stmt(
        r.out->Ok_0,
    ).len() == r.pos && r.pos < toks.len()
}

/// Printing the first statements of a list does not depend on what follows
/// them in the list.
proof fn lemma_stmts_keep(xs: Seq<StmtV>, s: StmtV, n: int)
    requires
        0 <= n <= xs.len(),
    ensures
        printed_stmts(xs.push(s), n) == printed_stmts(xs, n),
        printed_methods(xs.push(s), n) == printed_methods(xs, n),
    decreases n,
{
    if n >= 1 {
        lemma_stmts_keep(xs, s, n - 1);
        assert(xs.push(s)[n - 1] == xs[n - 1]);
    }
}

/// Printing the first parameters of a list does not depend on what follows
/// them in the list.
proof fn lemma_params_keep(xs: Seq<Token>, t: Token, n: int)
    requires
        0 <= n <= xs.len(),
    ensures
        printed_params(xs.push(t), n) == printed_params(xs, n),
    decreases n,
{
    if n > 1 {
        lemma_params_keep(xs, t, n - 1);
        assert(xs.push(t)[n - 1] == xs[n - 1]);
    } else if n == 1 {
        assert(xs.push(t)[0] == xs[0]);
    }
}

/// An expression and the ";" behind it print as the tokens they were read
/// from.
proof fn lemma_expr_then_semicolon_prints(toks: Seq<Token>, pos: int, errs: Seq<LineErrorV>)
    requires
        literals_fit(toks),
        ended(toks),
    ensures
        ({
            let r = spec_expr_then_semicolon(toks, pos, errs);
            r.out is Ok ==> lies_at(
                printed(r.out->Ok_0) + seq![mark(TokenType::Semicolon)],
                toks,
                pos,
            ) && pos + printed(r.out->Ok_0).len() + 1 == r.pos && r.pos < toks.len()
        }),
{
    lemma_expr_prints(toks, pos, errs);
    let r = spec_expr(toks, pos, errs);
    if r.out is Ok && kind_at(toks, r.pos, TokenType::Semicolon) {
        lemma_lies_one(mark(TokenType::Semicolon), toks, r.pos);
        lemma_lies_append(printed(r.out->Ok_0), seq![mark(TokenType::Semicolon)], toks, pos);
    }
}

proof fn lemma_print_stmt_prints(toks: Seq<Token>, pos: int, errs: Seq<LineErrorV>)
    requires
        literals_fit(toks),
        ended(toks),
        kind_at(toks, pos - 1, TokenType::Print),
    ensures
        stmt_prints_back(toks, pos - 1, spec_print_stmt(toks, pos, errs)),
{
    lemma_expr_then_semicolon_prints(toks, pos, errs);
    let r = spec_expr_then_semicolon(toks, pos, errs);
    if r.out is Ok {
        lemma_lies_one(mark(TokenType::Print), toks, pos - 1);
        lemma_lies_append(
            seq![mark(TokenType::Print)],
            printed(r.out->Ok_0) + seq![mark(TokenType::Semicolon)],
            toks,
            pos - 1,
        );
    }
}

proof fn lemma_return_stmt_prints(toks: Seq<Token>, pos: int, errs: Seq<LineErrorV>)
    requires
        literals_fit(toks),
        ended(toks),
        kind_at(toks, pos - 1, TokenType::Return),
        !kind_at(toks, pos, TokenType::Semicolon),
    ensures
        stmt_prints_back(toks, pos - 1, spec_return_stmt(toks, pos, errs)),
{
    lemma_expr_then_semicolon_prints(toks, pos, errs);
    let r = spec_expr_then_semicolon(toks, pos, errs);
    if r.out is Ok {
        lemma_lies_one(toks[pos - 1], toks, pos - 1);
        lemma_lies_append(
            seq![toks[pos - 1]],
            printed(r.out->Ok_0) + seq![mark(TokenType::Semicolon)],
            toks,
            pos - 1,
        );
    }
}

proof fn lemma_var_decl_prints(toks: Seq<Token>, pos: int, errs: Seq<LineErrorV>)
    requires
        literals_fit(toks),
        ended(toks),
        kind_at(toks, pos - 1, TokenType::Var),
    ensures
        stmt_prints_back(toks, pos - 1, spec_var_decl(toks, pos, errs)),
{
    let r = spec_var_decl(toks, pos, errs);
    if r.out is Ok {
        let name = toks[pos];
        lemma_lies_one(mark(TokenType::Var), toks, pos - 1);
        lemma_lies_one(name, toks, pos);
        lemma_lies_append(seq![mark(TokenType::Var)], seq![name], toks, pos - 1);
        assert(seq![mark(TokenType::Var)] + seq![name] =~= seq![mark(TokenType::Var), name]);
        if kind_at(toks, pos + 1, TokenType::Equal) {
            lemma_expr_then_semicolon_prints(toks, pos + 2, errs);
            let e = spec_expr_then_semicolon(toks, pos + 2, errs);
            lemma_lies_one(mark(TokenType::Equal), toks, pos + 1);
            lemma_lies_append(
                seq![mark(TokenType::Var), name],
                seq![mark(TokenType::Equal)],
                toks,
                pos - 1,
            );
            assert(seq![mark(TokenType::Var), name] + seq![mark(TokenType::Equal)] =~= seq![
                mark(TokenType::Var),
                name,
                mark(TokenType::Equal),
            ]);
            lemma_lies_append(
                seq![mark(TokenType::Var), name, mark(TokenType::Equal)],
                printed(e.out->Ok_0) + seq![mark(TokenType::Semicolon)],
                toks,
                pos - 1,
            );
        } else {
            lemma_lies_one(mark(TokenType::Semicolon), toks, pos + 1);
            lemma_lies_append(
                seq![mark(TokenType::Var), name],
                seq![mark(TokenType::Semicolon)],
                toks,
                pos - 1,
            );
            assert(seq![mark(TokenType::Var), name] + seq![mark(TokenType::Semicolon)] =~= seq![
                mark(TokenType::Var),
                name,
                mark(TokenType::Semicolon),
            ]);
        }
    }
}

proof fn lemma_condition_prints(toks: Seq<Token>, pos: int, errs: Seq<LineErrorV>)
    requires
        literals_fit(toks),
        ended(toks),
    ensures
        ({
            let r = spec_condition(toks, pos, errs);
            r.out is Ok ==> lies_at(printed_condition(r.out->Ok_0), toks, pos) && pos
                + printed_condition(r.out->Ok_0).len() == r.pos && r.pos < toks.len()
        }),
{
    let r = spec_condition(toks, pos, errs);
    if r.out is Ok {
        lemma_expr_prints(toks, pos + 1, errs);
        let e = spec_expr(toks, pos + 1, errs);
        lemma_lies_one(mark(TokenType::LeftParen), toks, pos);
        lemma_lies_append(seq![mark(TokenType::LeftParen)], printed(e.out->Ok_0), toks, pos);
        lemma_lies_one(mark(TokenType::RightParen), toks, e.pos);
        lemma_lies_append(
            seq![mark(TokenType::LeftParen)] + printed(e.out->Ok_0),
            seq![mark(TokenType::RightParen)],
            toks,
            pos,
        );
    }
}

proof fn lemma_while_stmt_prints(toks: Seq<Token>, pos: int, errs: Seq<LineErrorV>)
    requires
        literals_fit(toks),
        ended(toks),
        plainly_written(toks),
        kind_at(toks, pos - 1, TokenType::While),
    ensures
        stmt_prints_back(toks, pos - 1, spec_while_stmt(toks, pos, errs)),
    decreases toks.len() - pos, 18int, 1int,
{
    let r = spec_while_stmt(toks, pos, errs);
    if r.out is Ok {
        lemma_condition_prints(toks, pos, errs);
        let c = spec_condition(toks, pos, errs);
        lemma_stmt_prints(toks, c.pos, c.errs);
        let b = spec_stmt(toks, c.pos, c.errs);
        let head = seq![mark(TokenType::While)] + printed_condition(c.out->Ok_0);
        lemma_lies_one(mark(TokenType::While), toks, pos - 1);
        lemma_lies_append(
            seq![mark(TokenType::While)],
            printed_condition(c.out->Ok_0),
            toks,
            pos - 1,
        );
        lemma_lies_append(head, printed_stmt(b.out->Ok_0), toks, pos - 1);
    }
}

proof fn lemma_if_stmt_prints(toks: Seq<Token>, pos: int, errs: Seq<LineErrorV>)
    requires
        literals_fit(toks),
        ended(toks),
        plainly_written(toks),
        kind_at(toks, pos - 1, TokenType::If),
    ensures
        stmt_prints_back(toks, pos - 1, spec_if_stmt(toks, pos, errs)),
    decreases toks.len() - pos, 18int, 1int,
{
    let r = spec_if_stmt(toks, pos, errs);
    if r.out is Ok {
        lemma_condition_prints(toks, pos, errs);
        let c = spec_condition(toks, pos, errs);
        lemma_stmt_prints(toks, c.pos, c.errs);
        let t = spec_stmt(toks, c.pos, c.errs);
        let head = seq![mark(TokenType::If)] + printed_condition(c.out->Ok_0) + printed_stmt(
            t.out->Ok_0,
        );
        lemma_lies_one(mark(TokenType::If), toks, pos - 1);
        lemma_lies_append(
            seq![mark(TokenType::If)],
            printed_condition(c.out->Ok_0),
            toks,
            pos - 1,
        );
        lemma_lies_append(
            seq![mark(TokenType::If)] + printed_condition(c.out->Ok_0),
            printed_stmt(t.out->Ok_0),
            toks,
            pos - 1,
        );
        if kind_at(toks, t.pos, TokenType::Else) && moved(toks, pos, t.pos + 1) {
            lemma_stmt_prints(toks, t.pos + 1, t.errs);
            let e = spec_stmt(toks, t.pos + 1, t.errs);
            lemma_lies_one(mark(TokenType::Else), toks, t.pos);
            lemma_lies_append(head, seq![mark(TokenType::Else)], toks, pos - 1);
            lemma_lies_append(
                head + seq![mark(TokenType::Else)],
                printed_stmt(e.out->Ok_0),
                toks,
                pos - 1,
            );
        }
    }
}

/// The statements of a block that are read print, with the "}" behind
/// them, as the tokens they were read from.
proof fn lemma_block_prints(
    toks: Seq<Token>,
    pos: int,
    errs: Seq<LineErrorV>,
    xs: Seq<StmtV>,
    start: int,
)
    requires
        literals_fit(toks),
        ended(toks),
        plainly_written(toks),
        lies_at(printed_stmts(xs, xs.len() as int), toks, start),
        start + printed_stmts(xs, xs.len() as int).len() == pos,
        pos < toks.len(),
    ensures
        ({
            let r = spec_block(toks, pos, errs, xs);
            r.out is Ok ==> lies_at(
                printed_stmts(r.out->Ok_0, r.out->Ok_0.len() as int) + seq![
                    mark(TokenType::RightBrace),
                ],
                toks,
                start,
            ) && start + printed_stmts(r.out->Ok_0, r.out->Ok_0.len() as int).len() + 1 == r.pos
                && r.pos < toks.len()
        }),
    decreases toks.len() - pos, 30int, 0int,
{
    let r = spec_block(toks, pos, errs, xs);
    if r.out is Ok {
        if !kind_at(toks, pos, TokenType::RightBrace) && !ends_at(toks, pos) {
            lemma_decl_prints(toks, pos, errs);
            let d = spec_decl(toks, pos, errs);
            let s = d.out->Ok_0;
            let ys = xs.push(s);
            lemma_stmts_keep(xs, s, xs.len() as int);
            assert(printed_stmts(ys, ys.len() as int) == printed_stmts(xs, xs.len() as int)
                + printed_stmt(s));
            lemma_lies_append(printed_stmts(xs, xs.len() as int), printed_stmt(s), toks, start);
            lemma_block_prints(toks, d.pos, d.errs, ys, start);
        } else {
            lemma_lies_one(mark(TokenType::RightBrace), toks, pos);
            lemma_lies_append(
                printed_stmts(xs, xs.len() as int),
                seq![mark(TokenType::RightBrace)],
                toks,
                start,
            );
        }
    }
}

/// The statement that is read prints as the tokens it was read from.
pub proof fn lemma_stmt_prints(toks: Seq<Token>, pos: int, errs: Seq<LineErrorV>)
    requires
        literals_fit(toks),
        ended(toks),
        plainly_written(toks),
    ensures
        stmt_prints_back(toks, pos, spec_stmt(toks, pos, errs)),
    decreases toks.len() - pos, 23int, 0int,
{
    let r = spec_stmt(toks, pos, errs);
    if r.out is Ok {
        if 0 <= pos < toks.len() {
            assert(plain_at(toks, pos));
        }
        if kind_at(toks, pos, TokenType::If) {
            lemma_if_stmt_prints(toks, pos + 1, errs);
        } else if kind_at(toks, pos, TokenType::Print) {
            lemma_print_stmt_prints(toks, pos + 1, errs);
        } else if kind_at(toks, pos, TokenType::Return) {
            lemma_return_stmt_prints(toks, pos + 1, errs);
        } else if kind_at(toks, pos, TokenType::While) {
            lemma_while_stmt_prints(toks, pos + 1, errs);
        } else if kind_at(toks, pos, TokenType::For) {
        } else if kind_at(toks, pos, TokenType::LeftBrace) {
            let none = Seq::<StmtV>::empty();
            assert(printed_stmts(none, 0) =~= Seq::<Token>::empty());
            lemma_block_prints(toks, pos + 1, errs, none, pos + 1);
            let b = spec_block(toks, pos + 1, errs, none);
            let body = printed_stmts(b.out->Ok_0, b.out->Ok_0.len() as int) + seq![
                mark(TokenType::RightBrace),
            ];
            lemma_lies_one(mark(TokenType::LeftBrace), toks, pos);
            lemma_lies_append(seq![mark(TokenType::LeftBrace)], body, toks, pos);
        } else {
            lemma_expr_then_semicolon_prints(toks, pos, errs);
        }
    }
}

/// The parameters that are read print as the tokens they were read from.
proof fn lemma_params_prints(
    toks: Seq<Token>,
    pos: int,
    errs: Seq<LineErrorV>,
    xs: Seq<Token>,
    start: int,
)
    requires
        ended(toks),
        0 <= start <= pos,
        xs.len() == 0 ==> pos == start,
        xs.len() > 0 ==> lies_at(printed_params(xs, xs.len() as int), toks, start) && kind_at(
            toks,
            pos - 1,
            TokenType::Comma,
        ) && pos == start + printed_params(xs, xs.len() as int).len() + 1,
    ensures
        ({
            let r = spec_params(toks, pos, errs, xs);
            r.out is Ok ==> {
                let ys = r.out->Ok_0;
                &&& lies_at(printed_params(ys, ys.len() as int), toks, start)
                &&& start + printed_params(ys, ys.len() as int).len() == r.pos
                &&& r.pos < toks.len()
                &&& r.errs == errs
            }
        }),
    decreases toks.len() - pos,
{
    let r = spec_params(toks, pos, errs, xs);
    if r.out is Ok {
        let name = toks[pos];
        let ys = xs.push(name);
        lemma_params_keep(xs, name, xs.len() as int);
        lemma_lies_one(name, toks, pos);
        if xs.len() == 0 {
            assert(printed_params(ys, 1) =~= seq![name]);
        } else {
            let before = printed_params(xs, xs.len() as int);
            assert(printed_params(ys, ys.len() as int) == before + seq![
                mark(TokenType::Comma),
                name,
            ]);
            lemma_lies_one(mark(TokenType::Comma), toks, pos - 1);
            lemma_lies_append(seq![mark(TokenType::Comma)], seq![name], toks, pos - 1);
            assert(seq![mark(TokenType::Comma)] + seq![name] =~= seq![
                mark(TokenType::Comma),
                name,
            ]);
            lemma_lies_append(before, seq![mark(TokenType::Comma), name], toks, start);
        }
        if kind_at(toks, pos + 1, TokenType::Comma) {
            lemma_params_prints(toks, pos + 2, errs, ys, start);
        }
    }
}

/// The declaration of a function that is read prints, from its name on, as
/// the tokens it was read from.
proof fn lemma_function_prints(
    toks: Seq<Token>,
    pos: int,
    errs: Seq<LineErrorV>,
    kind: FunctionKind,
)
    requires
        literals_fit(toks),
        ended(toks),
        plainly_written(toks),
        0 <= pos,
    ensures
        ({
            let r = spec_function(toks, pos, errs, kind);
            r.out is Ok ==> r.out->Ok_0 is Function && lies_at(
                printed_function(r.out->Ok_0->Function_function),
                toks,
                pos,
            ) && pos + printed_function(r.out->Ok_0->Function_function).len() == r.pos && r.pos
                < toks.len()
        }),
    decreases toks.len() - pos, 24int, 0int,
{
    let r = spec_function(toks, pos, errs, kind);
    if r.out is Ok {
        let name = toks[pos];
        let head = seq![name, mark(TokenType::LeftParen)];
        lemma_lies_one(name, toks, pos);
        lemma_lies_one(mark(TokenType::LeftParen), toks, pos + 1);
        lemma_lies_append(seq![name], seq![mark(TokenType::LeftParen)], toks, pos);
        assert(seq![name] + seq![mark(TokenType::LeftParen)] =~= head);
        let none = Seq::<Token>::empty();
        if !kind_at(toks, pos + 2, TokenType::RightParen) {
            lemma_params_prints(toks, pos + 2, errs, none, pos + 2);
        } else {
            assert(printed_params(none, 0) =~= Seq::<Token>::empty());
        }
        let p = if kind_at(toks, pos + 2, TokenType::RightParen) {
            crate::parser::done(none, pos + 2, errs)
        } else {
            spec_params(toks, pos + 2, errs, none)
        };
        let params = p.out->Ok_0;
        let list = printed_params(params, params.len() as int);
        lemma_lies_append(head, list, toks, pos);
        let errs2 = if params.len() >= MAX_ARGS {
            errs.push(LineErrorV::TooManyParams { token: toks[p.pos] })
        } else {
            errs
        };
        let close = seq![mark(TokenType::RightParen), mark(TokenType::LeftBrace)];
        lemma_lies_one(mark(TokenType::RightParen), toks, p.pos);
        lemma_lies_one(mark(TokenType::LeftBrace), toks, p.pos + 1);
        lemma_lies_append(
            seq![mark(TokenType::RightParen)],
            seq![mark(TokenType::LeftBrace)],
            toks,
            p.pos,
        );
        assert(seq![mark(TokenType::RightParen)] + seq![mark(TokenType::LeftBrace)] =~= close);
        lemma_lies_append(head + list, close, toks, pos);
        let empty = Seq::<StmtV>::empty();
        assert(printed_stmts(empty, 0) =~= Seq::<Token>::empty());
        lemma_block_prints(toks, p.pos + 2, errs2, empty, p.pos + 2);
        let b = spec_block(toks, p.pos + 2, errs2, empty);
        let body = printed_stmts(b.out->Ok_0, b.out->Ok_0.len() as int) + seq![
            mark(TokenType::RightBrace),
        ];
        lemma_lies_append(head + list + close, body, toks, pos);
    }
}

/// The methods of a class that are read print, with the "}" behind them,
/// as the tokens they were read from.
proof fn lemma_methods_prints(
    toks: Seq<Token>,
    pos: int,
    errs: Seq<LineErrorV>,
    xs: Seq<StmtV>,
    start: int,
)
    requires
        literals_fit(toks),
        ended(toks),
        plainly_written(toks),
        lies_at(printed_methods(xs, xs.len() as int), toks, start),
        start + printed_methods(xs, xs.len() as int).len() == pos,
        pos < toks.len(),
    ensures
        ({
            let r = spec_methods(toks, pos, errs, xs);
            r.out is Ok ==> lies_at(
                printed_methods(r.out->Ok_0, r.out->Ok_0.len() as int) + seq![
                    mark(TokenType::RightBrace),
                ],
                toks,
                start,
            ) && start + printed_methods(r.out->Ok_0, r.out->Ok_0.len() as int).len() + 1
                == r.pos && r.pos < toks.len()
        }),
    decreases toks.len() - pos, 25int, 0int,
{
    let r = spec_methods(toks, pos, errs, xs);
    if r.out is Ok {
        if !kind_at(toks, pos, TokenType::RightBrace) && !ends_at(toks, pos) {
            lemma_function_prints(toks, pos, errs, FunctionKind::Method);
            let d = spec_function(toks, pos, errs, FunctionKind::Method);
            let m = d.out->Ok_0;
            let ys = xs.push(m);
            lemma_stmts_keep(xs, m, xs.len() as int);
            assert(printed_methods(ys, ys.len() as int) == printed_methods(xs, xs.len() as int)
                + printed_function(m->Function_function));
            lemma_lies_append(
                printed_methods(xs, xs.len() as int),
                printed_function(m->Function_function),
                toks,
                start,
            );
            lemma_methods_prints(toks, d.pos, d.errs, ys, start);
        } else {
            lemma_lies_one(mark(TokenType::RightBrace), toks, pos);
            lemma_lies_append(
                printed_methods(xs, xs.len() as int),
                seq![mark(TokenType::RightBrace)],
                toks,
                start,
            );
        }
    }
}

proof fn lemma_class_decl_prints(toks: Seq<Token>, pos: int, errs: Seq<LineErrorV>)
    requires
        literals_fit(toks),
        ended(toks),
        plainly_written(toks),
        kind_at(toks, pos - 1, TokenType::Class),
    ensures
        stmt_prints_back(toks, pos - 1, spec_class_decl(toks, pos, errs)),
    decreases toks.len() - pos, 26int, 0int,
{
    let r = spec_class_decl(toks, pos, errs);
    if r.out is Ok {
        let name = toks[pos];
        let head = seq![mark(TokenType::Class), name, mark(TokenType::LeftBrace)];
        lemma_lies_one(mark(TokenType::Class), toks, pos - 1);
        lemma_lies_one(name, toks, pos);
        lemma_lies_one(mark(TokenType::LeftBrace), toks, pos + 1);
        lemma_lies_append(seq![mark(TokenType::Class)], seq![name], toks, pos - 1);
        lemma_lies_append(
            seq![mark(TokenType::Class)] + seq![name],
            seq![mark(TokenType::LeftBrace)],
            toks,
            pos - 1,
        );
        assert(seq![mark(TokenType::Class)] + seq![name] + seq![mark(TokenType::LeftBrace)]
            =~= head);
        let none = Seq::<StmtV>::empty();
        assert(printed_methods(none, 0) =~= Seq::<Token>::empty());
        lemma_methods_prints(toks, pos + 2, errs, none, pos + 2);
        let m = spec_methods(toks, pos + 2, errs, none);
        let body = printed_methods(m.out->Ok_0, m.out->Ok_0.len() as int) + seq![
            mark(TokenType::RightBrace),
        ];
        lemma_lies_append(head, body, toks, pos - 1);
    }
}

/// The declaration that is read prints as the tokens it was read from.
pub proof fn lemma_decl_prints(toks: Seq<Token>, pos: int, errs: Seq<LineErrorV>)
    requires
        literals_fit(toks),
        ended(toks),
        plainly_written(toks),
    ensures
        stmt_prints_back(toks, pos, spec_decl(toks, pos, errs)),
    decreases toks.len() - pos, 27int, 0int,
{
    let r = spec_decl(toks, pos, errs);
    if r.out is Ok {
        if kind_at(toks, pos, TokenType::Fun) {
            lemma_function_prints(toks, pos + 1, errs, FunctionKind::Function);
            let f = spec_function(toks, pos + 1, errs, FunctionKind::Function);
            lemma_lies_one(mark(TokenType::Fun), toks, pos);
            lemma_lies_append(
                seq![mark(TokenType::Fun)],
                printed_function(f.out->Ok_0->Function_function),
                toks,
                pos,
            );
        } else if kind_at(toks, pos, TokenType::Var) {
            lemma_var_decl_prints(toks, pos + 1, errs);
        } else if kind_at(toks, pos, TokenType::Class) {
            lemma_class_decl_prints(toks, pos + 1, errs);
        } else {
            lemma_stmt_prints(toks, pos, errs);
        }
    }
}

/// The statements of a program that is accepted print as the tokens they
/// were read from, up to the end of the text.
pub proof fn lemma_program_prints(
    toks: Seq<Token>,
    pos: int,
    errs: Seq<LineErrorV>,
    xs: Seq<StmtV>,
)
    requires
        literals_fit(toks),
        ended(toks),
        plainly_written(toks),
        lies_at(printed_stmts(xs, xs.len() as int), toks, 0),
        printed_stmts(xs, xs.len() as int).len() == pos,
        pos < toks.len(),
    ensures
        ({
            let r = spec_program(toks, pos, errs, xs, false);
            r is Accepted ==> {
                let ss = r->Accepted_0;
                &&& lies_at(printed_stmts(ss, ss.len() as int), toks, 0)
                &&& ends_at(toks, printed_stmts(ss, ss.len() as int).len() as int)
            }
        }),
    decreases toks.len() - pos,
{
    let r = spec_program(toks, pos, errs, xs, false);
    if r is Accepted && !ends_at(toks, pos) {
        lemma_decl_prints(toks, pos, errs);
        let d = spec_decl(toks, pos, errs);
        if d.out is Ok {
            let s = d.out->Ok_0;
            let ys = xs.push(s);
            lemma_stmts_keep(xs, s, xs.len() as int);
            assert(printed_stmts(ys, ys.len() as int) == printed_stmts(xs, xs.len() as int)
                + printed_stmt(s));
            lemma_lies_append(printed_stmts(xs, xs.len() as int), printed_stmt(s), toks, 0);
            lemma_program_prints(toks, d.pos, d.errs, ys);
        } else {
            lemma_rejected_stays(toks, synchronize_spec(toks, d.pos), d.errs, xs);
        }
    }
}

/// A program with a syntax error is rejected, whatever follows the error.
proof fn lemma_rejected_stays(
    toks: Seq<Token>,
    pos: int,
    errs: Seq<LineErrorV>,
    xs: Seq<StmtV>,
)
    ensures
        spec_program(toks, pos, errs, xs, true) is Rejected,
    decreases toks.len() - pos,
{
    if !(pos < 0 || pos >= toks.len() || ends_at(toks, pos)) {
        let d = spec_decl(toks, pos, errs);
        if d.out is Ok {
            if moved(toks, pos, d.pos) {
                lemma_rejected_stays(toks, d.pos, d.errs, xs);
            }
        } else {
            let next = synchronize_spec(toks, d.pos);
            if moved(toks, pos, next) {
                lemma_rejected_stays(toks, next, d.errs, xs);
            }
        }
    }
}

/// A program that the parser accepts is read again from what is printed of
/// its statements, with the same structure.
///
/// The tokens are those of a text: they end with the end of the text, and
/// hold it nowhere else. They hold no `for` and no `return` without a
/// value, which a tree does not keep as they were written. Printing the
/// statements that are read from them, and putting an end behind them,
/// gives tokens that are accepted too, as statements of the same shape, with
/// the same kinds of tokens, the same names and the same values.
pub proof fn lemma_program_round_trip(toks: Seq<Token>)
    requires
        literals_fit(toks),
        ended(toks),
        forall|i: int| 0 <= i < toks.len() - 1 ==> (#[trigger] toks[i]).typ != TokenType::Eof,
        plainly_written(toks),
        spec_program(toks, 0, Seq::empty(), Seq::empty(), false) is Accepted,
    ensures
        ({
            let program = spec_program(toks, 0, Seq::empty(), Seq::empty(), false)->Accepted_0;
            let written = printed_stmts(program, program.len() as int).push(mark(TokenType::Eof));
            let again = spec_program(written, 0, Seq::empty(), Seq::empty(), false);
            &&& again is Accepted
            &&& same_stmts(again->Accepted_0, program)
        }),
{
    let none = Seq::<StmtV>::empty();
    let no_errors = Seq::<LineErrorV>::empty();
    assert(printed_stmts(none, 0) =~= Seq::<Token>::empty());
    lemma_program_prints(toks, 0, no_errors, none);
    let program = spec_program(toks, 0, no_errors, none, false)->Accepted_0;
    let text = printed_stmts(program, program.len() as int);
    let written = text.push(mark(TokenType::Eof));
    assert(text.len() == toks.len() - 1);
    assert(tokens_read_alike(written, toks)) by {
        assert forall|i: int| 0 <= i < written.len() implies reads_alike(
            #[trigger] written[i],
            toks[i],
        ) by {
            if i < text.len() {
                assert(written[i] == text[i]);
                assert(reads_alike(text[i], toks[0 + i]));
            }
        }
    }
    assert(same_stmts(none, none));
    lemma_program_alike(written, toks, 0, no_errors, no_errors, none, none, false);
}

/// A program in a text that the scanner and the parser accept is read again
/// from what is printed of its statements, with the same structure, where
/// the text holds no `for` and no `return` without a value.
pub proof fn lemma_text_round_trip(src: Seq<char>, toks: Seq<Token>)
    requires
        crate::lox::scanned(src, toks),
        plainly_written(toks),
        spec_program(toks, 0, Seq::empty(), Seq::empty(), false) is Accepted,
    ensures
        ({
            let program = spec_program(toks, 0, Seq::empty(), Seq::empty(), false)->Accepted_0;
            let written = printed_stmts(program, program.len() as int).push(mark(TokenType::Eof));
            let again = spec_program(written, 0, Seq::empty(), Seq::empty(), false);
            &&& again is Accepted
            &&& same_stmts(again->Accepted_0, program)
        }),
{
    crate::scanner::lemma_scan_ends_with_eof(src);
    crate::scanner::lemma_scan_has_one_eof(src);
    let specs = crate::scanner::token_specs(toks);
    assert(specs.len() == toks.len());
    assert(specs[toks.len() - 1].typ == toks[toks.len() - 1].typ);
    assert forall|i: int| 0 <= i < toks.len() - 1 implies (#[trigger] toks[i]).typ
        != TokenType::Eof by {
        assert(specs[i].typ == toks[i].typ);
    }
    assert(literals_fit(toks)) by {
        assert forall|i: int| 0 <= i < toks.len() implies {
            &&& (#[trigger] toks[i]).typ == TokenType::Number ==> toks[i].literal is Some
                && toks[i].literal->0 is Number
            &&& toks[i].typ == TokenType::String ==> toks[i].literal is Some
                && toks[i].literal->0 is String
        } by {
            assert(crate::scanner::literal_fits(toks[i]));
        }
    }
    lemma_program_round_trip(toks);
}

} // verus!
