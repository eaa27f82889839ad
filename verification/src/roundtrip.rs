use crate::expr::ExprV;
use crate::parser::{
    consume_spec, ends_at, joined_expr, joins, kind_at, moved, spec_args, spec_assignment,
    spec_call, spec_call_rest, spec_chain, spec_chain_rest, spec_expr, spec_finish_call,
    spec_operand, spec_primary, spec_unary, token_value, LineErrorV, Parsed, MAX_ARGS,
};
use crate::token::{Literal, Token, TokenType};
use crate::value::Value;
use vstd::prelude::*;

verus! {

/// Whether the parser reads the same from two tokens: they are of one kind,
/// identifiers spell the same name, and literals stand for the same value.
/// Where a token stands and how an operator is written is not read.
pub open spec fn reads_alike(a: Token, b: Token) -> bool {
    &&& a.typ == b.typ
    &&& a.typ == TokenType::Identifier ==> a.lexeme@ == b.lexeme@
    &&& a.typ == TokenType::Number || a.typ == TokenType::String ==> token_value(a)
        == token_value(b)
}

/// Whether the parser reads the same from two sequences of tokens, token
/// by token.
pub open spec fn tokens_read_alike(a: Seq<Token>, b: Seq<Token>) -> bool {
    a.len() == b.len() && forall|i: int| 0 <= i < a.len() ==> reads_alike(#[trigger] a[i], b[i])
}

/// Whether two expressions have the same structure: trees of one shape,
/// whose tokens read alike and whose literals are the same values.
pub open spec fn same_shape(a: ExprV, b: ExprV) -> bool
    decreases a,
{
    match (a, b) {
        (
            ExprV::Binary { left, op, right },
            ExprV::Binary { left: left2, op: op2, right: right2 },
        ) => same_shape(*left, *left2) && reads_alike(op, op2) && same_shape(*right, *right2),
        (
            ExprV::Logical { left, op, right },
            ExprV::Logical { left: left2, op: op2, right: right2 },
        ) => same_shape(*left, *left2) && reads_alike(op, op2) && same_shape(*right, *right2),
        (ExprV::Literal { value }, ExprV::Literal { value: value2 }) => value == value2,
        (ExprV::Unary { op, right }, ExprV::Unary { op: op2, right: right2 }) => reads_alike(
            op,
            op2,
        ) && same_shape(*right, *right2),
        (ExprV::Group { expr }, ExprV::Group { expr: expr2 }) => same_shape(*expr, *expr2),
        (ExprV::Var { name }, ExprV::Var { name: name2 }) => reads_alike(name, name2),
        (ExprV::Assign { name, value }, ExprV::Assign { name: name2, value: value2 }) =>
            reads_alike(name, name2) && same_shape(*value, *value2),
        (
            ExprV::Call { callee, paren, args },
            ExprV::Call { callee: callee2, paren: paren2, args: args2 },
        ) => same_shape(*callee, *callee2) && reads_alike(paren, paren2) && same_shapes(args, args2),
        (ExprV::Get { object, name }, ExprV::Get { object: object2, name: name2 }) => same_shape(
            *object,
            *object2,
        ) && reads_alike(name, name2),
        (
            ExprV::SetProperty { object, name, value },
            ExprV::SetProperty { object: object2, name: name2, value: value2 },
        ) => same_shape(*object, *object2) && reads_alike(name, name2) && same_shape(
            *value,
            *value2,
        ),
        _ => false,
    }
}

/// Whether two sequences of expressions have the same structure, one by
/// one.
pub open spec fn same_shapes(a: Seq<ExprV>, b: Seq<ExprV>) -> bool
    decreases a,
{
    a.len() == b.len() && forall|i: int| 0 <= i < a.len() ==> same_shape(#[trigger] a[i], b[i])
}

/// Whether two rules stopped at the same place and recorded as many
/// diagnostics, both with a tree, of the same structure, or both with an
/// error.
pub open spec fn parallel(a: Parsed<ExprV>, b: Parsed<ExprV>) -> bool {
    a.pos == b.pos && a.errs.len() == b.errs.len() && match (a.out, b.out) {
        (Ok(x), Ok(y)) => same_shape(x, y),
        (Err(_), Err(_)) => true,
        _ => false,
    }
}

/// Whether two rules for arguments stopped at the same place, both with
/// arguments of the same structure, or both with an error.
pub open spec fn parallel_args(
    a: Parsed<(Seq<ExprV>, Option<Token>)>,
    b: Parsed<(Seq<ExprV>, Option<Token>)>,
) -> bool {
    a.pos == b.pos && a.errs.len() == b.errs.len() && match (a.out, b.out) {
        (Ok(x), Ok(y)) => same_shapes(x.0, y.0) && (x.1 is Some == y.1 is Some),
        (Err(_), Err(_)) => true,
        _ => false,
    }
}

/// From tokens that read alike, `primary` reads trees of the same
/// structure.
pub proof fn lemma_primary_alike(
    a: Seq<Token>,
    b: Seq<Token>,
    pos: int,
    ea: Seq<LineErrorV>,
    eb: Seq<LineErrorV>,
)
    requires
        tokens_read_alike(a, b),
        ea.len() == eb.len(),
    ensures
        parallel(spec_primary(a, pos, ea), spec_primary(b, pos, eb)),
    decreases a.len() - pos, 7int, 0int,
{
    if kind_at(a, pos, TokenType::LeftParen) {
        lemma_expr_alike(a, b, pos + 1, ea, eb);
    }
}

/// From tokens that read alike, the arguments of a call are read with the
/// same structure.
pub proof fn lemma_args_alike(
    a: Seq<Token>,
    b: Seq<Token>,
    pos: int,
    ea: Seq<LineErrorV>,
    eb: Seq<LineErrorV>,
    xs: Seq<ExprV>,
    ys: Seq<ExprV>,
    oa: Option<Token>,
    ob: Option<Token>,
)
    requires
        tokens_read_alike(a, b),
        ea.len() == eb.len(),
        same_shapes(xs, ys),
        oa is Some == ob is Some,
    ensures
        parallel_args(spec_args(a, pos, ea, xs, oa), spec_args(b, pos, eb, ys, ob)),
    decreases a.len() - pos, 25int, 0int,
{
    lemma_expr_alike(a, b, pos, ea, eb);
    let ra = spec_expr(a, pos, ea);
    let rb = spec_expr(b, pos, eb);
    if ra.out is Ok {
        let xs2 = xs.push(ra.out->Ok_0);
        let ys2 = ys.push(rb.out->Ok_0);
        assert(same_shapes(xs2, ys2));
        if kind_at(a, ra.pos, TokenType::Comma) && moved(a, pos, ra.pos + 1) {
            let oa2 = if xs2.len() >= MAX_ARGS {
                Some(a[ra.pos])
            } else {
                oa
            };
            let ob2 = if ys2.len() >= MAX_ARGS {
                Some(b[rb.pos])
            } else {
                ob
            };
            lemma_args_alike(a, b, ra.pos + 1, ra.errs, rb.errs, xs2, ys2, oa2, ob2);
        }
    }
}

/// From tokens that read alike, the rest of a call is read with the same
/// structure.
pub proof fn lemma_finish_call_alike(
    a: Seq<Token>,
    b: Seq<Token>,
    pos: int,
    ea: Seq<LineErrorV>,
    eb: Seq<LineErrorV>,
    x: ExprV,
    y: ExprV,
)
    requires
        tokens_read_alike(a, b),
        ea.len() == eb.len(),
        same_shape(x, y),
    ensures
        parallel(spec_finish_call(a, pos, ea, x), spec_finish_call(b, pos, eb, y)),
    decreases a.len() - pos, 26int, 0int,
{
    if !kind_at(a, pos, TokenType::RightParen) {
        lemma_args_alike(a, b, pos, ea, eb, Seq::empty(), Seq::empty(), None, None);
        let ra = spec_args(a, pos, ea, Seq::empty(), None);
        if ra.out is Ok && 0 <= ra.pos < a.len() {
            assert(reads_alike(a[ra.pos], b[ra.pos]));
        }
    } else {
        assert(reads_alike(a[pos], b[pos]));
        assert(same_shapes(Seq::<ExprV>::empty(), Seq::<ExprV>::empty()));
    }
}

/// From tokens that read alike, what follows a primary is read with the
/// same structure.
pub proof fn lemma_call_rest_alike(
    a: Seq<Token>,
    b: Seq<Token>,
    pos: int,
    ea: Seq<LineErrorV>,
    eb: Seq<LineErrorV>,
    x: ExprV,
    y: ExprV,
)
    requires
        tokens_read_alike(a, b),
        ea.len() == eb.len(),
        same_shape(x, y),
    ensures
        parallel(spec_call_rest(a, pos, ea, x), spec_call_rest(b, pos, eb, y)),
    decreases a.len() - pos, 0int, 0int,
{
    if kind_at(a, pos, TokenType::LeftParen) {
        lemma_finish_call_alike(a, b, pos + 1, ea, eb, x, y);
        let ra = spec_finish_call(a, pos + 1, ea, x);
        let rb = spec_finish_call(b, pos + 1, eb, y);
        if ra.out is Ok && moved(a, pos, ra.pos) {
            lemma_call_rest_alike(a, b, ra.pos, ra.errs, rb.errs, ra.out->Ok_0, rb.out->Ok_0);
        }
    } else if kind_at(a, pos, TokenType::Dot) {
        let ca = consume_spec(a, pos + 1, ea, TokenType::Identifier);
        let cb = consume_spec(b, pos + 1, eb, TokenType::Identifier);
        if ca.out is Ok {
            lemma_call_rest_alike(
                a,
                b,
                ca.pos,
                ca.errs,
                cb.errs,
                ExprV::Get { object: Box::new(x), name: ca.out->Ok_0 },
                ExprV::Get { object: Box::new(y), name: cb.out->Ok_0 },
            );
        }
    }
}

/// From tokens that read alike, `call` reads trees of the same structure.
pub proof fn lemma_call_alike(
    a: Seq<Token>,
    b: Seq<Token>,
    pos: int,
    ea: Seq<LineErrorV>,
    eb: Seq<LineErrorV>,
)
    requires
        tokens_read_alike(a, b),
        ea.len() == eb.len(),
    ensures
        parallel(spec_call(a, pos, ea), spec_call(b, pos, eb)),
    decreases a.len() - pos, 8int, 0int,
{
    lemma_primary_alike(a, b, pos, ea, eb);
    let ra = spec_primary(a, pos, ea);
    let rb = spec_primary(b, pos, eb);
    if ra.out is Ok && moved(a, pos, ra.pos) {
        lemma_call_rest_alike(a, b, ra.pos, ra.errs, rb.errs, ra.out->Ok_0, rb.out->Ok_0);
    }
}

/// From tokens that read alike, `unary` reads trees of the same structure.
pub proof fn lemma_unary_alike(
    a: Seq<Token>,
    b: Seq<Token>,
    pos: int,
    ea: Seq<LineErrorV>,
    eb: Seq<LineErrorV>,
)
    requires
        tokens_read_alike(a, b),
        ea.len() == eb.len(),
    ensures
        parallel(spec_unary(a, pos, ea), spec_unary(b, pos, eb)),
    decreases a.len() - pos, 9int, 0int,
{
    if kind_at(a, pos, TokenType::Bang) || kind_at(a, pos, TokenType::Minus) {
        lemma_unary_alike(a, b, pos + 1, ea, eb);
    } else {
        lemma_call_alike(a, b, pos, ea, eb);
    }
}

/// From tokens that read alike, an operand is read with the same
/// structure.
pub proof fn lemma_operand_alike(
    a: Seq<Token>,
    b: Seq<Token>,
    pos: int,
    ea: Seq<LineErrorV>,
    eb: Seq<LineErrorV>,
    level: int,
)
    requires
        tokens_read_alike(a, b),
        ea.len() == eb.len(),
    ensures
        parallel(spec_operand(a, pos, ea, level), spec_operand(b, pos, eb, level)),
    decreases a.len() - pos, 10 + level, 0int,
{
    if level == 0 {
        lemma_unary_alike(a, b, pos, ea, eb);
    } else if 1 <= level <= 5 {
        lemma_chain_alike(a, b, pos, ea, eb, level - 1);
    }
}

/// From tokens that read alike, the rest of a chain is read with the same
/// structure.
pub proof fn lemma_chain_rest_alike(
    a: Seq<Token>,
    b: Seq<Token>,
    pos: int,
    ea: Seq<LineErrorV>,
    eb: Seq<LineErrorV>,
    level: int,
    x: ExprV,
    y: ExprV,
)
    requires
        tokens_read_alike(a, b),
        ea.len() == eb.len(),
        same_shape(x, y),
    ensures
        parallel(
            spec_chain_rest(a, pos, ea, level, x),
            spec_chain_rest(b, pos, eb, level, y),
        ),
    decreases a.len() - pos, 0int, 0int,
{
    if 0 <= pos < a.len() && 0 <= level <= 5 && joins(level, a[pos].typ) {
        assert(reads_alike(a[pos], b[pos]));
        lemma_operand_alike(a, b, pos + 1, ea, eb, level);
        let ra = spec_operand(a, pos + 1, ea, level);
        let rb = spec_operand(b, pos + 1, eb, level);
        if ra.out is Ok && moved(a, pos, ra.pos) {
            lemma_chain_rest_alike(
                a,
                b,
                ra.pos,
                ra.errs,
                rb.errs,
                level,
                joined_expr(level, x, a[pos], ra.out->Ok_0),
                joined_expr(level, y, b[pos], rb.out->Ok_0),
            );
        }
    } else {
        if 0 <= pos < a.len() {
            assert(reads_alike(a[pos], b[pos]));
        }
    }
}

/// From tokens that read alike, a chain is read with the same structure.
pub proof fn lemma_chain_alike(
    a: Seq<Token>,
    b: Seq<Token>,
    pos: int,
    ea: Seq<LineErrorV>,
    eb: Seq<LineErrorV>,
    level: int,
)
    requires
        tokens_read_alike(a, b),
        ea.len() == eb.len(),
    ensures
        parallel(spec_chain(a, pos, ea, level), spec_chain(b, pos, eb, level)),
    decreases a.len() - pos, 10 + level, 1int,
{
    if 0 <= level <= 5 {
        lemma_operand_alike(a, b, pos, ea, eb, level);
        let ra = spec_operand(a, pos, ea, level);
        let rb = spec_operand(b, pos, eb, level);
        if ra.out is Ok && moved(a, pos, ra.pos) {
            lemma_chain_rest_alike(
                a,
                b,
                ra.pos,
                ra.errs,
                rb.errs,
                level,
                ra.out->Ok_0,
                rb.out->Ok_0,
            );
        }
    }
}

/// From tokens that read alike, `assignment` reads trees of the same
/// structure.
pub proof fn lemma_assignment_alike(
    a: Seq<Token>,
    b: Seq<Token>,
    pos: int,
    ea: Seq<LineErrorV>,
    eb: Seq<LineErrorV>,
)
    requires
        tokens_read_alike(a, b),
        ea.len() == eb.len(),
    ensures
        parallel(spec_assignment(a, pos, ea), spec_assignment(b, pos, eb)),
    decreases a.len() - pos, 16int, 0int,
{
    lemma_chain_alike(a, b, pos, ea, eb, 5);
    let ra = spec_chain(a, pos, ea, 5);
    let rb = spec_chain(b, pos, eb, 5);
    if ra.out is Ok && kind_at(a, ra.pos, TokenType::Equal) && moved(
        a,
        pos,
        ra.pos + 1,
    ) {
        lemma_assignment_alike(a, b, ra.pos + 1, ra.errs, rb.errs);
    }
}

/// From tokens that read alike, expressions of the same structure are
/// read: where the one sequence gives a tree, the other gives a tree of the
/// same shape with the same names and values, read from as many tokens; and
/// where the one has a syntax error, the other has one.
pub proof fn lemma_expr_alike(
    a: Seq<Token>,
    b: Seq<Token>,
    pos: int,
    ea: Seq<LineErrorV>,
    eb: Seq<LineErrorV>,
)
    requires
        tokens_read_alike(a, b),
        ea.len() == eb.len(),
    ensures
        parallel(spec_expr(a, pos, ea), spec_expr(b, pos, eb)),
    decreases a.len() - pos, 17int, 0int,
{
    lemma_assignment_alike(a, b, pos, ea, eb);
}

/// A token of the given kind, as a printer writes punctuation and
/// keywords: where it stands and how it is spelled is left open.
pub open spec fn mark(typ: TokenType) -> Token {
    Token { typ, lexeme: arbitrary(), literal: None, line: 0 }
}

/// The token that a printer writes for a literal.
pub open spec fn literal_token(value: Value) -> Token {
    match value {
        Value::Number(n) => Token {
            typ: TokenType::Number,
            lexeme: arbitrary(),
            literal: Some(Literal::Number(n)),
            line: 0,
        },
        Value::String(s) => Token {
            typ: TokenType::String,
            lexeme: arbitrary(),
            literal: Some(Literal::String(s)),
            line: 0,
        },
        Value::Bool(b) => if b {
            mark(TokenType::True)
        } else {
            mark(TokenType::False)
        },
        _ => mark(TokenType::Nil),
    }
}

/// An expression printed as tokens: the tokens that the tree holds, with
/// the punctuation of the grammar between them.
pub open spec fn printed(e: ExprV) -> Seq<Token>
    decreases e, 0int,
{
    match e {
        ExprV::Literal { value } => seq![literal_token(value)],
        ExprV::Var { name } => seq![name],
        ExprV::Group { expr } => seq![mark(TokenType::LeftParen)] + printed(*expr)
            + seq![mark(TokenType::RightParen)],
        ExprV::Unary { op, right } => seq![op] + printed(*right),
        ExprV::Binary { left, op, right } => printed(*left) + seq![op] + printed(*right),
        ExprV::Logical { left, op, right } => printed(*left) + seq![op] + printed(*right),
        ExprV::Assign { name, value } => seq![name, mark(TokenType::Equal)] + printed(*value),
        ExprV::Get { object, name } => printed(*object) + seq![mark(TokenType::Dot), name],
        ExprV::SetProperty { object, name, value } => printed(*object) + seq![
            mark(TokenType::Dot),
            name,
        ] + seq![mark(TokenType::Equal)] + printed(*value),
        ExprV::Call { callee, paren, args } => printed(*callee) + seq![
            mark(TokenType::LeftParen),
        ] + printed_list(args, args.len() as int) + seq![paren],
    }
}

/// The first `n` of the expressions printed as tokens, with commas between
/// them.
pub open spec fn printed_list(es: Seq<ExprV>, n: int) -> Seq<Token>
    decreases es, n,
{
    if n <= 0 || n > es.len() {
        Seq::empty()
    } else if n == 1 {
        printed(es[0])
    } else {
        printed_list(es, n - 1) + seq![mark(TokenType::Comma)] + printed(es[n - 1])
    }
}

/// Whether the parser reads from the tokens at `pos` on what it reads from
/// the tokens `p`.
pub open spec fn lies_at(p: Seq<Token>, toks: Seq<Token>, pos: int) -> bool {
    &&& 0 <= pos
    &&& pos + p.len() <= toks.len()
    &&& forall|j: int| 0 <= j < p.len() ==> reads_alike(#[trigger] p[j], toks[pos + j])
}

/// Whether every number token stands for a number and every string token
/// for a string.
pub open spec fn literals_fit(toks: Seq<Token>) -> bool {
    forall|i: int|
        0 <= i < toks.len() ==> {
            &&& (#[trigger] toks[i]).typ == TokenType::Number ==> toks[i].literal is Some
                && toks[i].literal->0 is Number
            &&& toks[i].typ == TokenType::String ==> toks[i].literal is Some
                && toks[i].literal->0 is String
        }
}

/// Whether the tokens end with the end of the text.
pub open spec fn ended(toks: Seq<Token>) -> bool {
    toks.len() > 0 && toks.last().typ == TokenType::Eof
}

/// Whether the tree that a rule read from `start` on, where it read one,
/// prints as what the parser reads from the tokens it was read from, and
/// the rule stopped before the end of the tokens.
pub open spec fn prints_back(toks: Seq<Token>, start: int, r: Parsed<ExprV>) -> bool {
    r.out is Ok ==> lies_at(printed(r.out->Ok_0), toks, start) && start + printed(
        r.out->Ok_0,
    ).len() == r.pos && r.pos < toks.len()
}

/// What matches in two stretches matches in one.
pub proof fn lemma_lies_append(a: Seq<Token>, b: Seq<Token>, toks: Seq<Token>, pos: int)
    requires
        lies_at(a, toks, pos),
        lies_at(b, toks, pos + a.len()),
    ensures
        lies_at(a + b, toks, pos),
{
    assert forall|j: int| 0 <= j < (a + b).len() implies reads_alike(
        #[trigger] (a + b)[j],
        toks[pos + j],
    ) by {
        if j < a.len() {
            assert((a + b)[j] == a[j]);
        } else {
            assert((a + b)[j] == b[j - a.len()]);
            assert(reads_alike(b[j - a.len()], toks[pos + a.len() + (j - a.len())]));
        }
    }
}

/// One token matches where the parser reads the same from the token there.
pub proof fn lemma_lies_one(t: Token, toks: Seq<Token>, pos: int)
    requires
        0 <= pos < toks.len(),
        reads_alike(t, toks[pos]),
    ensures
        lies_at(seq![t], toks, pos),
{
}

/// The tree that `primary` reads prints as the tokens it was read from.
pub proof fn lemma_primary_prints(toks: Seq<Token>, pos: int, errs: Seq<LineErrorV>)
    requires
        literals_fit(toks),
        ended(toks),
    ensures
        prints_back(toks, pos, spec_primary(toks, pos, errs)),
    decreases toks.len() - pos, 7int, 0int,
{
    let r = spec_primary(toks, pos, errs);
    if r.out is Ok {
        if kind_at(toks, pos, TokenType::LeftParen) {
            lemma_expr_prints(toks, pos + 1, errs);
            let inner = spec_expr(toks, pos + 1, errs);
            let e = inner.out->Ok_0;
            lemma_lies_one(mark(TokenType::LeftParen), toks, pos);
            lemma_lies_append(seq![mark(TokenType::LeftParen)], printed(e), toks, pos);
            lemma_lies_one(mark(TokenType::RightParen), toks, inner.pos);
            lemma_lies_append(
                seq![mark(TokenType::LeftParen)] + printed(e),
                seq![mark(TokenType::RightParen)],
                toks,
                pos,
            );
        } else {
            let e = r.out->Ok_0;
            assert(printed(e).len() == 1);
            assert(reads_alike(printed(e)[0], toks[pos]));
        }
    }
}

/// The arguments that are read print as the tokens they were read from.
pub proof fn lemma_args_prints(
    toks: Seq<Token>,
    pos: int,
    errs: Seq<LineErrorV>,
    xs: Seq<ExprV>,
    over: Option<Token>,
    start: int,
)
    requires
        literals_fit(toks),
        ended(toks),
        0 <= start <= pos,
        xs.len() == 0 ==> pos == start,
        xs.len() > 0 ==> lies_at(printed_list(xs, xs.len() as int), toks, start) && kind_at(
            toks,
            pos - 1,
            TokenType::Comma,
        ) && pos == start + printed_list(xs, xs.len() as int).len() + 1,
    ensures
        ({
            let r = spec_args(toks, pos, errs, xs, over);
            r.out is Ok ==> {
                let ys = r.out->Ok_0.0;
                &&& ys.len() > 0
                &&& lies_at(printed_list(ys, ys.len() as int), toks, start)
                &&& start + printed_list(ys, ys.len() as int).len() == r.pos
                &&& r.pos < toks.len()
            }
        }),
    decreases toks.len() - pos, 25int, 0int,
{
    lemma_expr_prints(toks, pos, errs);
    let r = spec_expr(toks, pos, errs);
    if r.out is Ok {
        let e = r.out->Ok_0;
        let ys = xs.push(e);
        let n = ys.len() as int;
        lemma_list_keeps(xs, e, xs.len() as int);
        if xs.len() == 0 {
            assert(printed_list(ys, n) == printed(e));
        } else {
            let before = printed_list(xs, xs.len() as int);
            assert(printed_list(ys, n) == before + seq![mark(TokenType::Comma)] + printed(e));
            lemma_lies_one(mark(TokenType::Comma), toks, pos - 1);
            lemma_lies_append(before, seq![mark(TokenType::Comma)], toks, start);
            lemma_lies_append(before + seq![mark(TokenType::Comma)], printed(e), toks, start);
        }
        if kind_at(toks, r.pos, TokenType::Comma) && moved(toks, pos, r.pos + 1) {
            let over2 = if ys.len() >= MAX_ARGS {
                Some(toks[r.pos])
            } else {
                over
            };
            lemma_args_prints(toks, r.pos + 1, r.errs, ys, over2, start);
        }
    }
}

/// Printing the first expressions of a list does not depend on what
/// follows them in the list.
pub proof fn lemma_list_keeps(xs: Seq<ExprV>, e: ExprV, n: int)
    requires
        0 <= n <= xs.len(),
    ensures
        printed_list(xs.push(e), n) == printed_list(xs, n),
    decreases n,
{
    if n > 1 {
        lemma_list_keeps(xs, e, n - 1);
        assert(xs.push(e)[n - 1] == xs[n - 1]);
    } else if n == 1 {
        assert(xs.push(e)[0] == xs[0]);
    }
}

/// The call that is read behind its "(" prints as the tokens it was read
/// from.
pub proof fn lemma_finish_call_prints(
    toks: Seq<Token>,
    pos: int,
    errs: Seq<LineErrorV>,
    callee: ExprV,
    start: int,
)
    requires
        literals_fit(toks),
        ended(toks),
        lies_at(printed(callee), toks, start),
        start + printed(callee).len() + 1 == pos,
        kind_at(toks, pos - 1, TokenType::LeftParen),
    ensures
        prints_back(toks, start, spec_finish_call(toks, pos, errs, callee)),
    decreases toks.len() - pos, 26int, 0int,
{
    let r = spec_finish_call(toks, pos, errs, callee);
    if r.out is Ok {
        let head = printed(callee) + seq![mark(TokenType::LeftParen)];
        lemma_lies_one(mark(TokenType::LeftParen), toks, pos - 1);
        lemma_lies_append(printed(callee), seq![mark(TokenType::LeftParen)], toks, start);
        if kind_at(toks, pos, TokenType::RightParen) {
            let none = Seq::<ExprV>::empty();
            assert(printed_list(none, 0) =~= Seq::<Token>::empty());
            lemma_lies_one(toks[pos], toks, pos);
            assert(head + printed_list(none, 0) =~= head);
            lemma_lies_append(head, seq![toks[pos]], toks, start);
        } else {
            lemma_args_prints(toks, pos, errs, Seq::empty(), None, pos);
            let a = spec_args(toks, pos, errs, Seq::empty(), None);
            let args = a.out->Ok_0.0;
            let list = printed_list(args, args.len() as int);
            lemma_lies_append(head, list, toks, start);
            lemma_lies_one(toks[a.pos], toks, a.pos);
            lemma_lies_append(head + list, seq![toks[a.pos]], toks, start);
        }
    }
}

/// What is read behind a primary prints, with the primary, as the tokens it
/// was read from.
pub proof fn lemma_call_rest_prints(
    toks: Seq<Token>,
    pos: int,
    errs: Seq<LineErrorV>,
    callee: ExprV,
    start: int,
)
    requires
        literals_fit(toks),
        ended(toks),
        lies_at(printed(callee), toks, start),
        start + printed(callee).len() == pos,
        pos < toks.len(),
    ensures
        prints_back(toks, start, spec_call_rest(toks, pos, errs, callee)),
    decreases toks.len() - pos, 0int, 0int,
{
    if kind_at(toks, pos, TokenType::LeftParen) {
        lemma_finish_call_prints(toks, pos + 1, errs, callee, start);
        let r = spec_finish_call(toks, pos + 1, errs, callee);
        if r.out is Ok && moved(toks, pos, r.pos) {
            lemma_call_rest_prints(toks, r.pos, r.errs, r.out->Ok_0, start);
        }
    } else if kind_at(toks, pos, TokenType::Dot) {
        let c = consume_spec(toks, pos + 1, errs, TokenType::Identifier);
        if c.out is Ok {
            let name = c.out->Ok_0;
            let get = ExprV::Get { object: Box::new(callee), name };
            lemma_lies_one(mark(TokenType::Dot), toks, pos);
            lemma_lies_one(name, toks, pos + 1);
            lemma_lies_append(seq![mark(TokenType::Dot)], seq![name], toks, pos);
            assert(seq![mark(TokenType::Dot)] + seq![name] =~= seq![mark(TokenType::Dot), name]);
            lemma_lies_append(printed(callee), seq![mark(TokenType::Dot), name], toks, start);
            lemma_call_rest_prints(toks, c.pos, c.errs, get, start);
        }
    }
}

/// The tree that `call` reads prints as the tokens it was read from.
pub proof fn lemma_call_prints(toks: Seq<Token>, pos: int, errs: Seq<LineErrorV>)
    requires
        literals_fit(toks),
        ended(toks),
    ensures
        prints_back(toks, pos, spec_call(toks, pos, errs)),
    decreases toks.len() - pos, 8int, 0int,
{
    lemma_primary_prints(toks, pos, errs);
    let r = spec_primary(toks, pos, errs);
    if r.out is Ok && moved(toks, pos, r.pos) {
        lemma_call_rest_prints(toks, r.pos, r.errs, r.out->Ok_0, pos);
    }
}

/// The tree that `unary` reads prints as the tokens it was read from.
pub proof fn lemma_unary_prints(toks: Seq<Token>, pos: int, errs: Seq<LineErrorV>)
    requires
        literals_fit(toks),
        ended(toks),
    ensures
        prints_back(toks, pos, spec_unary(toks, pos, errs)),
    decreases toks.len() - pos, 9int, 0int,
{
    if kind_at(toks, pos, TokenType::Bang) || kind_at(toks, pos, TokenType::Minus) {
        lemma_unary_prints(toks, pos + 1, errs);
        let r = spec_unary(toks, pos + 1, errs);
        if r.out is Ok {
            lemma_lies_one(toks[pos], toks, pos);
            lemma_lies_append(seq![toks[pos]], printed(r.out->Ok_0), toks, pos);
        }
    } else {
        lemma_call_prints(toks, pos, errs);
    }
}

/// The operand that is read prints as the tokens it was read from.
pub proof fn lemma_operand_prints(toks: Seq<Token>, pos: int, errs: Seq<LineErrorV>, level: int)
    requires
        literals_fit(toks),
        ended(toks),
    ensures
        prints_back(toks, pos, spec_operand(toks, pos, errs, level)),
    decreases toks.len() - pos, 10 + level, 0int,
{
    if level == 0 {
        lemma_unary_prints(toks, pos, errs);
    } else if 1 <= level <= 5 {
        lemma_chain_prints(toks, pos, errs, level - 1);
    }
}

/// What is read behind an operand of a chain prints, with the operand, as
/// the tokens it was read from.
pub proof fn lemma_chain_rest_prints(
    toks: Seq<Token>,
    pos: int,
    errs: Seq<LineErrorV>,
    level: int,
    left: ExprV,
    start: int,
)
    requires
        literals_fit(toks),
        ended(toks),
        lies_at(printed(left), toks, start),
        start + printed(left).len() == pos,
        pos < toks.len(),
    ensures
        prints_back(toks, start, spec_chain_rest(toks, pos, errs, level, left)),
    decreases toks.len() - pos, 0int, 0int,
{
    if 0 <= pos < toks.len() && 0 <= level <= 5 && joins(level, toks[pos].typ) {
        lemma_operand_prints(toks, pos + 1, errs, level);
        let r = spec_operand(toks, pos + 1, errs, level);
        if r.out is Ok && moved(toks, pos, r.pos) {
            let right = r.out->Ok_0;
            let joined = joined_expr(level, left, toks[pos], right);
            assert(printed(joined) == printed(left) + seq![toks[pos]] + printed(right));
            lemma_lies_one(toks[pos], toks, pos);
            lemma_lies_append(printed(left), seq![toks[pos]], toks, start);
            lemma_lies_append(printed(left) + seq![toks[pos]], printed(right), toks, start);
            lemma_chain_rest_prints(toks, r.pos, r.errs, level, joined, start);
        }
    }
}

/// The chain that is read prints as the tokens it was read from.
pub proof fn lemma_chain_prints(toks: Seq<Token>, pos: int, errs: Seq<LineErrorV>, level: int)
    requires
        literals_fit(toks),
        ended(toks),
    ensures
        prints_back(toks, pos, spec_chain(toks, pos, errs, level)),
    decreases toks.len() - pos, 10 + level, 1int,
{
    if 0 <= level <= 5 {
        lemma_operand_prints(toks, pos, errs, level);
        let r = spec_operand(toks, pos, errs, level);
        if r.out is Ok && moved(toks, pos, r.pos) {
            lemma_chain_rest_prints(toks, r.pos, r.errs, level, r.out->Ok_0, pos);
        }
    }
}

/// The tree that `assignment` reads prints as the tokens it was read from.
pub proof fn lemma_assignment_prints(toks: Seq<Token>, pos: int, errs: Seq<LineErrorV>)
    requires
        literals_fit(toks),
        ended(toks),
    ensures
        prints_back(toks, pos, spec_assignment(toks, pos, errs)),
    decreases toks.len() - pos, 16int, 0int,
{
    lemma_chain_prints(toks, pos, errs, 5);
    let r = spec_chain(toks, pos, errs, 5);
    if r.out is Ok && kind_at(toks, r.pos, TokenType::Equal) && moved(toks, pos, r.pos + 1) {
        let target = r.out->Ok_0;
        lemma_assignment_prints(toks, r.pos + 1, r.errs);
        let v = spec_assignment(toks, r.pos + 1, r.errs);
        if v.out is Ok {
            let value = v.out->Ok_0;
            lemma_lies_one(mark(TokenType::Equal), toks, r.pos);
            match target {
                ExprV::Var { name } => {
                    assert(printed(target) =~= seq![name]);
                    assert(seq![name] + seq![mark(TokenType::Equal)] =~= seq![
                        name,
                        mark(TokenType::Equal),
                    ]);
                    lemma_lies_append(seq![name], seq![mark(TokenType::Equal)], toks, pos);
                    lemma_lies_append(
                        seq![name, mark(TokenType::Equal)],
                        printed(value),
                        toks,
                        pos,
                    );
                },
                ExprV::Get { object, name } => {
                    let head = printed(*object) + seq![mark(TokenType::Dot), name];
                    assert(printed(target) == head);
                    lemma_lies_append(head, seq![mark(TokenType::Equal)], toks, pos);
                    lemma_lies_append(
                        head + seq![mark(TokenType::Equal)],
                        printed(value),
                        toks,
                        pos,
                    );
                },
                _ => {},
            }
        }
    }
}

/// The tree that is read for an expression prints as the tokens it was
/// read from: token by token, the parser reads the same from both.
pub proof fn lemma_expr_prints(toks: Seq<Token>, pos: int, errs: Seq<LineErrorV>)
    requires
        literals_fit(toks),
        ended(toks),
    ensures
        prints_back(toks, pos, spec_expr(toks, pos, errs)),
    decreases toks.len() - pos, 17int, 0int,
{
    lemma_assignment_prints(toks, pos, errs);
}

/// An expression that the parser accepts is read again from what is
/// printed of its tree, with the same structure.
///
/// The tokens are one expression and the end of the text. Printing the tree
/// that is read from them, and putting an end behind it, gives tokens from
/// which a tree of the same shape, with the same kinds of tokens, the same
/// names and the same values, is read.
pub proof fn lemma_round_trip(toks: Seq<Token>, errs: Seq<LineErrorV>)
    requires
        literals_fit(toks),
        ended(toks),
        spec_expr(toks, 0, errs).out is Ok,
        spec_expr(toks, 0, errs).pos == toks.len() - 1,
        ends_at(toks, toks.len() - 1),
    ensures
        ({
            let tree = spec_expr(toks, 0, errs).out->Ok_0;
            let again = spec_expr(printed(tree).push(mark(TokenType::Eof)), 0, errs);
            &&& again.out is Ok
            &&& same_shape(again.out->Ok_0, tree)
            &&& again.pos == printed(tree).len()
            &&& ends_at(printed(tree).push(mark(TokenType::Eof)), again.pos)
        }),
{
    let first = spec_expr(toks, 0, errs);
    let tree = first.out->Ok_0;
    lemma_expr_prints(toks, 0, errs);
    let written = printed(tree).push(mark(TokenType::Eof));
    assert(tokens_read_alike(written, toks)) by {
        assert forall|i: int| 0 <= i < written.len() implies reads_alike(
            #[trigger] written[i],
            toks[i],
        ) by {
            if i < printed(tree).len() {
                assert(written[i] == printed(tree)[i]);
                assert(reads_alike(printed(tree)[i], toks[0 + i]));
            }
        }
    }
    lemma_expr_alike(written, toks, 0, errs, errs);
}

} // verus!
