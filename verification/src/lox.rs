use crate::expr::Expr;
use crate::host::Host;
use crate::interpreter::{Error, Interpreter, State};
use crate::semantics::{eval, gave, lost, parts, passed, run, Ran, Trace};
use crate::stmt::{stmts_view, Stmt, StmtV};
use crate::value::Value;
use crate::parser::{
    ends_at, parsable, spec_expr, spec_program, LineErrorV, ParseError, Parser,
};
use crate::scanner::{
    error_specs, lemma_scan_ends_with_eof, literal_fits, scan_spec, token_specs, ScanError,
    Scanner,
};
use crate::token::{Token, TokenType};
use vstd::prelude::*;

verus! {

/// Why a program could not be run to its end.
#[derive(Debug, PartialEq)]
pub enum LoxError {
    Scan(ScanError),
    Parse(ParseError),
    Interpret(Error),
}

impl LoxError {
    /// The words of the error.
    pub open spec fn message_spec(&self) -> Seq<char> {
        match self {
            LoxError::Scan(e) => e.message_spec(),
            LoxError::Parse(e) => e.message_spec(),
            LoxError::Interpret(e) => crate::interpreter::error_text(*e),
        }
    }

    /// The words of the error.
    pub fn message(&self) -> (r: String)
        ensures
            r@ == self.message_spec(),
    {
        match self {
            LoxError::Scan(e) => e.message(),
            LoxError::Parse(e) => e.message(),
            LoxError::Interpret(e) => e.message(),
        }
    }
}

/// A copy of the tokens.
pub fn duplicate_tokens(tokens: &Vec<Token>) -> (r: Vec<Token>)
    ensures
        r@ == tokens@,
{
    let mut r: Vec<Token> = Vec::new();
    let mut i: usize = 0;
    while i < tokens.len()
        invariant
            i <= tokens@.len(),
            r@ == tokens@.subrange(0, i as int),
        decreases tokens@.len() - i,
    {
        r.push(tokens[i].duplicate());
        i = i + 1;
        assert(r@ =~= tokens@.subrange(0, i as int));
    }
    assert(r@ =~= tokens@);
    r
}

/// Whether the tokens are one expression and nothing else.
#[verifier::opaque]
pub open spec fn lone_expression(toks: Seq<Token>) -> bool {
    let p = spec_expr(toks, 0, Seq::empty());
    p.out is Ok && ends_at(toks, p.pos)
}

/// Whether the tokens are a program without syntax errors.
#[verifier::opaque]
pub open spec fn accepted(toks: Seq<Token>) -> bool {
    spec_program(toks, 0, Seq::empty(), Seq::empty(), false) is Accepted
}

/// The statements of a program without syntax errors.
#[verifier::opaque]
pub open spec fn program_of(toks: Seq<Token>) -> Seq<StmtV> {
    spec_program(toks, 0, Seq::empty(), Seq::empty(), false)->Accepted_0
}

/// What is written for a value that is shown as an expression would be
/// written. `leaf` is the text that the host gave for a number.
pub open spec fn displayed(value: Value, leaf: Trace) -> Seq<char> {
    match value {
        Value::Number(_) => match leaf {
            Trace::Text(text) => text@,
            _ => Seq::empty(),
        },
        _ => value.display_spec(),
    }
}

/// Evaluating an expression and showing its value on a line of its own.
pub open spec fn shows(s: State, expr: Expr, t: Trace) -> Ran<()> {
    if parts(t).len() >= 2 {
        let r = eval(s, expr, parts(t)[0]);
        match r.out {
            Ok(v) => gave(r.state.printed(displayed(v, parts(t)[1])), ()),
            Err(e) => passed(r.state, e, r.whole),
        }
    } else {
        lost(s)
    }
}

/// Whether the tokens are one expression, and evaluating and showing it
/// from the state `before`, with the trace `t`, ended in the state `after`
/// and gave `r`.
#[verifier::opaque]
pub open spec fn showed(
    before: State,
    toks: Seq<Token>,
    t: Trace,
    after: State,
    r: Result<(), LoxError>,
) -> bool {
    exists|expr: Expr|
        Ok::<crate::expr::ExprV, LineErrorV>(#[trigger] expr@) == spec_expr(
            toks,
            0,
            Seq::empty(),
        ).out && shows(before, expr, t) == (Ran { state: after, out: taken(r), whole: true }) && r == reported(
            taken(r),
        )
}

/// Whether the tokens are a program, and running its statements from the
/// state `before`, with the trace `t`, ended in the state `after` and gave
/// `r`.
#[verifier::opaque]
pub open spec fn ran(
    before: State,
    toks: Seq<Token>,
    t: Trace,
    after: State,
    r: Result<(), LoxError>,
) -> bool {
    exists|stmts: Seq<Stmt>| #[trigger]
        stmts_view(stmts) == program_of(toks) && run(before, stmts, t, 0) == (Ran {
            state: after,
            out: taken(r),
            whole: true,
        }) && r == reported(taken(r))
}

/// Whether `tokens` are the tokens of the text: what the scanner states of
/// each, with the literal that its kind asks for.
pub open spec fn scanned(src: Seq<char>, tokens: Seq<Token>) -> bool {
    &&& token_specs(tokens) == scan_spec(src).tokens
    &&& forall|i: int| 0 <= i < tokens.len() ==> literal_fits(#[trigger] tokens[i])
}

/// Whether parsing and running the tokens from the state `before`, with the
/// trace `t`, ended in the state `after` and gave `r`.
pub open spec fn ran_tokens(
    before: State,
    toks: Seq<Token>,
    t: Trace,
    after: State,
    r: Result<(), LoxError>,
) -> bool {
    if lone_expression(toks) {
        showed(before, toks, t, after, r)
    } else if accepted(toks) {
        ran(before, toks, t, after, r)
    } else {
        r == Err::<(), LoxError>(LoxError::Parse(ParseError::Failed)) && after == before
    }
}

/// What the driver returns for what the interpreter gave.
pub open spec fn reported(out: Result<(), Error>) -> Result<(), LoxError> {
    match out {
        Ok(()) => Ok(()),
        Err(e) => Err(LoxError::Interpret(e)),
    }
}

/// The tokens of a scan without errors can be parsed.
pub proof fn lemma_scanned_is_parsable(src: Seq<char>, tokens: Seq<Token>)
    requires
        token_specs(tokens) == scan_spec(src).tokens,
        forall|i: int| 0 <= i < tokens.len() ==> literal_fits(#[trigger] tokens[i]),
    ensures
        parsable(tokens),
{
    lemma_scan_ends_with_eof(src);
    let specs = token_specs(tokens);
    assert(specs.len() == tokens.len());
    assert(specs[tokens.len() - 1].typ == tokens[tokens.len() - 1].typ);
    assert forall|i: int|
        0 <= i < tokens.len() && ((#[trigger] tokens[i]).typ == TokenType::Number || tokens[i].typ
            == TokenType::String) implies tokens[i].literal is Some by {
        assert(literal_fits(tokens[i]));
    }
}

/// The expression that the tokens are, where they are one expression and
/// nothing else.
pub fn single_expression(tokens: Vec<Token>) -> (r: Option<Expr>)
    requires
        parsable(tokens@),
    ensures
        r is Some <==> lone_expression(tokens@),
        r is Some ==> Ok::<crate::expr::ExprV, LineErrorV>(r->Some_0@) == spec_expr(
            tokens@,
            0,
            Seq::empty(),
        ).out,
{
    reveal(lone_expression);
    let mut parser = Parser::new(tokens);
    match parser.single_expr() {
        Ok(expr) => Some(expr),
        Err(_) => None,
    }
}

/// The statements that the tokens are, where they are a program without
/// syntax errors.
pub fn program(tokens: Vec<Token>) -> (r: Result<Vec<Stmt>, ParseError>)
    requires
        parsable(tokens@),
    ensures
        r is Ok <==> accepted(tokens@),
        r is Ok ==> stmts_view(r->Ok_0@) == program_of(tokens@),
        r is Err ==> r->Err_0 == ParseError::Failed,
{
    reveal(accepted);
    reveal(program_of);
    let mut parser = Parser::new(tokens);
    parser.parse()
}

/// Runs programs, one after the other, in one interpreter.
pub struct Lox<H: Host> {
    interpreter: Interpreter<H>,
}

impl<H: Host> View for Lox<H> {
    type V = State;

    closed spec fn view(&self) -> State {
        self.interpreter@
    }
}

impl<H: Host> Lox<H> {
    /// The invariant: that of the interpreter.
    pub closed spec fn wf(&self) -> bool {
        self.interpreter.wf()
    }

    /// What was written for the driver's error stream.
    pub closed spec fn diagnostics(&self) -> Seq<char> {
        self.interpreter.diagnostics()
    }

    /// The trace of what was last run.
    pub closed spec fn trace(&self) -> Trace {
        self.interpreter.trace()
    }

    /// A driver with a new interpreter on the host: nothing is printed, no
    /// call is under way, the budget is full, and the global scope holds
    /// `clock` and nothing else.
    pub fn new(host: H) -> (r: Self)
        ensures
            r.wf(),
            r@.depth == 0,
            r@.budget == crate::interpreter::FULL_BUDGET,
            r@.output == Seq::<char>::empty(),
            r@.objects.len() == 0,
            r@.classes == 0,
            r@.env.frames.len() == 1,
            r@.env.current.frame == 0,
            r@.env.frames[0].bindings.len() == 1,
            r@.env.frames[0].bindings[0].name == "clock"@,
            crate::interpreter::is_clock(r@.env.frames[0].bindings[0].val),
    {
        Lox { interpreter: Interpreter::new(host) }
    }

    /// The driver with `text` as what was printed so far.
    pub fn stdout(self, text: String) -> (r: Self)
        requires
            self.wf(),
        ensures
            r.wf(),
            r@ == (State { output: text@, ..self@ }),
    {
        Lox { interpreter: self.interpreter.with_stdout(text) }
    }

    /// The driver with `text` as what was written for the error stream so
    /// far.
    pub fn stderr(self, text: String) -> (r: Self)
        requires
            self.wf(),
        ensures
            r.wf(),
            r@ == self@,
            r.diagnostics() == text@,
    {
        Lox { interpreter: self.interpreter.with_stderr(text) }
    }

    /// The driver with `budget` steps left.
    pub fn budget(self, budget: u64) -> (r: Self)
        requires
            self.wf(),
        ensures
            r.wf(),
            r@ == (State { budget: budget as nat, ..self@ }),
    {
        Lox { interpreter: self.interpreter.with_budget(budget) }
    }

    /// Everything printed so far.
    pub fn output(&self) -> (r: &str)
        ensures
            r@ == self@.output,
    {
        self.interpreter.stdout()
    }

    /// Hands out everything printed so far, and starts the output anew.
    pub fn take_output(&mut self) -> (r: String)
        requires
            old(self).wf(),
        ensures
            final(self).wf(),
            r@ == old(self)@.output,
            final(self)@ == (State { output: Seq::empty(), ..old(self)@ }),
    {
        self.interpreter.take_stdout()
    }

    /// Scans, parses and runs a program.
    ///
    /// A text with lexical errors is not run: the errors are returned, and
    /// nothing has changed. The tokens of a text without them are run as
    /// `run_tokens` says; the values of their number tokens are the host's.
    pub fn run(&mut self, prog: &str) -> (r: Result<(), LoxError>)
        requires
            old(self).wf(),
        ensures
            final(self).wf(),
            final(self)@.continues(old(self)@),
            scan_spec(prog@).errs.len() > 0 <==> r is Err && r->Err_0 is Scan,
            r is Err && r->Err_0 is Scan ==> final(self)@ == old(self)@ && error_specs(
                r->Err_0->Scan_0.errs@,
            ) == scan_spec(prog@).errs,
            scan_spec(prog@).errs.len() == 0 ==> exists|tokens: Seq<Token>|
                scanned(prog@, tokens) && #[trigger] ran_tokens(
                    old(self)@,
                    tokens,
                    final(self).trace(),
                    final(self)@,
                    r,
                ),
    {
        let scanner = Scanner::new(prog);
        match scanner.scan_tokens(self.interpreter.host()) {
            Ok(tokens) => {
                proof {
                    lemma_scanned_is_parsable(prog@, tokens@);
                }
                let ghost seen = tokens@;
                let r = self.run_tokens(tokens);
                proof {
                    assert(scanned(prog@, seen));
                    assert(ran_tokens(old(self)@, seen, self.trace(), self@, r));
                }
                r
            },
            Err(e) => {
                proof {
                    self.interpreter.lemma_steady();
                }
                Err(LoxError::Scan(e))
            },
        }
    }

    /// Parses and runs the tokens of a program.
    ///
    /// Tokens that are one expression and nothing else are evaluated, and
    /// the value is printed as an expression would be written. Any other
    /// tokens are parsed as a program: with a syntax error nothing is run,
    /// and nothing has changed; without, the statements are run in order, up
    /// to the first that fails.
    pub fn run_tokens(&mut self, tokens: Vec<Token>) -> (r: Result<(), LoxError>)
        requires
            old(self).wf(),
            parsable(tokens@),
        ensures
            final(self).wf(),
            final(self)@.continues(old(self)@),
            lone_expression(tokens@) ==> showed(
                old(self)@,
                tokens@,
                final(self).trace(),
                final(self)@,
                r,
            ),
            !lone_expression(tokens@) && accepted(tokens@) ==> ran(
                old(self)@,
                tokens@,
                final(self).trace(),
                final(self)@,
                r,
            ),
            !lone_expression(tokens@) && !accepted(tokens@) ==> r == Err::<(), LoxError>(
                LoxError::Parse(ParseError::Failed),
            ) && final(self)@ == old(self)@,
            !(r is Err && r->Err_0 is Scan),
    {
        let copy = duplicate_tokens(&tokens);
        match self.show_single(copy) {
            Some(r) => r,
            None => self.run_program(tokens),
        }
    }

    /// Evaluates and shows the expression that the tokens are, where they
    /// are one expression and nothing else.
    fn show_single(&mut self, tokens: Vec<Token>) -> (r: Option<Result<(), LoxError>>)
        requires
            old(self).wf(),
            parsable(tokens@),
        ensures
            final(self).wf(),
            final(self)@.continues(old(self)@),
            r is Some <==> lone_expression(tokens@),
            r is Some ==> showed(
                old(self)@,
                tokens@,
                final(self).trace(),
                final(self)@,
                r->Some_0,
            ),
            r is Some ==> !(r->Some_0 is Err && r->Some_0->Err_0 is Scan),
            r is None ==> final(self)@ == old(self)@,
    {
        proof {
            self.interpreter.lemma_steady();
        }
        match single_expression(tokens) {
            Some(expr) => {
                let r = self.show(&expr);
                proof {
                    reveal(showed);
                    assert(Ok::<crate::expr::ExprV, LineErrorV>(expr@) == spec_expr(
                        tokens@,
                        0,
                        Seq::empty(),
                    ).out);
                    assert(showed(old(self)@, tokens@, self.trace(), self@, r));
                }
                Some(r)
            },
            None => None,
        }
    }

    /// Runs the program that the tokens are, where they are one without
    /// syntax errors.
    fn run_program(&mut self, tokens: Vec<Token>) -> (r: Result<(), LoxError>)
        requires
            old(self).wf(),
            parsable(tokens@),
        ensures
            final(self).wf(),
            final(self)@.continues(old(self)@),
            accepted(tokens@) ==> ran(old(self)@, tokens@, final(self).trace(), final(self)@, r),
            !accepted(tokens@) ==> r == Err::<(), LoxError>(LoxError::Parse(ParseError::Failed))
                && final(self)@ == old(self)@,
            !(r is Err && r->Err_0 is Scan),
    {
        proof {
            self.interpreter.lemma_steady();
        }
        match program(tokens) {
            Ok(stmts) => {
                let r = self.interpreter.interpret(&stmts);
                let out = match r {
                    Ok(()) => Ok(()),
                    Err(e) => Err(LoxError::Interpret(e)),
                };
                proof {
                    reveal(ran);
                    assert(stmts_view(stmts@) == program_of(tokens@));
                    if r is Ok {
                        let unit = r->Ok_0;
                        assert(unit == ());
                    }
                    assert(taken(out) == r);
                    assert(ran(old(self)@, tokens@, self.trace(), self@, out));
                }
                out
            },
            Err(e) => Err(LoxError::Parse(e)),
        }
    }

    /// Evaluates an expression and prints its value as an expression would
    /// be written.
    fn show(&mut self, expr: &Expr) -> (r: Result<(), LoxError>)
        requires
            old(self).wf(),
        ensures
            final(self).wf(),
            final(self)@.continues(old(self)@),
            shows(old(self)@, *expr, final(self).trace()) == (Ran {
                state: final(self)@,
                out: crate::lox::taken(r),
                whole: true,
            }),
            r == reported(crate::lox::taken(r)),
    {
        let r = self.interpreter.evaluate(expr);
        let ghost t0 = self.interpreter.trace();
        match r {
            Ok(value) => {
                let ghost mid = self@;
                let text = self.interpreter.show_value(&value);
                proof {
                    crate::interpreter::lemma_settles(old(self)@, mid, self@);
                }
                self.interpreter.note(Ghost(Trace::Parts(seq![t0, Trace::Text(text)])));
                Ok(())
            },
            Err(e) => {
                self.interpreter.note(Ghost(Trace::Parts(seq![t0, Trace::Nothing])));
                Err(LoxError::Interpret(e))
            },
        }
    }
}

/// What the interpreter gave, for what the driver returned.
pub open spec fn taken(r: Result<(), LoxError>) -> Result<(), Error> {
    match r {
        Ok(()) => Ok(()),
        Err(LoxError::Interpret(e)) => Err(e),
        Err(_) => Err(Error::Exhausted),
    }
}

} // verus!
