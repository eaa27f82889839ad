use crate::host::Host;
use crate::text::{chars_of, decimal, decimal_string, join_with, joined, string_of_range};
use crate::token::{word_type, Lexeme, Literal, Token, TokenType};
use vstd::prelude::*;

verus! {

/// A lexical error and the line it was found on.
#[derive(Debug, PartialEq)]
pub struct LineError {
    pub line: usize,
    pub msg: String,
}

impl LineError {
    /// The words of the error.
    pub open spec fn message_spec(&self) -> Seq<char> {
        "line: "@ + decimal(self.line as nat) + ": "@ + self.msg@
    }

    /// The words of the error.
    pub fn message(&self) -> (r: String)
        ensures
            r@ == self.message_spec(),
    {
        let mut s = String::from_str("line: ");
        let line = decimal_string(self.line);
        s.append(line.as_str());
        s.append(": ");
        s.append(self.msg.as_str());
        s
    }
}

/// The lexical errors of one source text, in the order they were found.
#[derive(Debug, PartialEq)]
pub struct ScanError {
    pub errs: Vec<LineError>,
}

impl ScanError {
    /// The words of every error, one error a line.
    pub open spec fn message_spec(&self) -> Seq<char> {
        joined(Seq::new(self.errs@.len(), |i: int| self.errs@[i].message_spec()), "\n"@)
    }

    /// The words of every error, one error a line.
    pub fn message(&self) -> (r: String)
        ensures
            r@ == self.message_spec(),
    {
        let mut lines: Vec<String> = Vec::new();
        let mut i: usize = 0;
        while i < self.errs.len()
            invariant
                i <= self.errs@.len(),
                lines@.len() == i,
                forall|k: int| 0 <= k < i ==> (#[trigger] lines@[k])@ == self.errs@[k].message_spec(),
            decreases self.errs@.len() - i,
        {
            lines.push(self.errs[i].message());
            i = i + 1;
        }
        assert(crate::text::views_of(lines@) =~= Seq::new(
            self.errs@.len(),
            |i: int| self.errs@[i].message_spec(),
        ));
        join_with(&lines, "\n")
    }
}

/// What the scanner states of a token: its kind, its text and its line.
pub struct TokenSpec {
    pub typ: TokenType,
    pub lexeme: Seq<char>,
    pub line: usize,
}

/// What the scanner states of an error: its line and its words.
pub struct ErrorSpec {
    pub line: usize,
    pub msg: Seq<char>,
}

/// What one step of the scanner yields.
pub enum Lexed {
    Token(TokenSpec),
    Nothing,
    Error(ErrorSpec),
}

/// One step of the scanner: where it stops, the line it is on then, and what
/// it yields.
pub struct Step {
    pub next: int,
    pub line: usize,
    pub out: Lexed,
}

/// Everything that a scan yields.
pub struct Scanned {
    pub tokens: Seq<TokenSpec>,
    pub errs: Seq<ErrorSpec>,
}

/// Whether the character is a decimal digit.
pub open spec fn is_digit(c: char) -> bool {
    '0' <= c <= '9'
}

/// Whether the character is a letter of the basic alphabet or an
/// underscore.
pub open spec fn is_alpha(c: char) -> bool {
    ('a' <= c <= 'z') || ('A' <= c <= 'Z') || c == '_'
}

/// Whether the character may stand inside a word.
pub open spec fn is_alpha_numeric(c: char) -> bool {
    is_alpha(c) || is_digit(c)
}

/// The line after `line`. A counter that is full stays as it is.
pub open spec fn line_after(line: usize) -> usize {
    if line < usize::MAX {
        (line + 1) as usize
    } else {
        line
    }
}

/// The line reached from `line` over the characters `src[from..to]`.
pub open spec fn line_over(src: Seq<char>, from: int, to: int, line: usize) -> usize
    decreases to - from,
{
    if from >= to || from < 0 || to > src.len() {
        line
    } else if src[to - 1] == '\n' {
        line_after(line_over(src, from, to - 1, line))
    } else {
        line_over(src, from, to - 1, line)
    }
}

/// The first place from `i` on that holds no digit.
pub open spec fn digits_end(src: Seq<char>, i: int) -> int
    decreases src.len() - i,
{
    if 0 <= i < src.len() && is_digit(src[i]) {
        digits_end(src, i + 1)
    } else {
        i
    }
}

/// The first place from `i` on that holds neither letter, digit nor
/// underscore.
pub open spec fn word_end(src: Seq<char>, i: int) -> int
    decreases src.len() - i,
{
    if 0 <= i < src.len() && is_alpha_numeric(src[i]) {
        word_end(src, i + 1)
    } else {
        i
    }
}

/// The first place from `i` on that holds a newline, or the end.
pub open spec fn comment_end(src: Seq<char>, i: int) -> int
    decreases src.len() - i,
{
    if 0 <= i < src.len() && src[i] != '\n' {
        comment_end(src, i + 1)
    } else {
        i
    }
}

/// The first place from `i` on that holds a double quote, or the end.
pub open spec fn quote_at(src: Seq<char>, i: int) -> int
    decreases src.len() - i,
{
    if 0 <= i < src.len() && src[i] != '"' {
        quote_at(src, i + 1)
    } else {
        i
    }
}

/// Where the numeral that starts at `p` ends: digits, and a fraction where a
/// dot with a digit behind it follows.
pub open spec fn number_end(src: Seq<char>, p: int) -> int {
    let whole = digits_end(src, p + 1);
    if whole + 1 < src.len() && src[whole] == '.' && is_digit(src[whole + 1]) {
        digits_end(src, whole + 1)
    } else {
        whole
    }
}

/// The step that yields the token of kind `typ` made of `src[p..next]`.
pub open spec fn token_step(src: Seq<char>, p: int, next: int, line: usize, typ: TokenType) -> Step {
    Step { next, line, out: Lexed::Token(TokenSpec { typ, lexeme: src.subrange(p, next), line }) }
}

/// The step for an operator that `=` may follow: `wide` with it, `narrow`
/// without.
pub open spec fn pair_step(
    src: Seq<char>,
    p: int,
    line: usize,
    follow: char,
    wide: TokenType,
    narrow: TokenType,
) -> Step {
    if p + 1 < src.len() && src[p + 1] == follow {
        token_step(src, p, p + 2, line, wide)
    } else {
        token_step(src, p, p + 1, line, narrow)
    }
}

/// The scanner's step at place `p` on line `line`.
pub open spec fn scan_step(src: Seq<char>, p: int, line: usize) -> Step
    recommends
        0 <= p < src.len(),
{
    let c = src[p];
    if c == '(' {
        token_step(src, p, p + 1, line, TokenType::LeftParen)
    } else if c == ')' {
        token_step(src, p, p + 1, line, TokenType::RightParen)
    } else if c == '{' {
        token_step(src, p, p + 1, line, TokenType::LeftBrace)
    } else if c == '}' {
        token_step(src, p, p + 1, line, TokenType::RightBrace)
    } else if c == ',' {
        token_step(src, p, p + 1, line, TokenType::Comma)
    } else if c == '.' {
        token_step(src, p, p + 1, line, TokenType::Dot)
    } else if c == '-' {
        token_step(src, p, p + 1, line, TokenType::Minus)
    } else if c == '+' {
        token_step(src, p, p + 1, line, TokenType::Plus)
    } else if c == ';' {
        token_step(src, p, p + 1, line, TokenType::Semicolon)
    } else if c == '*' {
        token_step(src, p, p + 1, line, TokenType::Star)
    } else if c == '!' {
        pair_step(src, p, line, '=', TokenType::BangEqual, TokenType::Bang)
    } else if c == '=' {
        pair_step(src, p, line, '=', TokenType::EqualEqual, TokenType::Equal)
    } else if c == '<' {
        pair_step(src, p, line, '=', TokenType::LessEqual, TokenType::Less)
    } else if c == '>' {
        pair_step(src, p, line, '=', TokenType::GreaterEqual, TokenType::Greater)
    } else if c == '/' {
        if p + 1 < src.len() && src[p + 1] == '/' {
            Step { next: comment_end(src, p + 2), line, out: Lexed::Nothing }
        } else {
            token_step(src, p, p + 1, line, TokenType::Slash)
        }
    } else if c == '\n' {
        Step { next: p + 1, line: line_after(line), out: Lexed::Nothing }
    } else if c == ' ' || c == '\r' || c == '\t' {
        Step { next: p + 1, line, out: Lexed::Nothing }
    } else if c == '"' {
        let q = quote_at(src, p + 1);
        let at = line_over(src, p + 1, q, line);
        if q >= src.len() {
            Step {
                next: q,
                line: at,
                out: Lexed::Error(ErrorSpec { line: at, msg: "unterminated string"@ }),
            }
        } else {
            Step {
                next: q + 1,
                line: at,
                out: Lexed::Token(
                    TokenSpec { typ: TokenType::String, lexeme: src.subrange(p + 1, q), line: at },
                ),
            }
        }
    } else if is_digit(c) {
        token_step(src, p, number_end(src, p), line, TokenType::Number)
    } else if is_alpha(c) {
        let e = word_end(src, p + 1);
        token_step(src, p, e, line, word_type(src.subrange(p, e)))
    } else {
        Step { next: p + 1, line, out: Lexed::Error(ErrorSpec { line, msg: "unexpected char."@ }) }
    }
}

/// What the scan yields in the end when it stands at place `p` on line
/// `line` and has yielded `done` so far: it takes step after step to the end
/// of the text and closes with the end-of-file token.
pub open spec fn scan_rest(src: Seq<char>, p: int, line: usize, done: Scanned) -> Scanned
    decreases src.len() - p,
{
    if p < 0 || p >= src.len() {
        Scanned {
            tokens: done.tokens.push(TokenSpec { typ: TokenType::Eof, lexeme: Seq::empty(), line }),
            errs: done.errs,
        }
    } else {
        let step = scan_step(src, p, line);
        let more = match step.out {
            Lexed::Token(t) => Scanned { tokens: done.tokens.push(t), errs: done.errs },
            Lexed::Nothing => done,
            Lexed::Error(e) => Scanned { tokens: done.tokens, errs: done.errs.push(e) },
        };
        if p < step.next <= src.len() {
            scan_rest(src, step.next, step.line, more)
        } else {
            more
        }
    }
}

/// What the scan of a whole text yields.
pub open spec fn scan_spec(src: Seq<char>) -> Scanned {
    scan_rest(src, 0, 1, Scanned { tokens: Seq::empty(), errs: Seq::empty() })
}

/// What the scanner states of a token that it made.
pub open spec fn token_spec(t: Token) -> TokenSpec {
    TokenSpec { typ: t.typ, lexeme: t.lexeme@, line: t.line }
}

/// Whether the token carries the literal that its kind asks for: a string
/// token its text, a number token a number, any other token none.
pub open spec fn literal_fits(t: Token) -> bool {
    match t.typ {
        TokenType::String => t.literal is Some && t.literal->0 is String
            && t.literal->0->String_0@ == t.lexeme@,
        TokenType::Number => t.literal is Some && t.literal->0 is Number,
        _ => t.literal is None,
    }
}

/// What the scanner states of each of the tokens, in order.
pub open spec fn token_specs(tokens: Seq<Token>) -> Seq<TokenSpec> {
    Seq::new(tokens.len(), |i: int| token_spec(tokens[i]))
}

/// What the scanner states of each of the errors, in order.
pub open spec fn error_specs(errs: Seq<LineError>) -> Seq<ErrorSpec> {
    Seq::new(errs.len(), |i: int| ErrorSpec { line: errs[i].line, msg: errs[i].msg@ })
}

/// Every step moves on, and stays inside the text.
pub proof fn lemma_step_advances(src: Seq<char>, p: int, line: usize)
    requires
        0 <= p < src.len(),
    ensures
        p < scan_step(src, p, line).next <= src.len(),
{
    lemma_digits_end(src, p + 1);
    let whole = digits_end(src, p + 1);
    if whole + 1 < src.len() {
        lemma_digits_end(src, whole + 1);
    }
    lemma_word_end(src, p + 1);
    if p + 2 <= src.len() {
        lemma_comment_end(src, p + 2);
    }
    lemma_quote_at(src, p + 1);
}

proof fn lemma_digits_end(src: Seq<char>, i: int)
    requires
        0 <= i <= src.len(),
    ensures
        i <= digits_end(src, i) <= src.len(),
    decreases src.len() - i,
{
    if i < src.len() && is_digit(src[i]) {
        lemma_digits_end(src, i + 1);
    }
}

proof fn lemma_word_end(src: Seq<char>, i: int)
    requires
        0 <= i <= src.len(),
    ensures
        i <= word_end(src, i) <= src.len(),
    decreases src.len() - i,
{
    if i < src.len() && is_alpha_numeric(src[i]) {
        lemma_word_end(src, i + 1);
    }
}

proof fn lemma_comment_end(src: Seq<char>, i: int)
    requires
        0 <= i <= src.len(),
    ensures
        i <= comment_end(src, i) <= src.len(),
    decreases src.len() - i,
{
    if i < src.len() && src[i] != '\n' {
        lemma_comment_end(src, i + 1);
    }
}

proof fn lemma_quote_at(src: Seq<char>, i: int)
    requires
        0 <= i <= src.len(),
    ensures
        i <= quote_at(src, i) <= src.len(),
        quote_at(src, i) < src.len() ==> src[quote_at(src, i)] == '"',
    decreases src.len() - i,
{
    if i < src.len() && src[i] != '"' {
        lemma_quote_at(src, i + 1);
    }
}

proof fn lemma_digits_are_digits(src: Seq<char>, i: int, k: int)
    requires
        0 <= i <= k < digits_end(src, i),
        i <= src.len(),
    ensures
        k < src.len(),
        is_digit(src[k]),
    decreases src.len() - i,
{
    if i < src.len() && is_digit(src[i]) {
        if k > i {
            lemma_digits_are_digits(src, i + 1, k);
        }
    }
}

proof fn lemma_word_is_word(src: Seq<char>, i: int, k: int)
    requires
        0 <= i <= k < word_end(src, i),
        i <= src.len(),
    ensures
        k < src.len(),
        is_alpha_numeric(src[k]),
    decreases src.len() - i,
{
    if i < src.len() && is_alpha_numeric(src[i]) {
        if k > i {
            lemma_word_is_word(src, i + 1, k);
        }
    }
}

proof fn lemma_comment_has_no_newline(src: Seq<char>, i: int, k: int)
    requires
        0 <= i <= k < comment_end(src, i),
        i <= src.len(),
    ensures
        k < src.len(),
        src[k] != '\n',
    decreases src.len() - i,
{
    if i < src.len() && src[i] != '\n' {
        if k > i {
            lemma_comment_has_no_newline(src, i + 1, k);
        }
    }
}

/// Counting lines over a stretch is counting over its two parts in turn.
proof fn lemma_line_split(src: Seq<char>, a: int, b: int, c: int, line: usize)
    requires
        0 <= a <= b <= c <= src.len(),
    ensures
        line_over(src, a, c, line) == line_over(src, b, c, line_over(src, a, b, line)),
    decreases c - b,
{
    if c > b {
        lemma_line_split(src, a, b, c - 1, line);
    }
}

/// A stretch without a newline leaves the line as it is.
proof fn lemma_line_stays(src: Seq<char>, a: int, b: int, line: usize)
    requires
        0 <= a <= b <= src.len(),
        forall|k: int| a <= k < b ==> src[k] != '\n',
    ensures
        line_over(src, a, b, line) == line,
    decreases b - a,
{
    if b > a {
        lemma_line_stays(src, a, b - 1, line);
    }
}

/// The line after a step is the line before it, moved on over the
/// characters that the step passed.
proof fn lemma_step_line(src: Seq<char>, p: int, line: usize)
    requires
        0 <= p < src.len(),
    ensures
        scan_step(src, p, line).line == line_over(src, p, scan_step(src, p, line).next, line),
{
    let c = src[p];
    let step = scan_step(src, p, line);
    lemma_step_advances(src, p, line);
    if c == '\n' {
        assert(line_over(src, p, p, line) == line);
    } else if c == '"' {
        let q = quote_at(src, p + 1);
        lemma_quote_at(src, p + 1);
        lemma_line_stays(src, p, p + 1, line);
        lemma_line_split(src, p, p + 1, q, line);
        if q < src.len() {
            let at = line_over(src, p + 1, q, line);
            lemma_line_stays(src, q, q + 1, at);
            lemma_line_split(src, p, q, q + 1, line);
        }
    } else if c == '/' && p + 1 < src.len() && src[p + 1] == '/' {
        let e = comment_end(src, p + 2);
        assert forall|k: int| p <= k < e implies src[k] != '\n' by {
            if k >= p + 2 {
                lemma_comment_has_no_newline(src, p + 2, k);
            }
        }
        lemma_line_stays(src, p, e, line);
    } else if is_digit(c) {
        let whole = digits_end(src, p + 1);
        let e = number_end(src, p);
        lemma_digits_end(src, p + 1);
        assert forall|k: int| p <= k < e implies src[k] != '\n' by {
            if p < k < whole {
                lemma_digits_are_digits(src, p + 1, k);
            } else if k > whole {
                lemma_digits_are_digits(src, whole + 1, k);
            }
        }
        lemma_line_stays(src, p, e, line);
    } else if is_alpha(c) {
        let e = word_end(src, p + 1);
        assert forall|k: int| p <= k < e implies src[k] != '\n' by {
            if k > p {
                lemma_word_is_word(src, p + 1, k);
            }
        }
        lemma_line_stays(src, p, e, line);
    } else {
        assert(step.next <= p + 2);
        lemma_line_stays(src, p, step.next, line);
    }
}

proof fn lemma_rest_ends_with_eof(src: Seq<char>, p: int, line: usize, done: Scanned)
    requires
        0 <= p <= src.len(),
    ensures
        scan_rest(src, p, line, done).tokens.len() > 0,
        scan_rest(src, p, line, done).tokens.last() == (TokenSpec {
            typ: TokenType::Eof,
            lexeme: Seq::empty(),
            line: line_over(src, p, src.len() as int, line),
        }),
    decreases src.len() - p,
{
    if p < src.len() {
        let step = scan_step(src, p, line);
        let more = match step.out {
            Lexed::Token(t) => Scanned { tokens: done.tokens.push(t), errs: done.errs },
            Lexed::Nothing => done,
            Lexed::Error(e) => Scanned { tokens: done.tokens, errs: done.errs.push(e) },
        };
        lemma_step_advances(src, p, line);
        lemma_step_line(src, p, line);
        lemma_rest_ends_with_eof(src, step.next, step.line, more);
        lemma_line_split(src, p, step.next, src.len() as int, line);
    }
}

/// Whatever the text, the tokens of its scan end with the end-of-file token,
/// and that token stands on the line of the text's end: line 1 moved on by
/// one for every newline of the text.
pub proof fn lemma_scan_ends_with_eof(src: Seq<char>)
    ensures
        scan_spec(src).tokens.len() > 0,
        scan_spec(src).tokens.last() == (TokenSpec {
            typ: TokenType::Eof,
            lexeme: Seq::empty(),
            line: line_over(src, 0, src.len() as int, 1),
        }),
{
    lemma_rest_ends_with_eof(src, 0, 1, Scanned { tokens: Seq::empty(), errs: Seq::empty() });
}

/// No step yields the end-of-file token.
proof fn lemma_step_yields_no_eof(src: Seq<char>, p: int, line: usize)
    requires
        0 <= p < src.len(),
    ensures
        scan_step(src, p, line).out is Token ==> scan_step(src, p, line).out->Token_0.typ
            != TokenType::Eof,
{
}

proof fn lemma_rest_has_one_eof(src: Seq<char>, p: int, line: usize, done: Scanned)
    requires
        0 <= p <= src.len(),
        forall|i: int| 0 <= i < done.tokens.len() ==> (#[trigger] done.tokens[i]).typ
            != TokenType::Eof,
    ensures
        forall|i: int|
            0 <= i < scan_rest(src, p, line, done).tokens.len() - 1 ==> (#[trigger] scan_rest(
                src,
                p,
                line,
                done,
            ).tokens[i]).typ != TokenType::Eof,
    decreases src.len() - p,
{
    if p < src.len() {
        let step = scan_step(src, p, line);
        let more = match step.out {
            Lexed::Token(t) => Scanned { tokens: done.tokens.push(t), errs: done.errs },
            Lexed::Nothing => done,
            Lexed::Error(e) => Scanned { tokens: done.tokens, errs: done.errs.push(e) },
        };
        lemma_step_advances(src, p, line);
        lemma_step_yields_no_eof(src, p, line);
        lemma_rest_has_one_eof(src, step.next, step.line, more);
    }
}

/// Whatever the text, the end-of-file token is the last token of its scan
/// and no other.
pub proof fn lemma_scan_has_one_eof(src: Seq<char>)
    ensures
        forall|i: int|
            0 <= i < scan_spec(src).tokens.len() - 1 ==> (#[trigger] scan_spec(src).tokens[i]).typ
                != TokenType::Eof,
{
    lemma_rest_has_one_eof(src, 0, 1, Scanned { tokens: Seq::empty(), errs: Seq::empty() });
}

/// Turns a source text into tokens.
pub struct Scanner {
    tokens: Vec<Token>,
    chars: Vec<char>,
    start: usize,
    current: usize,
    line: usize,
    errs: Vec<LineError>,
}

impl Scanner {
    /// The text that the scanner was made for.
    pub closed spec fn source(&self) -> Seq<char> {
        self.chars@
    }

    /// Whether the scanner stands at the start of its text, with nothing
    /// scanned yet.
    pub closed spec fn fresh(&self) -> bool {
        &&& self.tokens@.len() == 0
        &&& self.errs@.len() == 0
        &&& self.start == 0
        &&& self.current == 0
        &&& self.line == 1
    }

    /// What has been yielded so far.
    spec fn done(&self) -> Scanned {
        Scanned { tokens: token_specs(self.tokens@), errs: error_specs(self.errs@) }
    }

    /// The scanner stands inside its text, and what it has yielded and what
    /// is left to scan make up the scan of the whole text.
    spec fn inv(&self) -> bool {
        &&& self.current <= self.chars@.len()
        &&& forall|i: int| 0 <= i < self.tokens@.len() ==> literal_fits(#[trigger] self.tokens@[i])
    }

    /// A scanner at the start of `source`.
    pub fn new(source: &str) -> (r: Scanner)
        ensures
            r.source() == source@,
            r.fresh(),
    {
        Scanner {
            tokens: Vec::new(),
            chars: chars_of(source),
            start: 0,
            current: 0,
            line: 1,
            errs: Vec::new(),
        }
    }

    /// Scans the whole text. The tokens are returned where no error was
    /// found, with the end-of-file token last; else every error that was
    /// found. The value of a number token is the one that the host gives for
    /// its numeral.
    pub fn scan_tokens<H: Host>(self, host: &H) -> (r: Result<Vec<Token>, ScanError>)
        requires
            self.fresh(),
        ensures
            scan_spec(self.source()).errs.len() == 0 ==> r is Ok && token_specs(r->Ok_0@)
                == scan_spec(self.source()).tokens && forall|i: int|
                0 <= i < r->Ok_0@.len() ==> literal_fits(#[trigger] r->Ok_0@[i]),
            scan_spec(self.source()).errs.len() > 0 ==> r is Err && error_specs(r->Err_0.errs@)
                == scan_spec(self.source()).errs,
    {
        let mut scanner = self;
        let ghost src = scanner.chars@;
        assert(scanner.done().tokens =~= Seq::empty());
        assert(scanner.done().errs =~= Seq::empty());
        while !scanner.at_end()
            invariant
                scanner.inv(),
                scanner.chars@ == src,
                scan_rest(src, scanner.current as int, scanner.line, scanner.done()) == scan_spec(
                    src,
                ),
            decreases scanner.chars@.len() - scanner.current,
        {
            scanner.start = scanner.current;
            proof {
                lemma_step_advances(src, scanner.current as int, scanner.line);
            }
            scanner.scan_token(host);
        }
        let ghost before = scanner.done();
        scanner.add_token_lexeme(TokenType::Eof, Lexeme::empty());
        proof {
            assert(scanner.done().tokens =~= before.tokens.push(
                TokenSpec { typ: TokenType::Eof, lexeme: Seq::empty(), line: scanner.line },
            ));
            assert(scanner.done().errs == before.errs);
        }
        if !scanner.errs.is_empty() {
            Err(ScanError { errs: scanner.errs })
        } else {
            Ok(scanner.tokens)
        }
    }

    /// Takes one step.
    fn scan_token<H: Host>(&mut self, host: &H)
        requires
            old(self).inv(),
            old(self).current < old(self).chars@.len(),
            old(self).start == old(self).current,
        ensures
            final(self).inv(),
            final(self).chars@ == old(self).chars@,
            final(self).current == scan_step(
                old(self).chars@,
                old(self).current as int,
                old(self).line,
            ).next,
            final(self).line == scan_step(
                old(self).chars@,
                old(self).current as int,
                old(self).line,
            ).line,
            final(self).done() == match scan_step(
                old(self).chars@,
                old(self).current as int,
                old(self).line,
            ).out {
                Lexed::Token(t) => Scanned {
                    tokens: old(self).done().tokens.push(t),
                    errs: old(self).done().errs,
                },
                Lexed::Nothing => old(self).done(),
                Lexed::Error(e) => Scanned {
                    tokens: old(self).done().tokens,
                    errs: old(self).done().errs.push(e),
                },
            },
    {
        let ch = self.advance();
        if ch == '(' {
            self.add_token(TokenType::LeftParen);
        } else if ch == ')' {
            self.add_token(TokenType::RightParen);
        } else if ch == '{' {
            self.add_token(TokenType::LeftBrace);
        } else if ch == '}' {
            self.add_token(TokenType::RightBrace);
        } else if ch == ',' {
            self.add_token(TokenType::Comma);
        } else if ch == '.' {
            self.add_token(TokenType::Dot);
        } else if ch == '-' {
            self.add_token(TokenType::Minus);
        } else if ch == '+' {
            self.add_token(TokenType::Plus);
        } else if ch == ';' {
            self.add_token(TokenType::Semicolon);
        } else if ch == '*' {
            self.add_token(TokenType::Star);
        } else if ch == '!' {
            if self.try_match('=') {
                self.add_token(TokenType::BangEqual);
            } else {
                self.add_token(TokenType::Bang);
            }
        } else if ch == '=' {
            if self.try_match('=') {
                self.add_token(TokenType::EqualEqual);
            } else {
                self.add_token(TokenType::Equal);
            }
        } else if ch == '<' {
            if self.try_match('=') {
                self.add_token(TokenType::LessEqual);
            } else {
                self.add_token(TokenType::Less);
            }
        } else if ch == '>' {
            if self.try_match('=') {
                self.add_token(TokenType::GreaterEqual);
            } else {
                self.add_token(TokenType::Greater);
            }
        } else if ch == '/' {
            if self.try_match('/') {
                while !self.at_end() && self.peek() != '\n'
                    invariant
                        self.inv(),
                        self.chars@ == old(self).chars@,
                        self.tokens == old(self).tokens,
                        self.errs == old(self).errs,
                        self.line == old(self).line,
                        old(self).current + 2 <= self.current,
                        comment_end(self.chars@, self.current as int) == comment_end(
                            self.chars@,
                            old(self).current + 2,
                        ),
                    decreases self.chars@.len() - self.current,
                {
                    self.advance();
                }
            } else {
                self.add_token(TokenType::Slash);
            }
        } else if ch == '\n' {
            self.bump_line();
        } else if ch == ' ' || ch == '\r' || ch == '\t' {
        } else if ch == '"' {
            self.string();
        } else if Self::is_digit(ch) {
            self.number(host);
        } else if Self::is_alpha(ch) {
            self.identifier();
        } else {
            self.error("unexpected char.");
        }
        proof {
            let step = scan_step(old(self).chars@, old(self).current as int, old(self).line);
            let before = old(self).done();
            match step.out {
                Lexed::Token(t) => {
                    assert(self.tokens@ =~= old(self).tokens@.push(self.tokens@.last()));
                    assert(self.done().tokens =~= before.tokens.push(t));
                    assert(self.done().errs =~= before.errs);
                },
                Lexed::Nothing => {
                    assert(self.done().tokens =~= before.tokens);
                    assert(self.done().errs =~= before.errs);
                },
                Lexed::Error(e) => {
                    assert(self.done().tokens =~= before.tokens);
                    assert(self.done().errs =~= before.errs.push(e));
                },
            }
        }
    }

    fn bump_line(&mut self)
        ensures
            final(self).line == line_after(old(self).line),
            final(self).tokens == old(self).tokens,
            final(self).errs == old(self).errs,
            final(self).chars == old(self).chars,
            final(self).start == old(self).start,
            final(self).current == old(self).current,
    {
        if self.line < usize::MAX {
            self.line = self.line + 1;
        }
    }

    fn identifier(&mut self)
        requires
            old(self).inv(),
            old(self).start < old(self).current,
            old(self).current == old(self).start + 1,
            is_alpha(old(self).chars@[old(self).start as int]),
        ensures
            final(self).inv(),
            final(self).chars@ == old(self).chars@,
            final(self).line == old(self).line,
            final(self).errs == old(self).errs,
            final(self).current == word_end(old(self).chars@, old(self).current as int),
            final(self).tokens@.len() == old(self).tokens@.len() + 1,
            final(self).tokens@.drop_last() == old(self).tokens@,
            token_spec(final(self).tokens@.last()) == (TokenSpec {
                typ: word_type(
                    old(self).chars@.subrange(old(self).start as int, final(self).current as int),
                ),
                lexeme: old(self).chars@.subrange(
                    old(self).start as int,
                    final(self).current as int,
                ),
                line: old(self).line,
            }),
    {
        while Self::is_alpha_numeric(self.peek())
            invariant
                self.inv(),
                self.chars@ == old(self).chars@,
                self.tokens == old(self).tokens,
                self.errs == old(self).errs,
                self.line == old(self).line,
                self.start == old(self).start,
                old(self).current <= self.current,
                word_end(self.chars@, self.current as int) == word_end(
                    self.chars@,
                    old(self).current as int,
                ),
            decreases self.chars@.len() - self.current,
        {
            self.advance();
        }
        let lexeme = self.lexeme();
        let typ = lexeme.identifier_type();
        proof {
            lemma_word_types();
        }
        self.add_token_lexeme(typ, lexeme);
    }

    fn number<H: Host>(&mut self, host: &H)
        requires
            old(self).inv(),
            old(self).current == old(self).start + 1,
        ensures
            final(self).inv(),
            final(self).chars@ == old(self).chars@,
            final(self).line == old(self).line,
            final(self).errs == old(self).errs,
            final(self).current == number_end(old(self).chars@, old(self).start as int),
            final(self).tokens@.len() == old(self).tokens@.len() + 1,
            final(self).tokens@.drop_last() == old(self).tokens@,
            token_spec(final(self).tokens@.last()) == (TokenSpec {
                typ: TokenType::Number,
                lexeme: old(self).chars@.subrange(
                    old(self).start as int,
                    final(self).current as int,
                ),
                line: old(self).line,
            }),
    {
        self.digits();
        if self.peek() == '.' && Self::is_digit(self.peek_next()) {
            self.advance();
            self.digits();
        }
        let lexeme = self.lexeme();
        let literal = Literal::Number(host.parse_number(lexeme.as_str()));
        self.add_token_lexeme_literal(TokenType::Number, lexeme, Some(literal));
    }

    /// Passes over digits.
    fn digits(&mut self)
        requires
            old(self).inv(),
        ensures
            final(self).inv(),
            final(self).chars == old(self).chars,
            final(self).tokens == old(self).tokens,
            final(self).errs == old(self).errs,
            final(self).line == old(self).line,
            final(self).start == old(self).start,
            final(self).current == digits_end(old(self).chars@, old(self).current as int),
            final(self).current >= old(self).current,
    {
        while Self::is_digit(self.peek())
            invariant
                self.inv(),
                self.chars == old(self).chars,
                self.tokens == old(self).tokens,
                self.errs == old(self).errs,
                self.line == old(self).line,
                self.start == old(self).start,
                old(self).current <= self.current,
                digits_end(self.chars@, self.current as int) == digits_end(
                    self.chars@,
                    old(self).current as int,
                ),
            decreases self.chars@.len() - self.current,
        {
            self.advance();
        }
    }

    fn is_alpha_numeric(ch: char) -> (r: bool)
        ensures
            r == is_alpha_numeric(ch),
    {
        Self::is_alpha(ch) || Self::is_digit(ch)
    }

    fn is_alpha(ch: char) -> (r: bool)
        ensures
            r == is_alpha(ch),
    {
        (ch >= 'a' && ch <= 'z') || (ch >= 'A' && ch <= 'Z') || ch == '_'
    }

    fn is_digit(ch: char) -> (r: bool)
        ensures
            r == is_digit(ch),
    {
        ch >= '0' && ch <= '9'
    }

    fn string(&mut self)
        requires
            old(self).inv(),
            old(self).current == old(self).start + 1,
        ensures
            final(self).inv(),
            final(self).chars@ == old(self).chars@,
            ({
                let src = old(self).chars@;
                let q = quote_at(src, old(self).current as int);
                let at = line_over(src, old(self).current as int, q, old(self).line);
                &&& final(self).line == at
                &&& if q >= src.len() {
                    &&& final(self).current == q
                    &&& final(self).tokens == old(self).tokens
                    &&& final(self).errs@.len() == old(self).errs@.len() + 1
                    &&& final(self).errs@.drop_last() == old(self).errs@
                    &&& final(self).errs@.last().line == at
                    &&& final(self).errs@.last().msg@ == "unterminated string"@
                } else {
                    &&& final(self).current == q + 1
                    &&& final(self).errs == old(self).errs
                    &&& final(self).tokens@.len() == old(self).tokens@.len() + 1
                    &&& final(self).tokens@.drop_last() == old(self).tokens@
                    &&& token_spec(final(self).tokens@.last()) == (TokenSpec {
                        typ: TokenType::String,
                        lexeme: src.subrange(old(self).current as int, q),
                        line: at,
                    })
                }
            }),
    {
        while !self.at_end() && self.peek() != '"'
            invariant
                self.inv(),
                self.chars == old(self).chars,
                self.tokens == old(self).tokens,
                self.errs == old(self).errs,
                self.start == old(self).start,
                old(self).current <= self.current,
                quote_at(self.chars@, self.current as int) == quote_at(
                    self.chars@,
                    old(self).current as int,
                ),
                self.line == line_over(
                    self.chars@,
                    old(self).current as int,
                    self.current as int,
                    old(self).line,
                ),
            decreases self.chars@.len() - self.current,
        {
            if self.peek() == '\n' {
                self.bump_line();
            }
            self.advance();
        }
        if self.at_end() {
            self.error("unterminated string");
            return ;
        }
        self.advance();
        let lexeme = self.lexeme_at(self.start + 1, self.current - 1);
        let literal = lexeme.string();
        self.add_token_lexeme_literal(TokenType::String, lexeme, Some(literal));
    }

    /// The character at the scanner's place, or NUL at the end.
    fn peek(&self) -> (r: char)
        requires
            self.current <= self.chars@.len(),
        ensures
            self.current < self.chars@.len() ==> r == self.chars@[self.current as int],
            self.current >= self.chars@.len() ==> r == '\0',
    {
        if self.at_end() {
            '\0'
        } else {
            self.current_char()
        }
    }

    /// The character behind the scanner's place, or NUL where there is none.
    fn peek_next(&self) -> (r: char)
        requires
            self.current <= self.chars@.len(),
        ensures
            self.current + 1 < self.chars@.len() ==> r == self.chars@[self.current + 1],
            self.current + 1 >= self.chars@.len() ==> r == '\0',
    {
        let n = self.chars.len();
        if self.at_end() || self.current + 1 >= n {
            '\0'
        } else {
            self.char_at(self.current + 1)
        }
    }

    /// Passes over the character `ch` where it stands at the scanner's place.
    fn try_match(&mut self, ch: char) -> (r: bool)
        requires
            old(self).current <= old(self).chars@.len(),
        ensures
            r == (old(self).current < old(self).chars@.len() && old(self).chars@[old(
                self,
            ).current as int] == ch),
            r ==> final(self).current == old(self).current + 1,
            !r ==> final(self).current == old(self).current,
            final(self).chars == old(self).chars,
            final(self).tokens == old(self).tokens,
            final(self).errs == old(self).errs,
            final(self).line == old(self).line,
            final(self).start == old(self).start,
    {
        if self.at_end() {
            return false;
        }
        if self.current_char() != ch {
            return false;
        }
        let n = self.chars.len();
        self.current = self.current + 1;
        true
    }

    fn current_char(&self) -> (r: char)
        requires
            self.current < self.chars@.len(),
        ensures
            r == self.chars@[self.current as int],
    {
        self.char_at(self.current)
    }

    fn char_at(&self, pos: usize) -> (r: char)
        requires
            pos < self.chars@.len(),
        ensures
            r == self.chars@[pos as int],
    {
        self.chars[pos]
    }

    /// Records an error on the current line.
    fn error(&mut self, msg: &str)
        ensures
            final(self).chars == old(self).chars,
            final(self).tokens == old(self).tokens,
            final(self).line == old(self).line,
            final(self).start == old(self).start,
            final(self).current == old(self).current,
            final(self).errs@ == old(self).errs@.push(final(self).errs@.last()),
            final(self).errs@.len() == old(self).errs@.len() + 1,
            final(self).errs@.last().line == old(self).line,
            final(self).errs@.last().msg@ == msg@,
    {
        let err = LineError { line: self.line, msg: String::from_str(msg) };
        self.errs.push(err);
    }

    /// Passes over one character and returns it.
    fn advance(&mut self) -> (r: char)
        requires
            old(self).current < old(self).chars@.len(),
        ensures
            r == old(self).chars@[old(self).current as int],
            final(self).current == old(self).current + 1,
            final(self).chars == old(self).chars,
            final(self).tokens == old(self).tokens,
            final(self).errs == old(self).errs,
            final(self).line == old(self).line,
            final(self).start == old(self).start,
    {
        let n = self.chars.len();
        let next = self.chars[self.current];
        self.current = self.current + 1;
        next
    }

    fn add_token(&mut self, typ: TokenType)
        requires
            old(self).inv(),
            old(self).start <= old(self).current,
            typ != TokenType::String,
            typ != TokenType::Number,
        ensures
            final(self).inv(),
            final(self).chars == old(self).chars,
            final(self).errs == old(self).errs,
            final(self).line == old(self).line,
            final(self).start == old(self).start,
            final(self).current == old(self).current,
            final(self).tokens@.len() == old(self).tokens@.len() + 1,
            final(self).tokens@.drop_last() == old(self).tokens@,
            token_spec(final(self).tokens@.last()) == (TokenSpec {
                typ,
                lexeme: old(self).chars@.subrange(
                    old(self).start as int,
                    old(self).current as int,
                ),
                line: old(self).line,
            }),
    {
        let lexeme = self.lexeme();
        self.add_token_lexeme(typ, lexeme);
    }

    fn add_token_lexeme(&mut self, typ: TokenType, lexeme: Lexeme)
        requires
            old(self).inv(),
            typ != TokenType::String,
            typ != TokenType::Number,
        ensures
            final(self).inv(),
            final(self).chars == old(self).chars,
            final(self).errs == old(self).errs,
            final(self).line == old(self).line,
            final(self).start == old(self).start,
            final(self).current == old(self).current,
            final(self).tokens@.len() == old(self).tokens@.len() + 1,
            final(self).tokens@.drop_last() == old(self).tokens@,
            token_spec(final(self).tokens@.last()) == (TokenSpec {
                typ,
                lexeme: lexeme@,
                line: old(self).line,
            }),
    {
        self.add_token_lexeme_literal(typ, lexeme, None);
    }

    fn add_token_lexeme_literal(&mut self, typ: TokenType, lexeme: Lexeme, literal: Option<Literal>)
        requires
            old(self).inv(),
            literal_fits(Token { typ, lexeme, literal, line: old(self).line }),
        ensures
            final(self).inv(),
            final(self).chars == old(self).chars,
            final(self).errs == old(self).errs,
            final(self).line == old(self).line,
            final(self).start == old(self).start,
            final(self).current == old(self).current,
            final(self).tokens@ == old(self).tokens@.push(
                Token { typ, lexeme, literal, line: old(self).line },
            ),
            final(self).tokens@.len() == old(self).tokens@.len() + 1,
            final(self).tokens@.drop_last() == old(self).tokens@,
            token_spec(final(self).tokens@.last()) == (TokenSpec {
                typ,
                lexeme: lexeme@,
                line: old(self).line,
            }),
    {
        let token = Token { typ, lexeme, literal, line: self.line };
        self.tokens.push(token);
        assert(self.tokens@.drop_last() =~= old(self).tokens@);
    }

    /// The text from the start of the token to the scanner's place.
    fn lexeme(&self) -> (r: Lexeme)
        requires
            self.start <= self.current <= self.chars@.len(),
        ensures
            r@ == self.chars@.subrange(self.start as int, self.current as int),
    {
        self.lexeme_at(self.start, self.current)
    }

    fn lexeme_at(&self, start: usize, end: usize) -> (r: Lexeme)
        requires
            start <= end <= self.chars@.len(),
        ensures
            r@ == self.chars@.subrange(start as int, end as int),
    {
        Lexeme(string_of_range(&self.chars, start, end))
    }

    fn at_end(&self) -> (r: bool)
        ensures
            r == (self.current >= self.chars@.len()),
    {
        self.current >= self.chars.len()
    }
}

/// None of the words that are scanned as keywords is the text of a string or
/// a number token.
proof fn lemma_word_types()
    ensures
        forall|w: Seq<char>| #[trigger] word_type(w) != TokenType::String && word_type(w) != TokenType::Number,
{
}

} // verus!
