use rox::host::Host;
use rox::number::Number;
use rox::scanner::{LineError, Scanner};
use rox::token::{Lexeme, Literal, Token, TokenType};
use rox::value::Value;

struct Machine;

impl Host for Machine {
    fn parse_number(&self, numeral: &str) -> Number {
        Number::from_bits(numeral.parse::<f64>().unwrap().to_bits())
    }

    fn number_text(&self, n: Number) -> String {
        f64::from_bits(n.to_bits()).to_string()
    }

    fn sum(&self, a: Number, b: Number) -> Number {
        Number::from_bits((f64::from_bits(a.to_bits()) + f64::from_bits(b.to_bits())).to_bits())
    }

    fn difference(&self, a: Number, b: Number) -> Number {
        Number::from_bits((f64::from_bits(a.to_bits()) - f64::from_bits(b.to_bits())).to_bits())
    }

    fn product(&self, a: Number, b: Number) -> Number {
        Number::from_bits((f64::from_bits(a.to_bits()) * f64::from_bits(b.to_bits())).to_bits())
    }

    fn quotient(&self, a: Number, b: Number) -> Number {
        Number::from_bits((f64::from_bits(a.to_bits()) / f64::from_bits(b.to_bits())).to_bits())
    }

    fn call_native(&mut self, name: &str, _args: &Vec<Value>) -> Result<Value, String> {
        Err(format!("unknown native function '{name}'"))
    }
}

fn number(x: f64) -> Option<Literal> {
    Some(Literal::Number(Number::from_bits(x.to_bits())))
}

fn kinds(prog: &str) -> Vec<TokenType> {
    Scanner::new(prog).scan_tokens(&Machine).unwrap().iter().map(|t| t.typ).collect()
}

#[test]
fn test_tokens() {
    for (prog, ex) in [
        (
            "",
            vec![Token { typ: TokenType::Eof, lexeme: Lexeme::default(), literal: None, line: 1 }],
        ),
        (
            "3",
            vec![
                Token {
                    typ: TokenType::Number,
                    lexeme: Lexeme::from("3"),
                    literal: number(3.0),
                    line: 1,
                },
                Token { typ: TokenType::Eof, lexeme: Lexeme::default(), literal: None, line: 1 },
            ],
        ),
        (
            r#""foo""#,
            vec![
                Token {
                    typ: TokenType::String,
                    lexeme: Lexeme::from("foo"),
                    literal: Some(Literal::String("foo".into())),
                    line: 1,
                },
                Token { typ: TokenType::Eof, lexeme: Lexeme::default(), literal: None, line: 1 },
            ],
        ),
    ] {
        let s = Scanner::new(prog);
        let toks = s.scan_tokens(&Machine).unwrap();
        assert_eq!(toks, ex, "prog '{prog}' produced {toks:#?}");
    }
}

#[test]
fn punctuation_and_operators() {
    assert_eq!(
        kinds("(){},.-+;/* ! != = == < <= > >="),
        vec![
            TokenType::LeftParen, TokenType::RightParen, TokenType::LeftBrace, TokenType::RightBrace, TokenType::Comma, TokenType::Dot, TokenType::Minus, TokenType::Plus, TokenType::Semicolon,
            TokenType::Slash, TokenType::Star, TokenType::Bang, TokenType::BangEqual, TokenType::Equal, TokenType::EqualEqual, TokenType::Less, TokenType::LessEqual, TokenType::Greater,
            TokenType::GreaterEqual, TokenType::Eof
        ]
    );
}

#[test]
fn keywords_and_identifiers() {
    assert_eq!(
        kinds("and class else false for fun if nil or print return super this true var while"),
        vec![
            TokenType::And, TokenType::Class, TokenType::Else, TokenType::False, TokenType::For, TokenType::Fun, TokenType::If, TokenType::Nil, TokenType::Or, TokenType::Print, TokenType::Return, TokenType::Super, TokenType::This, TokenType::True, TokenType::Var,
            TokenType::While, TokenType::Eof
        ]
    );
    assert_eq!(kinds("andy _x x1 classes Fun"), vec![TokenType::Identifier; 5].into_iter().chain([TokenType::Eof]).collect::<Vec<_>>());
    assert_eq!(Lexeme::from("while").identifier_type(), TokenType::While);
    assert_eq!(Lexeme::from("whil").identifier_type(), TokenType::Identifier);
}

#[test]
fn numbers_with_and_without_fraction() {
    let toks = Scanner::new("12.5 7. .5 3.x").scan_tokens(&Machine).unwrap();
    let shown: Vec<(TokenType, String)> =
        toks.iter().map(|t| (t.typ, t.lexeme.as_str().to_string())).collect();
    assert_eq!(
        shown,
        vec![
            (TokenType::Number, "12.5".to_string()),
            (TokenType::Number, "7".to_string()),
            (TokenType::Dot, ".".to_string()),
            (TokenType::Dot, ".".to_string()),
            (TokenType::Number, "5".to_string()),
            (TokenType::Number, "3".to_string()),
            (TokenType::Dot, ".".to_string()),
            (TokenType::Identifier, "x".to_string()),
            (TokenType::Eof, "".to_string()),
        ]
    );
    assert_eq!(toks[0].literal, number(12.5));
    assert_eq!(toks[4].literal, number(5.0));
}

#[test]
fn comments_and_whitespace_yield_nothing() {
    assert_eq!(kinds("// nothing here\n \t\r 1 // one\n/ 2"), vec![TokenType::Number, TokenType::Slash, TokenType::Number, TokenType::Eof]);
}

#[test]
fn the_end_of_file_token_is_last_and_on_the_last_line() {
    for (prog, line) in [("", 1), ("\n", 2), ("a\nb\nc", 3), ("\"two\nlines\"\n// c\n", 4), ("\"open\n\n", 3)] {
        match Scanner::new(prog).scan_tokens(&Machine) {
            Ok(toks) => {
                let last = toks.last().unwrap();
                assert_eq!(last.typ, TokenType::Eof);
                assert_eq!(last.line, line, "{prog:?}");
                assert_eq!(last.lexeme, Lexeme::default());
            }
            Err(e) => {
                assert_eq!(e.errs.last().unwrap().line, line, "{prog:?}");
            }
        }
    }
}

#[test]
fn tokens_carry_their_lines() {
    let toks = Scanner::new("a\n\"x\ny\" b\nc").scan_tokens(&Machine).unwrap();
    let lines: Vec<usize> = toks.iter().map(|t| t.line).collect();
    assert_eq!(lines, vec![1, 3, 3, 4, 4]);
    assert_eq!(toks[1].lexeme, Lexeme::from("x\ny"));
}

#[test]
fn errors_are_collected_with_their_lines() {
    let err = Scanner::new("@ 1\n# \"open").scan_tokens(&Machine).unwrap_err();
    assert_eq!(
        err.errs,
        vec![
            LineError { line: 1, msg: "unexpected char.".to_string() },
            LineError { line: 2, msg: "unexpected char.".to_string() },
            LineError { line: 2, msg: "unterminated string".to_string() },
        ]
    );
    assert_eq!(
        err.message(),
        "line: 1: unexpected char.\nline: 2: unexpected char.\nline: 2: unterminated string"
    );
    assert_eq!(err.errs[0].message(), "line: 1: unexpected char.");
}

#[test]
fn non_ascii_letters_are_not_identifiers() {
    assert!(Scanner::new("é").scan_tokens(&Machine).is_err());
    let toks = Scanner::new("\"é\"").scan_tokens(&Machine).unwrap();
    assert_eq!(toks[0].lexeme, Lexeme::from("é"));
}

#[test]
fn a_token_is_shown_with_kind_text_and_line() {
    let t = Token::new(TokenType::Minus, Lexeme::from("-"), None, 12);
    assert_eq!(t.to_text(), "[Minus - 12]");
    assert_eq!(t.duplicate(), t);
    assert_eq!(TokenType::LeftParen.name(), "LeftParen");
}
