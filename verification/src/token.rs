use crate::number::Number;
use crate::text::{decimal, decimal_string};
use vstd::prelude::*;

verus! {

/// The kinds of token.
#[derive(Clone, Copy, Debug, PartialEq, Eq, Structural)]
pub enum TokenType {
    // one character
    LeftParen,
    RightParen,
    LeftBrace,
    RightBrace,
    Comma,
    Dot,
    Minus,
    Plus,
    Semicolon,
    Slash,
    Star,
    // one or two characters
    Bang,
    BangEqual,
    Equal,
    EqualEqual,
    Greater,
    GreaterEqual,
    Less,
    LessEqual,
    // literals
    Identifier,
    String,
    Number,
    // keywords
    And,
    Class,
    Else,
    False,
    Fun,
    For,
    If,
    Nil,
    Or,
    Print,
    Return,
    Super,
    This,
    True,
    Var,
    While,
    Eof,
}

impl TokenType {
    /// The kind's name as it is written in diagnostics.
    pub open spec fn name_spec(self) -> Seq<char> {
        match self {
            TokenType::LeftParen => "LeftParen"@,
            TokenType::RightParen => "RightParen"@,
            TokenType::LeftBrace => "LeftBrace"@,
            TokenType::RightBrace => "RightBrace"@,
            TokenType::Comma => "Comma"@,
            TokenType::Dot => "Dot"@,
            TokenType::Minus => "Minus"@,
            TokenType::Plus => "Plus"@,
            TokenType::Semicolon => "Semicolon"@,
            TokenType::Slash => "Slash"@,
            TokenType::Star => "Star"@,
            TokenType::Bang => "Bang"@,
            TokenType::BangEqual => "BangEqual"@,
            TokenType::Equal => "Equal"@,
            TokenType::EqualEqual => "EqualEqual"@,
            TokenType::Greater => "Greater"@,
            TokenType::GreaterEqual => "GreaterEqual"@,
            TokenType::Less => "Less"@,
            TokenType::LessEqual => "LessEqual"@,
            TokenType::Identifier => "Identifier"@,
            TokenType::String => "String"@,
            TokenType::Number => "Number"@,
            TokenType::And => "And"@,
            TokenType::Class => "Class"@,
            TokenType::Else => "Else"@,
            TokenType::False => "False"@,
            TokenType::Fun => "Fun"@,
            TokenType::For => "For"@,
            TokenType::If => "If"@,
            TokenType::Nil => "Nil"@,
            TokenType::Or => "Or"@,
            TokenType::Print => "Print"@,
            TokenType::Return => "Return"@,
            TokenType::Super => "Super"@,
            TokenType::This => "This"@,
            TokenType::True => "True"@,
            TokenType::Var => "Var"@,
            TokenType::While => "While"@,
            TokenType::Eof => "Eof"@,
        }
    }

    /// The kind's name as it is written in diagnostics.
    pub fn name(self) -> (r: &'static str)
        ensures
            r@ == self.name_spec(),
    {
        match self {
            TokenType::LeftParen => "LeftParen",
            TokenType::RightParen => "RightParen",
            TokenType::LeftBrace => "LeftBrace",
            TokenType::RightBrace => "RightBrace",
            TokenType::Comma => "Comma",
            TokenType::Dot => "Dot",
            TokenType::Minus => "Minus",
            TokenType::Plus => "Plus",
            TokenType::Semicolon => "Semicolon",
            TokenType::Slash => "Slash",
            TokenType::Star => "Star",
            TokenType::Bang => "Bang",
            TokenType::BangEqual => "BangEqual",
            TokenType::Equal => "Equal",
            TokenType::EqualEqual => "EqualEqual",
            TokenType::Greater => "Greater",
            TokenType::GreaterEqual => "GreaterEqual",
            TokenType::Less => "Less",
            TokenType::LessEqual => "LessEqual",
            TokenType::Identifier => "Identifier",
            TokenType::String => "String",
            TokenType::Number => "Number",
            TokenType::And => "And",
            TokenType::Class => "Class",
            TokenType::Else => "Else",
            TokenType::False => "False",
            TokenType::Fun => "Fun",
            TokenType::For => "For",
            TokenType::If => "If",
            TokenType::Nil => "Nil",
            TokenType::Or => "Or",
            TokenType::Print => "Print",
            TokenType::Return => "Return",
            TokenType::Super => "Super",
            TokenType::This => "This",
            TokenType::True => "True",
            TokenType::Var => "Var",
            TokenType::While => "While",
            TokenType::Eof => "Eof",
        }
    }
}

/// The kind of the token that the characters `word` spell: one of the
/// reserved words, or an identifier.
pub open spec fn word_type(word: Seq<char>) -> TokenType {
    if word == "and"@ {
        TokenType::And
    } else if word == "class"@ {
        TokenType::Class
    } else if word == "else"@ {
        TokenType::Else
    } else if word == "false"@ {
        TokenType::False
    } else if word == "for"@ {
        TokenType::For
    } else if word == "fun"@ {
        TokenType::Fun
    } else if word == "if"@ {
        TokenType::If
    } else if word == "nil"@ {
        TokenType::Nil
    } else if word == "or"@ {
        TokenType::Or
    } else if word == "print"@ {
        TokenType::Print
    } else if word == "return"@ {
        TokenType::Return
    } else if word == "super"@ {
        TokenType::Super
    } else if word == "this"@ {
        TokenType::This
    } else if word == "true"@ {
        TokenType::True
    } else if word == "var"@ {
        TokenType::Var
    } else if word == "while"@ {
        TokenType::While
    } else {
        TokenType::Identifier
    }
}

/// The text of a token as it stands in the source.
#[derive(Clone, Debug, PartialEq, Default)]
pub struct Lexeme(pub String);

impl View for Lexeme {
    type V = Seq<char>;

    open spec fn view(&self) -> Seq<char> {
        self.0@
    }
}

impl Lexeme {
    /// A lexeme with the characters of `text`.
    pub fn from(text: &str) -> (r: Lexeme)
        ensures
            r@ == text@,
    {
        Lexeme(String::from_str(text))
    }

    /// The lexeme without characters.
    pub fn empty() -> (r: Lexeme)
        ensures
            r@ == Seq::<char>::empty(),
    {
        Lexeme(String::new())
    }

    /// The characters.
    pub fn as_str(&self) -> (r: &str)
        ensures
            r@ == self@,
    {
        self.0.as_str()
    }

    /// A copy that is equal to the lexeme.
    pub fn duplicate(&self) -> (r: Lexeme)
        ensures
            r == *self,
    {
        Lexeme(self.0.clone())
    }

    /// The string literal that the lexeme's characters are the content of.
    pub fn string(&self) -> (r: Literal)
        ensures
            r == Literal::String(self.0),
    {
        Literal::String(self.0.clone())
    }

    fn spells(&self, word: &str) -> (r: bool)
        ensures
            r == (self@ == word@),
    {
        let w = String::from_str(word);
        self.0 == w
    }

    /// The kind of token that the lexeme is when it was scanned as a word.
    pub fn identifier_type(&self) -> (r: TokenType)
        ensures
            r == word_type(self@),
    {
        if self.spells("and") {
            TokenType::And
        } else if self.spells("class") {
            TokenType::Class
        } else if self.spells("else") {
            TokenType::Else
        } else if self.spells("false") {
            TokenType::False
        } else if self.spells("for") {
            TokenType::For
        } else if self.spells("fun") {
            TokenType::Fun
        } else if self.spells("if") {
            TokenType::If
        } else if self.spells("nil") {
            TokenType::Nil
        } else if self.spells("or") {
            TokenType::Or
        } else if self.spells("print") {
            TokenType::Print
        } else if self.spells("return") {
            TokenType::Return
        } else if self.spells("super") {
            TokenType::Super
        } else if self.spells("this") {
            TokenType::This
        } else if self.spells("true") {
            TokenType::True
        } else if self.spells("var") {
            TokenType::Var
        } else if self.spells("while") {
            TokenType::While
        } else {
            TokenType::Identifier
        }
    }
}

/// What a literal token stands for.
#[derive(Clone, Debug, PartialEq)]
pub enum Literal {
    Number(Number),
    String(String),
    Bool(bool),
    Nil,
}

impl Literal {
    /// A copy that is equal to the literal.
    pub fn duplicate(&self) -> (r: Literal)
        ensures
            r == *self,
    {
        match self {
            Literal::Number(n) => Literal::Number(*n),
            Literal::String(s) => Literal::String(s.clone()),
            Literal::Bool(b) => Literal::Bool(*b),
            Literal::Nil => Literal::Nil,
        }
    }
}

/// A lexical unit: its kind, its text, what it stands for where it is a
/// literal, and the line it was read on, counted from 1.
#[derive(Clone, Debug, PartialEq)]
pub struct Token {
    pub typ: TokenType,
    pub lexeme: Lexeme,
    pub literal: Option<Literal>,
    pub line: usize,
}

impl Token {
    /// A token of the given parts.
    pub fn new(typ: TokenType, lexeme: Lexeme, literal: Option<Literal>, line: usize) -> (r: Token)
        ensures
            r == (Token { typ, lexeme, literal, line }),
    {
        Token { typ, lexeme, literal, line }
    }

    /// A copy that is equal to the token.
    pub fn duplicate(&self) -> (r: Token)
        ensures
            r == *self,
    {
        let literal = match &self.literal {
            Some(l) => Some(l.duplicate()),
            None => None,
        };
        Token { typ: self.typ, lexeme: self.lexeme.duplicate(), literal, line: self.line }
    }

    /// Whether both tokens have the same kind, text and line.
    pub open spec fn same_spec(&self, other: &Token) -> bool {
        self.typ == other.typ && self.lexeme@ == other.lexeme@ && self.line == other.line
    }

    /// Whether both tokens have the same kind, text and line.
    pub fn same(&self, other: &Token) -> (r: bool)
        ensures
            r == self.same_spec(other),
    {
        self.typ == other.typ && self.lexeme.0 == other.lexeme.0 && self.line == other.line
    }

    /// The token as diagnostics show it: kind, text and line in brackets.
    pub open spec fn text_spec(&self) -> Seq<char> {
        "["@ + self.typ.name_spec() + " "@ + self.lexeme@ + " "@ + decimal(self.line as nat) + "]"@
    }

    /// The token as diagnostics show it: kind, text and line in brackets.
    pub fn to_text(&self) -> (r: String)
        ensures
            r@ == self.text_spec(),
    {
        let mut s = String::from_str("[");
        s.append(self.typ.name());
        s.append(" ");
        s.append(self.lexeme.as_str());
        s.append(" ");
        let line = decimal_string(self.line);
        s.append(line.as_str());
        s.append("]");
        s
    }
}

} // verus!
