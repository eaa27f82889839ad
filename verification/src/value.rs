use crate::class::Class;
use crate::func::Function;
use crate::host::Host;
use crate::instance::InstanceRef;
use crate::number::Number;
use crate::token::Literal;
use vstd::prelude::*;

verus! {

/// A value of a running program.
#[derive(Debug, PartialEq)]
pub enum Value {
    Number(Number),
    String(String),
    Bool(bool),
    Function(Function),
    Class(Class),
    Instance(InstanceRef),
    Nil,
    /// What a variable holds that was declared without a value.
    Undefined,
}

/// Why a value could not be used.
#[derive(Debug, PartialEq)]
pub enum ValueError {
    NotANumber,
}

impl ValueError {
    /// The words of the error.
    pub fn message(&self) -> (r: String)
        ensures
            r@ == "value was not a number"@,
    {
        String::from_str("value was not a number")
    }
}

impl Value {
    /// The value that a literal stands for.
    pub open spec fn of_literal(literal: Literal) -> Value {
        match literal {
            Literal::Number(n) => Value::Number(n),
            Literal::String(s) => Value::String(s),
            Literal::Bool(b) => Value::Bool(b),
            Literal::Nil => Value::Nil,
        }
    }

    /// The value that a literal stands for.
    pub fn from_literal(literal: Literal) -> (r: Value)
        ensures
            r == Value::of_literal(literal),
    {
        match literal {
            Literal::Number(n) => Value::Number(n),
            Literal::String(s) => Value::String(s),
            Literal::Bool(b) => Value::Bool(b),
            Literal::Nil => Value::Nil,
        }
    }

    /// The string value with the characters of `text`.
    pub fn from(text: &str) -> (r: Value)
        ensures
            r is String,
            r->String_0@ == text@,
    {
        Value::String(String::from_str(text))
    }

    /// A copy that is equal to the value; the declaration of a function is
    /// shared.
    pub fn duplicate(&self) -> (r: Value)
        ensures
            r == *self,
    {
        match self {
            Value::Number(n) => Value::Number(*n),
            Value::String(s) => Value::String(s.clone()),
            Value::Bool(b) => Value::Bool(*b),
            Value::Function(f) => Value::Function(f.duplicate()),
            Value::Class(c) => Value::Class(c.duplicate()),
            Value::Instance(i) => Value::Instance(i.duplicate()),
            Value::Nil => Value::Nil,
            Value::Undefined => Value::Undefined,
        }
    }

    /// The function in the value, where it is one.
    pub fn as_function(&self) -> (r: Option<&Function>)
        ensures
            match *self {
                Value::Function(f) => r == Some(&f),
                _ => r is None,
            },
    {
        match self {
            Value::Function(f) => Some(f),
            _ => None,
        }
    }

    /// The function or the class in the value, where it is one: how many
    /// arguments it takes.
    pub fn callable_arity(&self) -> (r: Option<usize>)
        ensures
            match *self {
                Value::Function(f) => r == Some(f.arity_spec() as usize),
                Value::Class(_) => r == Some(0usize),
                _ => r is None,
            },
    {
        match self {
            Value::Function(f) => Some(crate::interpreter::Callable::arity(f)),
            Value::Class(c) => Some(crate::interpreter::Callable::arity(c)),
            _ => None,
        }
    }

    /// Whether the value can be called: a function or a class.
    pub fn is_callable(&self) -> (r: bool)
        ensures
            r == (*self is Function || *self is Class),
    {
        match self {
            Value::Function(_) => true,
            Value::Class(_) => true,
            _ => false,
        }
    }

    /// Truthiness: `false`, `nil` and the undefined value count as false,
    /// every other value as true.
    pub open spec fn truthy_spec(&self) -> bool {
        match self {
            Value::Bool(b) => *b,
            Value::Nil => false,
            Value::Undefined => false,
            _ => true,
        }
    }

    /// Truthiness: `false`, `nil` and the undefined value count as false,
    /// every other value as true.
    pub fn truthy(&self) -> (r: bool)
        ensures
            r == self.truthy_spec(),
    {
        match self {
            Value::Class(_) => true,
            Value::Instance(_) => true,
            Value::Number(_) => true,
            Value::String(_) => true,
            Value::Function(_) => true,
            Value::Bool(b) => *b,
            Value::Nil => false,
            Value::Undefined => false,
        }
    }

    /// What `!` makes of the value: the opposite of its truthiness.
    pub fn negated(&self) -> (r: Value)
        ensures
            r == Value::Bool(!self.truthy_spec()),
    {
        Value::Bool(!self.truthy())
    }

    /// What `print` writes for the value, but for a number, whose text the
    /// host makes.
    pub open spec fn text_spec(&self) -> Seq<char> {
        match self {
            Value::Number(_) => Seq::empty(),
            Value::String(s) => s@,
            Value::Bool(b) => if *b {
                "true"@
            } else {
                "false"@
            },
            Value::Nil => "nil"@,
            Value::Undefined => "undefined"@,
            Value::Function(f) => f.text_spec(),
            Value::Class(c) => c.name@,
            Value::Instance(i) => i.class.name@ + " instance"@,
        }
    }

    /// What `print` writes for the value. The text of a number is the one
    /// that the host gives for it.
    pub fn to_lox<H: Host>(&self, host: &H) -> (r: String)
        ensures
            !(*self is Number) ==> r@ == self.text_spec(),
    {
        match self {
            Value::Number(n) => host.number_text(*n),
            Value::String(s) => s.clone(),
            Value::Bool(b) => if *b {
                String::from_str("true")
            } else {
                String::from_str("false")
            },
            Value::Nil => String::from_str("nil"),
            Value::Undefined => String::from_str("undefined"),
            Value::Function(f) => f.to_text(),
            Value::Class(c) => c.name.clone(),
            Value::Instance(i) => {
                let mut s = i.class.name.clone();
                s.append(" instance");
                s
            },
        }
    }

    /// The value as an expression would be written: like `text_spec`, with a
    /// string between double quotes.
    pub open spec fn display_spec(&self) -> Seq<char> {
        match self {
            Value::String(s) => "\""@ + s@ + "\""@,
            _ => self.text_spec(),
        }
    }

    /// The value as an expression would be written: what `print` writes,
    /// with a string between double quotes.
    pub fn display<H: Host>(&self, host: &H) -> (r: String)
        ensures
            !(*self is Number) ==> r@ == self.display_spec(),
    {
        match self {
            Value::String(s) => {
                let mut t = String::from_str("\"");
                t.append(s.as_str());
                t.append("\"");
                t
            },
            _ => self.to_lox(host),
        }
    }

    /// Equality as `==` of the language has it: values of different kinds
    /// are never equal; numbers are compared as IEEE-754 says, strings by
    /// their characters, functions by their declarations, classes by
    /// declaration, instances by identity.
    pub open spec fn equals_spec(&self, other: &Value) -> bool
        decreases *self,
    {
        match (*self, *other) {
            (Value::Number(a), Value::Number(b)) => a.equals_spec(&b),
            (Value::String(a), Value::String(b)) => a@ == b@,
            (Value::Bool(a), Value::Bool(b)) => a == b,
            (Value::Function(a), Value::Function(b)) => a.same_spec(&b),
            (Value::Class(a), Value::Class(b)) => a.same_spec(&b),
            (Value::Instance(a), Value::Instance(b)) => a.id == b.id,
            (Value::Nil, Value::Nil) => true,
            (Value::Undefined, Value::Undefined) => true,
            _ => false,
        }
    }

    /// Equality as `==` of the language has it.
    pub fn equals(&self, other: &Value) -> (r: bool)
        ensures
            r == self.equals_spec(other),
        decreases *self,
    {
        match (self, other) {
            (Value::Number(a), Value::Number(b)) => a.equals(b),
            (Value::String(a), Value::String(b)) => *a == *b,
            (Value::Bool(a), Value::Bool(b)) => *a == *b,
            (Value::Function(a), Value::Function(b)) => a.same(b),
            (Value::Class(a), Value::Class(b)) => a.same(b),
            (Value::Instance(a), Value::Instance(b)) => a.id == b.id,
            (Value::Nil, Value::Nil) => true,
            (Value::Undefined, Value::Undefined) => true,
            _ => false,
        }
    }
}

} // verus!
