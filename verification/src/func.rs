use crate::alike::{declaration_alike, same_declaration};
use crate::env::{EnvError, EnvRef};
use crate::interpreter::Error;
use crate::stmt::FunctionStmt;
use std::rc::Rc;
use vstd::prelude::*;

verus! {

/// Why a call failed.
#[derive(Debug, PartialEq)]
pub enum CallableError {
    /// A native function failed, with these words.
    Generic(String),
    /// The body of the function failed.
    Call(Box<Error>),
    /// The scope of the call could not be set up.
    Env(EnvError),
}

/// A function written in Lox: its declaration and the scope it was declared
/// in.
#[derive(Debug, PartialEq)]
pub struct LoxFunction {
    pub stmt: Rc<FunctionStmt>,
    pub closure: EnvRef,
}

/// A function that the host provides under a name.
#[derive(Debug, PartialEq)]
pub struct NativeFunction {
    pub name: String,
    pub arity: usize,
}

/// A function value.
#[derive(Debug, PartialEq)]
pub enum Function {
    Native(NativeFunction),
    LoxFunction(LoxFunction),
}

/// Another pointer to a shared value, with `Rc::clone`, which copies the
/// pointer and not the value.
#[verifier::external_body]
pub(crate) fn share<T>(rc: &Rc<T>) -> (r: Rc<T>)
    ensures
        r == *rc,
{
    Rc::clone(rc)
}

impl Function {
    /// The number of arguments that a call must hand over.
    pub open spec fn arity_spec(&self) -> nat {
        match self {
            Function::Native(n) => n.arity as nat,
            Function::LoxFunction(f) => f.stmt.params@.len(),
        }
    }

    /// What `print` writes for the function.
    pub open spec fn text_spec(&self) -> Seq<char> {
        match self {
            Function::Native(n) => "<native fn "@ + n.name@ + ">"@,
            Function::LoxFunction(f) => "<fn "@ + f.stmt.name.lexeme@ + ">"@,
        }
    }

    /// What `print` writes for the function.
    pub fn to_text(&self) -> (r: String)
        ensures
            r@ == self.text_spec(),
    {
        match self {
            Function::Native(n) => {
                let mut s = String::from_str("<native fn ");
                s.append(n.name.as_str());
                s.append(">");
                s
            },
            Function::LoxFunction(f) => {
                let mut s = String::from_str("<fn ");
                s.append(f.stmt.name.lexeme.as_str());
                s.append(">");
                s
            },
        }
    }

    /// Whether both are the same function: natives of one name, or functions
    /// whose declarations are alike, in whatever scope they were declared.
    pub open spec fn same_spec(&self, other: &Function) -> bool
        decreases *self,
    {
        match (*self, *other) {
            (Function::Native(a), Function::Native(b)) => a.name@ == b.name@,
            (Function::LoxFunction(a), Function::LoxFunction(b)) => declaration_alike(
                *a.stmt,
                *b.stmt,
            ),
            _ => false,
        }
    }

    /// Whether both are the same function.
    pub fn same(&self, other: &Function) -> (r: bool)
        ensures
            r == self.same_spec(other),
        decreases *self,
    {
        match (self, other) {
            (Function::Native(a), Function::Native(b)) => a.name == b.name,
            (Function::LoxFunction(a), Function::LoxFunction(b)) => same_declaration(
                &a.stmt,
                &b.stmt,
            ),
            _ => false,
        }
    }

    /// A copy that is equal to the function; the declaration is shared.
    pub fn duplicate(&self) -> (r: Function)
        ensures
            r == *self,
    {
        match self {
            Function::Native(n) => Function::Native(
                NativeFunction { name: n.name.clone(), arity: n.arity },
            ),
            Function::LoxFunction(f) => Function::LoxFunction(
                LoxFunction { stmt: share(&f.stmt), closure: f.closure },
            ),
        }
    }
}

} // verus!
