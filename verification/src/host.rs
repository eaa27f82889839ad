use crate::number::Number;
use crate::value::Value;
use vstd::prelude::*;

verus! {

/// What the interpreter asks of the machine it runs on: arithmetic on
/// binary64 numbers, their conversion from and to text, and the native
/// functions. The interpreter is proved for every host: no contract here
/// says what a host answers.
pub trait Host {
    /// The number that a numeral of digits, with or without a fraction,
    /// stands for.
    fn parse_number(&self, numeral: &str) -> Number;

    /// The number as `print` shows it.
    fn number_text(&self, n: Number) -> String;

    /// `a + b`.
    fn sum(&self, a: Number, b: Number) -> Number;

    /// `a - b`.
    fn difference(&self, a: Number, b: Number) -> Number;

    /// `a * b`.
    fn product(&self, a: Number, b: Number) -> Number;

    /// `a / b`.
    fn quotient(&self, a: Number, b: Number) -> Number;

    /// Runs the native function `name` on the arguments; the error is a
    /// message.
    fn call_native(&mut self, name: &str, args: &Vec<Value>) -> Result<Value, String>;
}

} // verus!
