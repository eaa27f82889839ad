pub mod alike;
pub mod class;
pub mod env;
pub mod expr;
pub mod func;
pub mod host;
pub mod instance;
pub mod interpreter;
pub mod laws;
pub mod lox;
pub mod number;
pub mod parser;
pub mod resolver;
pub mod roundtrip;
pub mod roundtrip_program;
pub mod scanner;
pub mod semantics;
pub mod stmt;
pub mod text;
pub mod token;
pub mod value;
