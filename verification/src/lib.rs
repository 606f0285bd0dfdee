//! A small scripting language: tokenizer, parser and evaluator.
//!
//! Source text becomes tokens ([`lexer`]), tokens become a program tree
//! ([`parser`]), and the tree is lowered to postfix code ([`code`]) that the
//! evaluator runs ([`interpreter`]). What a program means, and the proof
//! that the evaluator computes it, are in [`semantics`].

pub mod code;
pub mod interpreter;
pub mod lexer;
pub mod parser;
pub mod semantics;
pub mod text;

pub use interpreter::{Interpreter, Reply, Request, RuntimeError, Value};
pub use lexer::{Lexer, Literal, Token};
pub use parser::{BinaryOp, Expression, ParseError, Parser, Program, Statement};
