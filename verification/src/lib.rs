//! A front end for a language of one statement, `return <expression>;`:
//! a tokenizer that records where each token starts, a recursive-descent
//! parser for arithmetic with the usual precedence, and an evaluator of the
//! tree. What each stage computes is stated over sequences of characters and
//! of tokens in `lexical`, `grammar` and `vm`, and every function is proved
//! against it.

pub mod ast;
pub mod charclass;
pub mod error;
pub mod grammar;
pub mod laws;
pub mod lexer;
pub mod lexical;
pub mod parser;
pub mod text;
pub mod token;
pub mod vm;

pub use ast::{ASTNode, Operator};
pub use error::{EvalError, Expected, ParseError};
pub use lexer::{tokenize, Lexer};
pub use parser::Parser;
pub use token::{Position, Token};
pub use vm::VM;
