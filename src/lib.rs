//! An expression-oriented language: a lexer, a parser that emits a JSON-shaped syntax tree,
//! and a tree-walking evaluator with lexical or dynamic scope, closures and assignment.

pub mod ast;
pub mod environment;
pub mod error;
pub mod functions;
pub mod grammar;
pub mod interpreter;
pub mod json;
pub mod laws;
pub mod lexer;
pub mod parser;
pub mod text;
pub mod value;

pub use ast::Ast;
pub use environment::{Environment, LocalEnvironment};
pub use error::{InterpError, LabeledSpan, ParseError, ParseErrorType};
pub use interpreter::{interpret_default, interpret_to_string, Interpreter, MAX_CALL_DEPTH};
pub use json::Json;
pub use lexer::{Keyword, LexToken, Lexer, Token, TokenContainer};
pub use parser::{parse, Parser};
pub use value::{Builtin, Expr, Function};
