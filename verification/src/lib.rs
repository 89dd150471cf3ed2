//! A small scripting language: a parser that turns a text into syntax
//! trees, and an evaluator that walks the trees in a chain of scopes.
//!
//! A text is split into tokens ([`ConwayParser::tokenize`]) and the tokens
//! are parsed into nodes ([`parser`]). An [`Interpreter`] evaluates a node
//! in its [`Environment`] and yields a [`Value`] or a [`RuntimeFault`].
//!
//! What each function does is stated over mathematical models of the data:
//! the tokens, nodes and scopes with every string as its sequence of
//! characters. The module [`lexer`] holds the rules for tokens, [`grammar`]
//! the grammar, [`interpreter`] the meaning of the nodes, and [`spelling`]
//! the way back from nodes to tokens and to text.

pub mod ast;
pub mod conway;
pub mod decimal;
pub mod environment;
pub mod error;
pub mod expression;
pub mod grammar;
pub mod interpreter;
pub mod lexer;
pub mod parser;
pub mod spelling;
pub mod token;
pub mod utils;
pub mod value;

pub use ast::AstNode;
pub use conway::Conway;
pub use environment::Environment;
pub use error::{ParseError, Rule};
pub use expression::{Assignment, Block, Expression, Print, Unary};
pub use interpreter::{Interpreter, Report, RuntimeFault};
pub use parser::{parser, ConwayParser};
pub use value::{Operator, Value};
