//! An embeddable interpreter for a small s-expression scripting language:
//! parenthesised lists are calls, curly braces delimit lazily evaluated
//! blocks, and a host installs native functions and variables that scripts
//! can call. The pipeline is a character-level tokenizer, a recursive-descent
//! parser with syntactic sugar (subscripts, pipes, property access,
//! key-value pairs), and a scoped, side-effecting evaluator with
//! per-statement failure isolation for interactive use.

pub mod chars;
pub mod number;
pub mod location;
pub mod token;
pub mod expression;
pub mod value;
pub mod tokenizer;
pub mod parser;
pub mod environment;
pub mod interpreter;
pub mod hier;
