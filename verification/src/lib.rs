//! Front end of a compiler for a small expression and procedure language:
//! a tokenizer and a recursive-descent parser that build a syntax tree whose
//! nodes record the file and the lexical scope that enclose them.
//!
//! - `token`, `lexical`, `lexer`: tokens, the lexical grammar, and the lexer
//!   that is proved against it; `spelling` shows that tokens which are
//!   spelled out are read back.
//! - `ast`, `error`, `grammar`, `parser`: the tree, the grammar, and the
//!   parser that is proved against it.
//! - `scoping`, `consumption`, `content`, `precedence`: what holds of every
//!   tree that the grammar gives.

pub mod ast;
pub mod consumption;
pub mod content;
pub mod error;
pub mod grammar;
pub mod lexer;
pub mod lexical;
pub mod parser;
pub mod precedence;
pub mod scoping;
pub mod spelling;
pub mod token;
