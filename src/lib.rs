//! Front end of a small SQL-like monitor: a lexer that turns a statement into
//! tokens and a predictive parser that turns tokens into a query tree.
//!
//! - `tokenizer`: tokens, the lexer, and the laws of lexing.
//! - `parser`: the query tree, its grammar over token models, and the parser.
//! - `canonical`: the canonical token form of a query, and the laws of parsing.
//! - `printing`: the canonical text of tokens, and the round trip through text.
pub mod tokenizer;
pub mod parser;
pub mod canonical;
pub mod printing;
