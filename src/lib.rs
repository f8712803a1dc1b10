//! A small Lisp front end and evaluator.
//!
//! Source text is lexed into tokens (`lexer`), parsed into S-expressions
//! (`parser`, `sexp`), and evaluated against lexically scoped environments
//! (`eval`, `value`, `intrinsics`). What evaluation means is stated in
//! `semantics`, and every executable function is proved against it.
pub mod text;
pub mod lexer;
pub mod sexp;
pub mod parser;
pub mod printer;
pub mod value;
pub mod semantics;
pub mod eval;
pub mod intrinsics;
pub mod program;
