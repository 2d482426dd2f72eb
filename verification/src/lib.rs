//! A tree-walking interpreter for a small scripting language with
//! natural-language keywords (`prepare`, `sketch`, `brush`, `loop`).
//!
//! A program goes from text to tokens (`lexer`), from tokens to a syntax tree
//! (`grammar`, `parser`), and is run by a machine (`machine`, `interpreter`).
//! The machine never waits and never touches floating point: it asks its
//! host to print, to read a line, and to do arithmetic on doubles, which it
//! holds as bit patterns (`number`). What holds of every run is proved in
//! `tidy` (no name stands twice in an environment or a record) and `rounds`
//! (a bounded loop makes one round for each integer, in order).
#![allow(unused_imports)]
#![allow(unused_variables)]

pub mod arrays;
pub mod ast;
pub mod grammar;
pub mod interpreter;
pub mod lexer;
pub mod machine;
pub mod number;
pub mod operators;
pub mod parser;
pub mod render;
pub mod rounds;
pub mod scope;
pub mod state;
pub mod tidy;
pub mod value;
