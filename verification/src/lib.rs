//! A small tree-walking interpreter for a toy imperative scripting language
//! with numbers, texts and booleans, variables, arithmetic and comparisons,
//! `if` and `else`, two kinds of loop, and functions.
//!
//! Source text goes through four stages:
//! - `preprocess` removes carriage returns and comment lines;
//! - `scanner` turns the cleaned text into tokens;
//! - `parser` turns the tokens into statements, as `grammar` defines;
//! - `machine` evaluates a statement step by step, as `semantics` defines.
//!
//! Numbers are held as numerals. The machine does no arithmetic and prints
//! nothing by itself: a step that needs the sum of two numbers, the decimal
//! rendering of a number or a line printed says so, and the caller does it.
//!
//! What the stages do is stated twice. `meaning` gives every node its
//! meaning by recursion over the tree, and `refinement` proves that the
//! machine computes it. `spelling` says how a tree is written in tokens and
//! in text, and `reading` proves that scanning and parsing read it back.
//! `laws` holds what else is proved of the library as a whole.

pub mod ast;
pub mod env;
pub mod grammar;
pub mod laws;
pub mod machine;
pub mod meaning;
pub mod parser;
pub mod preprocess;
pub mod program;
pub mod reading;
pub mod refinement;
pub mod scanner;
pub mod semantics;
pub mod spelling;
pub mod table;
pub mod text;
pub mod token;
