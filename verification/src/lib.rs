//! The core of a terminal spreadsheet: the pipeline that turns the text of
//! a cell into the value that the cell holds.
//!
//! A text that starts with `=` is a formula. It is split into tokens
//! (`lexer`), parsed into a tree (`parser`) and evaluated against the values
//! that the cells held last (`eval`, with the operators in `ops`). `grid`
//! keeps the texts and the values of the cells and computes every cell
//! again after each edit. `shell` holds the decisions of the interactive
//! program around the grid.
//!
//! The library does no floating-point arithmetic. Single-precision numbers
//! are carried as bit patterns, and what is to be computed on them is asked
//! of the caller (`floats`).

pub mod environment;
pub mod eval;
pub mod floats;
pub mod grid;
pub mod lexer;
pub mod model;
pub mod ops;
pub mod parser;
pub mod shell;
pub mod text;
