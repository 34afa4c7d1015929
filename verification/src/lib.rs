//! A small language pipeline: tree-building reductions with constant folding,
//! a generator that flattens the tree into instructions, and a stack-machine
//! interpreter with call/return semantics.

pub mod ast;
pub mod calling;
pub mod checks;
pub mod config;
pub mod finalize;
pub mod generator;
pub mod interpreter;
pub mod ir;
pub mod parser;
pub mod render;
pub mod tokens;
pub mod traverse;
pub mod tree;
