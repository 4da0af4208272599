use vstd::prelude::*;

pub mod ast;
pub mod cli;
pub mod completion;
pub mod config;
pub mod executor;
pub mod graph;
pub mod heredoc;
pub mod interpreter;
pub mod mcp;
pub mod order;
pub mod output_file;
pub mod parser;
pub mod table;
pub mod text;
pub mod transpiler;
pub mod utils;

verus! {
} // verus!
