pub mod assembler;
pub mod cpu6800;
pub mod cpu6809;
pub mod cli;
pub mod config;
pub mod opts;
pub mod async_tokenize;
pub mod ast;
