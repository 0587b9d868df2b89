//! A compiler for the Hexagn language: lexer, parser, constant folder,
//! function registry with name mangling, and a URCL code emitter.

pub mod text;
pub mod nodes;
pub mod diag;
pub mod optimizer;
pub mod linker;
pub mod lexer;
pub mod emitter;
pub mod strings;
pub mod util;
pub mod parser;
pub mod imports;
pub mod compiler;
pub mod queue;
