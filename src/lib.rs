//! Keyword-variant shader compilation: a parser for multi-pass shader
//! descriptions, an odometer enumerator over keyword axes, the program and
//! stage handle tables of the compiler engine, and the SPIR-V word codec.

pub mod spirv;
pub mod text;
pub mod parser;
pub mod variants;
pub mod compiler;
