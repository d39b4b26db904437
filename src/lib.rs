//! A build driver's core logic: a decoder for the compiler's TASTy typed-AST
//! format, and the incremental-compilation scheduler with its state model.

pub mod attributes;
pub mod cache;
pub mod compile;
pub mod config;
pub mod coord;
pub mod decimal;
pub mod dump;
pub mod error;
pub mod format;
pub mod incremental;
pub mod names;
pub mod pom;
pub mod positions;
pub mod printer;
pub mod reader;
pub mod resolve;
pub mod scan;
pub mod text;
pub mod trees;
