//! An interpreter for a small language of S-expressions.
//!
//! A source is scanned into tokens ([`scanner`]), the tokens are parsed into
//! a tree ([`parser`], [`tree`]), the tree is turned into code for a stack
//! machine ([`compiler`], [`chunk`]), and the machine runs the code ([`vm`]).
//! What each step does is said by the functions of [`scanner`], [`nesting`],
//! [`codegen`] and [`machine`], and what holds of the steps together by the
//! proofs in [`scan_laws`], [`parse_laws`], [`gen_laws`] and [`safety`].
//!
//! The library computes nothing on floating-point numbers. It holds such a
//! number as its bit pattern, and where an instruction needs a computation on
//! one the machine stops and asks its host for the result.

pub mod chunk;
pub mod codegen;
pub mod compiler;
pub mod debug;
pub mod encoding;
pub mod gen_laws;
pub mod keywords;
pub mod machine;
pub mod nesting;
pub mod parse_laws;
pub mod parser;
pub mod safety;
pub mod scan_laws;
pub mod scanner;
pub mod token;
pub mod tree;
pub mod value;
pub mod vm;
