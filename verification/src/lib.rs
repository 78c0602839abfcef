//! Ji: a small graph database engine with its own query language.
//!
//! The pipeline is: source text → [`lexer`] → tokens → [`parser`] → syntax tree →
//! [`optimizer`] → [`codegen`] → bytecode → [`vm`], which runs the bytecode
//! against an in-memory [`store::GraphStore`].
//! Every stage is verified against a mathematical model of what it computes.
#![allow(unused_imports)]

pub mod algos;
pub mod ast;
pub mod bytecode;
pub mod codegen;
pub mod crypto;
pub mod db;
pub mod history;
pub mod lexer;
pub mod optimizer;
pub mod parser;
pub mod persist;
pub mod store;
pub mod strmap;
pub mod text;
pub mod viewer;
pub mod vm;
pub mod token;
