//! Literate programming with noweb-style chunks, verified.
//!
//! Sources hold named chunks (`<<name>>=` ... `@`); chunks named `@file path`
//! become generated files. The library reads chunk definitions
//! ([`store`]), expands references with their indentation and options
//! ([`store`], [`tangle`]), decides where and whether generated files are
//! written ([`writer`]), carries source maps over a formatter's rewrite
//! ([`remap`]), splits documents into hashed blocks ([`blocks`]), lints
//! them ([`lint`]) and serves edits made in the browser ([`edit`],
//! [`apply`], [`http`], [`prose`], [`sse`]).

pub mod text;
pub mod syntax;
pub mod errors;
pub mod store;
pub mod tangle;
pub mod edit;
pub mod prose;
pub mod http;
pub mod config;
pub mod blocks;
pub mod lookup;
pub mod lint;
pub mod tag;
pub mod semantic;
pub mod sse;
pub mod report;
pub mod apply;
pub mod remap;
pub mod writer;
pub mod ai;
pub mod mcp;
