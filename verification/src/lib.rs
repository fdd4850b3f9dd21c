//! Front end of the Xz compiler: lexer, parser, name resolution, type
//! checking, intent verification, diagnostics, formatting and the
//! language-server state machine, each with a verified contract.
#![allow(unused_imports)]

pub mod text;
pub mod token;
pub mod chars;
pub mod keywords;
pub mod lexer;
pub mod ast;
pub mod textsearch;
pub mod parser;
pub mod names;
pub mod resolve;
pub mod kind;
pub mod env;
pub mod typecheck;
pub mod intent;
pub mod diagnostic;
pub mod driver;
pub mod pkg;
pub mod paths;
pub mod format;
pub mod lsp;
pub mod rpc;
pub mod symbols;
pub mod show;
