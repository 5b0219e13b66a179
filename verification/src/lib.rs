use vstd::prelude::*;

pub mod codegen;
pub mod ast;
pub mod diagnostics;
pub mod doc;
pub mod fmt;
pub mod hir;
pub mod indexer;
pub mod lexer;
pub mod lsp;
pub mod mir;
pub mod order;
pub mod parser;
pub mod pkg;
pub mod text;

verus! {

} // verus!
