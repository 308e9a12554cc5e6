//! Syntax, symbol trees and symbol resolution for µcad source code.

pub mod library;
pub mod manifest;
pub mod rst;
pub mod span;
pub mod token;
pub mod lex;
pub mod ast;
pub mod visitor;
pub mod mir;
pub mod diag;
pub mod locate;
pub mod ir;
pub mod resolve;
pub mod parse;
pub mod check;
pub mod laws;
