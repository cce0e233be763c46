//! Nono: a static site generator whose language core is verified.

pub mod ast;
pub mod error;
pub mod text;
pub mod value;
pub mod html;
pub mod sort;
pub mod sources;
pub mod semantics;
pub mod eval;
pub mod parser;
pub mod markdown;
pub mod site;
pub mod config;
pub mod serve;
pub mod grammar;
