pub mod ast;
pub mod diag;
pub mod lexer;
pub mod parser;
pub mod text;
pub mod scope;
pub mod codegen;
pub mod import;
pub mod runtime;
pub mod pipeline;
pub mod properties;
pub mod properties_frame;
pub mod properties_ops;
