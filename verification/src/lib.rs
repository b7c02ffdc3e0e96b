pub mod text;
pub mod paths;
pub mod models;
pub mod error;
pub mod lang;
pub mod docstring;
pub mod graph;
pub mod resolver;
pub mod syntax;
pub mod parsers;
pub mod refs;
pub mod scanner;
pub mod walker;
pub mod envelope;
pub mod pom;
pub mod cli;
pub mod commands;
pub mod laws;
