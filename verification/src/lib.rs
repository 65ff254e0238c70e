//! Expression parsing and data shaping for a DynamoDB command line client.
pub mod text;
pub mod value;
pub mod error;
pub mod escape;
pub mod b64;
pub mod ast;
pub mod unicode;
pub mod grammar;
pub mod rules;
pub mod lexer;
pub mod views;
pub mod reader;
pub mod syntax;
pub mod condition;
pub mod display;
pub mod parser;
pub mod shell;
pub mod ddb;
pub mod apply;
pub mod util;
pub mod app;
pub mod data;
pub mod transfer;
pub mod batch;
pub mod control;
pub mod bootstrap;
