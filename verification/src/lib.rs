//! A parser-combinator library for PEG-style grammars, with error reporting and recovery.
pub mod context;
pub mod driver;
pub mod error;
pub mod error_handler;
pub mod input;
pub mod label;
pub mod matcher;
pub mod memo_store;
pub mod parser;
pub mod render;
