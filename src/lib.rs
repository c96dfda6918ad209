//! An interactive command shell's core: a lexer for shell words and
//! quoting, variable expansion, a parser for pipelines of commands, and an
//! interpreter that runs the stages of a pipeline over a shared buffer.

pub mod shell;
pub mod command;
pub mod environment;
pub mod builtins;
pub mod grep;
pub mod runtime;
pub mod runtime_mock;
