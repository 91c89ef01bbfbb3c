//! Syntax-aware minification of source code and command output.

pub mod code;
pub mod output;
