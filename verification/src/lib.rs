//! Verified core of the mivi engine: text minifiers, grammar-constrained decoding,
//! speculative drafting, prefix caching and knowledge-document parsing.

pub mod text;
pub mod xml;
pub mod tensor;
pub mod rng;
pub mod pld;
pub mod grammar;
pub mod minifier;
pub mod kv;
pub mod prefix;
pub mod semantic;
pub mod kvc;
pub mod memory;
pub mod okf;
pub mod agent;
pub mod context;
pub mod stop;
pub mod config;
pub mod gguf;
pub mod gguf_parse;
pub mod loader;
pub mod stream;
pub mod chat;
pub mod arena;
pub mod rope;
pub mod expert;
pub mod schema;
