//! Reader, instruction decoder and disassembler for compiled Lua 5.1 chunks.
//!
//! `read` decodes a chunk into a `Bytecode` tree, proved to follow the format
//! stated in `format`; `render` and `listing` turn it into a disassembly.
pub mod bytecode;
pub mod error;
pub mod format;
pub mod listing;
pub mod read;
pub mod render;
pub mod text;
pub mod truncation;
