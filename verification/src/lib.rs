//! `gguf_analyzer`: read, inspect and edit the metadata of GGUF model files.
//!
//! The library holds the verified core: the GGUF byte format (parsing and
//! serialisation of the header, metadata and tensor-info sections), the
//! metadata collection, value formatting and the pure decision logic of every
//! subcommand.  Reading and writing files, terminal rendering and network
//! access live in the binary under `app/`.

pub mod chars;
pub mod format;
pub mod gguf;
pub mod hf;
pub mod metadata;
pub mod output;
pub mod pattern;
pub mod tensor;
pub mod text;
pub mod cli;
pub mod commands;
pub mod display;
pub mod error;
