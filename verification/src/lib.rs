//! Loader for RISC-V executables targeting a zero-knowledge virtual machine.
//!
//! The library parses an ELF image held in memory, classifies its loadable
//! segments by permission, validates the writable segments against the
//! machine's fixed RAM window, and assembles the instruction ROM together
//! with the classified memory payload.

pub mod bytes;
pub mod classify;
pub mod equations;
pub mod error;
pub mod laws;
pub mod parser;
pub mod payload;
pub mod rom;
pub mod sections;
pub mod validate;
