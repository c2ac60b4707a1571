//! A reference interpreter for a low-level, block-structured, typed IR.
//!
//! The crate is organised around a byte-level virtual memory with pointer
//! provenance and per-byte initialization tracking (`memory`, with its
//! bitmap in `undef_mask` and the byte-order codec in `endian`), a primitive
//! value model (`primval`), a type/layout adapter over front-end supplied
//! type descriptors (`ty`), the IR itself (`mir`), the diagnostics every
//! operation returns (`error`), and the evaluator that steps a program one
//! statement or terminator at a time (`eval`).

pub mod endian;
pub mod error;
pub mod undef_mask;
pub mod memory;
pub mod primval;
pub mod ty;
pub mod mir;
pub mod eval;
