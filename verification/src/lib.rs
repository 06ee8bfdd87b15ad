//! A streaming reader for delimiter-separated record data.
//!
//! The crate turns a byte source into a sequence of records (ordered
//! sequences of byte or text fields). It tracks the byte, line and record
//! position of the parse, caches the header row, enforces (or relaxes) a
//! fixed field count across records, and supports seeking back to a
//! previously observed position. The low-level classification of
//! delimiters, quotes and escapes is delegated to the `csv_core` crate.

use vstd::prelude::*;

pub mod byte_record;
pub mod error;
pub mod position;
pub mod reader;
pub mod string_record;
pub mod tokenizer;

verus! {

} // verus!
