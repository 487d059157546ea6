//! Lookup of Japanese bank and branch codes (the Zengin code system).
//!
//! The banks are loaded once from a directory of JSON files, each bank with its branches.
//! After that the collection is only read: a bank or a branch is found by its code, taken as
//! it is written, or by a regular expression on one of its name fields.
//!
//! Three things are done by other crates and believed, not proved: `serde_json` reads JSON
//! text, `regex` compiles patterns and matches them, and `std` decodes UTF-8. Each stands
//! behind one small function whose doc comment says what is believed of it.

pub mod bank;
pub mod code_map;
pub mod data;
pub mod laws;
pub mod pattern;
pub mod records;
pub mod zengin;

pub use crate::bank::{Bank, BankMap, Branch, BranchMap};
pub use crate::code_map::CodeMap;
pub use crate::data::{join_paths, read_data_file, DataDir, FileError};
pub use crate::pattern::{NameField, PatternError};
pub use crate::records::{parse_banks, parse_branches, ParseError, RecordField};
pub use crate::zengin::{load_banks_from_file, load_branches_from_file, LoadError, Zengin};
