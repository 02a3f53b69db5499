//! Verified core of a semantic-analysis engine for Rust workspaces.
//!
//! The library covers the parts of the engine that are pure logic: cursor
//! resolution with a symbol tolerance box, line/column to offset conversion,
//! atomic multi-range text edits, the virtual file system with its staged
//! change set, watcher drain coalescing, project-root discovery decisions,
//! and the translation of query results into the stable external schema.
//! The semantic database itself (parser, type inference, hover, rename
//! computation) is an external collaborator reached from the application
//! shell; this crate verifies everything around it.
//!
//! Lines and columns in the external schema are 1-based and count
//! characters; the converters in `line_index` translate character
//! offsets to and from the UTF-8 byte offsets the semantic database's
//! positions use, so the shell converts at that boundary.

pub mod errors;
pub mod entities;
pub mod line_index;
pub mod text_edit;
pub mod vfs;
pub mod watcher;
pub mod paths;
pub mod utils;
pub mod analyzer;
pub mod builder;
pub mod command;
pub mod render;
pub mod ruskel;
