//! Jumpcut: named shortcuts for parameterized shell commands.
//!
//! An alias is a short name bound to a command template. This crate holds
//! the alias record and its file format, the template expansion, the
//! confirmation policy that gates execution, and the resolution of alias
//! names across the default and the shared storage root.

pub mod alias;
pub mod arguments;
pub mod error;
pub mod expand;
pub mod format;
pub mod gate;
pub mod invocation;
pub mod listing;
pub mod operations;
pub mod order;
pub mod pattern;
pub mod resolver;
pub mod search;
pub mod text;
pub mod text_map;
pub mod utils;
