//! Selection-state directory tree: an arena of filesystem entries with a
//! tri-state selection kept consistent after every change, a text classifier,
//! and query filters (fuzzy search and wildcard patterns) over the arena.
pub mod classify;
pub mod filter;
pub mod matcher;
pub mod output;
pub mod paths;
pub mod patterns;
pub mod settings;
pub mod state;
pub mod theorems;
pub mod traversal;
pub mod tree;
pub mod ui;
