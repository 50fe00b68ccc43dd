//! Read-only review access to git and Sapling worktrees.
//!
//! Every operation is a pure function of the facts gathered so far: it either
//! finishes or names the questions (commands, file reads, writes into the
//! state directory) whose answers it still needs.

pub mod answers;
pub mod base;
pub mod cache;
pub mod conduct;
pub mod content;
pub mod counts;
pub mod disk;
pub mod durable;
pub mod git;
pub mod last_turn;
pub mod listing;
pub mod manifest;
pub mod model;
pub mod outside;
pub mod paths;
pub mod replay;
pub mod rows;
pub mod sl;
pub mod store;
pub mod table;
pub mod text;
pub mod turn;
pub mod vcs;
