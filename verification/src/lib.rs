//! Grove: a registry of git/jj repositories with layered per-project and
//! per-worktree environment variables and worktree management.
//!
//! This crate holds the verified core: the data model, the rules for merging
//! configuration layers, the path and text handling, and the decisions the
//! command-line front end takes between its input/output steps.

pub mod commands;
pub mod config;
pub mod env;
pub mod error;
pub mod laws;
pub mod omap;
pub mod path;
pub mod text;
pub mod vcs;
