//! Inspect and edit the ordered list of directories held in a `PATH`-style
//! variable: move an entry up or down, add or remove entries, drop duplicates
//! and directories that no longer exist, and look up earlier values.
//!
//! Every function here works on plain values. Reading the environment, asking
//! the file system and printing are left to the caller.

pub mod decimal;
pub mod error;
pub mod path;
