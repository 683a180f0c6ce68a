//! A directory lister's logic: filtering and sorting entries, rendering them
//! in short, long, column and tree form, and reading version-control status.

pub mod text;
pub mod layout;
pub mod columns;
pub mod format;
pub mod color;
pub mod vcs;
pub mod entry;
pub mod options;
pub mod display;
pub mod long;
pub mod symbols;
pub mod sort;
pub mod collect;
pub mod list;
pub mod tree;
pub mod report;
pub mod numbers;
pub mod args;
