//! A terminal browser for fsspec-style filesystems, with its logic verified.
use vstd::prelude::*;

pub mod text;
pub mod options;
pub mod args;
pub mod entry;
pub mod tree;
pub mod sizes;
pub mod render;
pub mod urls;
pub mod backend;
pub mod app_spec;
pub mod app;
pub mod actions;
pub mod panes;
pub mod listing;
pub mod python_backend;
pub mod launch;
pub mod laws;

verus! {

/// What the package is.
pub const DESCRIPTION: &'static str = "Terminal browser for fsspec-backed filesystems";

} // verus!
