//! Keeps a single logical theme in sync across the configuration files of
//! several terminal and editor applications.
use vstd::prelude::*;

pub mod catalog;
pub mod cli;
pub mod config;
pub mod error;
pub mod jsonc;
pub mod keyfile;
pub mod target;
pub mod text;
pub mod ui;

verus! {

} // verus!
