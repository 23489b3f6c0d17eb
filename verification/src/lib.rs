//! Core logic of `ir`: argument parsing, frontmatter extraction and
//! interpretation, and R version selection, with their contracts.
use vstd::prelude::*;

pub mod cli;
pub mod driver;
pub mod frontmatter;
pub mod init;
pub mod launch;
pub mod lock;
pub mod paths;
pub mod readback;
pub mod rig;
pub mod runner;
pub mod rx;
pub mod script;
pub mod text;

verus! {
} // verus!
