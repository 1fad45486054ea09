//! wunderdrive: the reconcile core, content-identity helpers and client-side
//! state logic of a document mirror over any S3-compatible bucket.

pub mod archive;
pub mod browser;
pub mod cli;
pub mod config;
pub mod display;
pub mod creds;
pub mod engine;
pub mod error;
pub mod extract;
pub mod hash;
pub mod journal;
pub mod keyed;
pub mod keypath;
pub mod listing;
pub mod mirror;
pub mod ooxml;
pub mod pdf;
pub mod protocol;
pub mod reconcile;
pub mod shortcut;
pub mod text;
pub mod tui;

use vstd::prelude::*;

verus! {

} // verus!
