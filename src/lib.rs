//! Playlist reconciliation between two playlist stores.
//!
//! The library decides, from the contents of a source and a target store, what has to be
//! created or appended on the target so that it comes to hold the source's playlists and
//! videos. Store access itself happens outside: the engine hands out actions and takes
//! back the stores' answers as events.
use vstd::prelude::*;

pub mod model;
pub mod diff;
pub mod engine;
pub mod reconcile;
pub mod instances;
pub mod cli;
pub mod selection;
