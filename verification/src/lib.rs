//! Incremental build pipeline for declarative game-server directories.
//!
//! A server is described by a declared configuration: an ordered list of
//! named stages, each holding the dependencies ("downloadables") that the
//! stage materializes on disk. Every successful build records exactly what
//! was materialized in a lockfile; the next build compares fresh resolver
//! answers against that lockfile and fetches only what changed.

pub mod actions;
pub mod cache;
pub mod laws;
pub mod launcher;
pub mod lockfile;
pub mod model;
pub mod pipeline;
pub mod resolver;
pub mod text;
