//! Seed: a permission engine for a multiplayer server.
//!
//! Groups grant permission nodes and may inherit from other groups; players
//! belong to one group and carry personal grants, denials and an optional
//! chat prefix.  The store answers permission and prefix queries and applies
//! the administrative commands that change it.

pub mod codec;
pub mod commands;
pub mod graph;
pub mod groups;
pub mod ident;
pub mod messages;
pub mod model;
pub mod resolve;
pub mod store;
pub mod text;

use vstd::prelude::*;

verus! {

/// The plugin that brings the store to a server.
#[derive(Debug, Clone, Copy, PartialEq, Eq, Structural)]
pub struct SeedPlugin;

impl SeedPlugin {
    /// The plugin, before it is loaded.
    pub fn new() -> (r: SeedPlugin)
        ensures
            r == SeedPlugin,
    {
        SeedPlugin
    }
}

} // verus!
