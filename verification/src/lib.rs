//! Shared state of a tabletop scene: layers of sprites, fog of war, sprite
//! groups, user permissions, the events that change them, and the save format.
//! Client-side decisions of the interface live in `interface`.

use vstd::prelude::*;

pub mod client;
pub mod comms;
pub mod details;
pub mod events;
pub mod fog;
pub mod geom;
pub mod group;
pub mod history;
pub mod perms;
pub mod placement;
pub mod project;
pub mod requests;
pub mod round_trip;
pub mod save;
pub mod saved;
pub mod scene;
pub mod stack;
pub mod sprite;
pub mod interface;
pub mod layer;
pub mod text;

verus! {

/// Identifier of a layer, sprite, group or user.
pub type Id = i64;

} // verus!
