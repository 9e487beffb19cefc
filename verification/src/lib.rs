//! An entity-component store built around a verified access-partitioning
//! kernel: a permission algebra that splits one handle over the store into
//! two provably non-aliasing handles, an archetype-grouped world with
//! stable generation-counted entity identifiers, queries validated against
//! the permissions a handle holds, and a command buffer whose structural
//! edits stay invisible until an explicit commit point.

pub mod access;
pub mod command_buffer;
pub mod components;
pub mod entry;
pub mod laws;
pub mod permissions;
pub mod query;
pub mod spawner;
pub mod subworld;
pub mod systems;
pub mod turn_state;
pub mod world;
