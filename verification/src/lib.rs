//! A transactional object graph for a simulated voxel world.
//!
//! The [`universe::Universe`] container owns a set of named members (block
//! definitions, characters, voxel spaces). External code addresses members
//! through lightweight reference handles and edits them through two-phase
//! transactions which are validated in full before any mutation happens.

pub mod block;
pub mod character;
pub mod gltf_buffer;
pub mod inv;
pub mod math;
pub mod name;
pub mod space;
pub mod space_txn;
pub mod texalloc;
pub mod time;
pub mod transaction;
pub mod triangulator;
pub mod universe;
pub mod universe_txn;
pub mod uref;
pub mod visit;
