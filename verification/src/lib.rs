//! Verified core of the Steel server's entity and mob AI logic.
//!
//! The library holds the parts of the server that decide and compute:
//! goal flags, the goal selector and the target goals of mob AI; the wire
//! formats of the entity packets; the SNBT parser used by commands; the
//! entity data model and entity behaviours; the entity tracker (who sees
//! which entity) and the world's player list; the `/kill` and `/summon`
//! commands; registries of items and entity types; and the integer side of
//! navigation. Float arithmetic (positions, angles, path costs) stays with
//! the caller, which hands over the answers.

pub mod goal;
pub mod goal_selector;
pub mod snbt;
pub mod text;
pub mod literal;
pub mod codec;
pub mod clientbound;
pub mod serverbound;
pub mod entity_data;
pub mod behaviour;
pub mod entity;
pub mod tracking;
pub mod path;
pub mod difficulty;
pub mod selector;
pub mod registry;
pub mod tracker;
pub mod entity_types;
pub mod behaviour_registry;
pub mod commands;
pub mod world;
pub mod navigation;
pub mod target;
