//! An entity-component-system runtime.
//!
//! Entities are bare identifiers, components are plain data attached to them,
//! and systems are transformations that query components and emit changes.

pub mod base_components;
pub mod codec;
pub mod commands;
pub mod component;
pub mod default_world;
pub mod entity_builder;
pub mod entity_id;
pub mod hashing;
pub mod hook;
pub mod json;
pub mod laws;
pub mod lore;
pub mod names;
pub mod pipeline;
pub mod position_map;
pub mod query;
pub mod resource;
pub mod resource_writer;
pub mod spatial;
pub mod stage;
pub mod store;
pub mod system;
pub mod tables;
pub mod world;
