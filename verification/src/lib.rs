//! An entity–component–system core: entities with component signatures,
//! per-kind component lines, type-keyed resources, a two-phase event queue
//! and the event-driven system schedule that ties them together.

pub mod entities;
pub mod line;
pub mod components;
pub mod recources;
pub mod events;
pub mod ecs;
pub mod app;
pub mod archetypes;
pub mod atlas;
pub mod json_doc;
pub mod laws;
pub mod signature;
pub mod consistency;
pub mod plugins;
pub mod keys;
