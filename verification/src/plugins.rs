//! The plugin bundles the library offers.
pub use crate::archetypes::Plugins;
