//! Ready-made components and plugin bundles.
use vstd::prelude::*;

use crate::app::{AddPlugIn, App, PluginId};
use crate::ecs::EntityID;
use crate::events::Event;

verus! {

/// The default plugin bundle: one plugin that registers itself.
pub struct Plugins(pub PluginId);

impl AddPlugIn for Plugins {
    open spec fn plugin_ids(&self) -> Seq<PluginId> {
        seq![self.0]
    }

    fn add_self_as_plugin<R, E: Event>(self, app: &mut App<R, E>) {
        self.0.add_self_as_plugin(app);
    }
}

/// A function that takes over the application once it is run; `F` is the
/// caller's function type.
pub struct Runtime<F> {
    pub runtime: F,
}

impl<F> Runtime<F> {
    /// Wraps `f` as the application's runtime.
    pub fn new(f: F) -> (res: Self)
        ensures
            res.runtime == f,
    {
        Self { runtime: f }
    }
}

/// A component naming an entity's parent.
#[derive(Clone, Copy, Debug)]
pub struct Parent {
    pub entity_id: EntityID,
}

} // verus!
