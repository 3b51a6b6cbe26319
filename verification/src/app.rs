//! The application: a world, the systems that react to its events, the
//! plugins that set it up, and the update cycle that drives the systems.
//!
//! Systems and plugins are functions held by the caller; the library knows
//! each by the id the caller gave it. An update is planned here, step by
//! step, and carried out by the caller, which runs each system it is told to.
use vstd::prelude::*;

use crate::ecs::{TypeKey, ECS};
use crate::events::Event;
use crate::laws::law_each_event_retired_once;

verus! {

broadcast use vstd::std_specs::vecdeque::group_vec_dequeue_axioms;

/// The caller's id of a system function.
pub type SystemId = usize;

/// The caller's id of a plugin function.
pub type PluginId = usize;

/// The registered systems, each with the kind of event that triggers it, in
/// the order they were added.
pub struct Systems {
    pub systems: Vec<(TypeKey, SystemId)>,
}

impl Systems {
    /// No systems.
    pub fn new() -> (res: Self)
        ensures
            res.systems@ == Seq::<(TypeKey, SystemId)>::empty(),
    {
        Self { systems: Vec::new() }
    }
}

/// The registered plugins, in the order they were added, each marked with
/// whether it needs the active event loop when it runs.
pub struct Plugins {
    pub plugins: Vec<(PluginId, bool)>,
}

impl Plugins {
    /// No plugins.
    pub fn new() -> (res: Self)
        ensures
            res.plugins@ == Seq::<(PluginId, bool)>::empty(),
    {
        Self { plugins: Vec::new() }
    }

    /// Forgets all plugins.
    pub fn clear(&mut self)
        ensures
            final(self).plugins@ == Seq::<(PluginId, bool)>::empty(),
    {
        self.plugins.clear();
    }
}

/// Something that can register itself as one or more plugins.
pub trait AddPlugIn: Sized {
    /// The plugins it registers, in order.
    spec fn plugin_ids(&self) -> Seq<PluginId>;

    /// Adds its plugins to `app`, in order, as plugins that run with the
    /// world alone.
    fn add_self_as_plugin<R, E: Event>(self, app: &mut App<R, E>)
        ensures
            final(app).plugins.plugins@ == old(app).plugins.plugins@ + self.plugin_ids().map_values(
                |p: PluginId| (p, false),
            ),
            final(app).ecs == old(app).ecs,
            final(app).systems == old(app).systems,
            final(app).update_info == old(app).update_info,
    ;
}

impl AddPlugIn for PluginId {
    open spec fn plugin_ids(&self) -> Seq<PluginId> {
        seq![*self]
    }

    fn add_self_as_plugin<R, E: Event>(self, app: &mut App<R, E>) {
        app.add_plugin(self);
        assert(app.plugins.plugins@ =~= old(app).plugins.plugins@ + self.plugin_ids().map_values(
            |p: PluginId| (p, false),
        ));
    }
}

impl<P1: AddPlugIn, P2: AddPlugIn> AddPlugIn for (P1, P2) {
    open spec fn plugin_ids(&self) -> Seq<PluginId> {
        self.0.plugin_ids() + self.1.plugin_ids()
    }

    fn add_self_as_plugin<R, E: Event>(self, app: &mut App<R, E>) {
        let ghost ids0 = self.0.plugin_ids();
        let ghost ids1 = self.1.plugin_ids();
        self.0.add_self_as_plugin(app);
        self.1.add_self_as_plugin(app);
        assert((ids0 + ids1).map_values(|p: PluginId| (p, false)) =~= ids0.map_values(
            |p: PluginId| (p, false),
        ) + ids1.map_values(|p: PluginId| (p, false)));
        assert(app.plugins.plugins@ =~= old(app).plugins.plugins@ + (ids0 + ids1).map_values(
            |p: PluginId| (p, false),
        ));
    }
}

impl<P1: AddPlugIn, P2: AddPlugIn, P3: AddPlugIn> AddPlugIn for (P1, P2, P3) {
    open spec fn plugin_ids(&self) -> Seq<PluginId> {
        self.0.plugin_ids() + self.1.plugin_ids() + self.2.plugin_ids()
    }

    fn add_self_as_plugin<R, E: Event>(self, app: &mut App<R, E>) {
        let ghost ids0 = self.0.plugin_ids();
        let ghost ids1 = self.1.plugin_ids();
        let ghost ids2 = self.2.plugin_ids();
        self.0.add_self_as_plugin(app);
        self.1.add_self_as_plugin(app);
        self.2.add_self_as_plugin(app);
        assert((ids0 + ids1 + ids2).map_values(|p: PluginId| (p, false)) =~= ids0.map_values(
            |p: PluginId| (p, false),
        ) + ids1.map_values(|p: PluginId| (p, false)) + ids2.map_values(|p: PluginId| (p, false)));
        assert(app.plugins.plugins@ =~= old(app).plugins.plugins@ + (ids0 + ids1 + ids2).map_values(
            |p: PluginId| (p, false),
        ));
    }
}

/// Update bookkeeping: whether the next update is the first one.
pub struct UpdateInfo {
    pub is_first: bool,
}

/// One step of carrying out an update.
#[derive(Clone, Copy, PartialEq, Eq, Debug)]
pub enum DispatchStep {
    /// Run the system with this id on the world.
    RunSystem(SystemId),
    /// The event at the front of the current queue has been handled.
    FinishEvent,
}

/// The run steps of the systems that `key` triggers, in the order they were
/// added.
pub open spec fn triggered_steps(systems: Seq<(TypeKey, SystemId)>, key: TypeKey) -> Seq<DispatchStep>
    decreases systems.len(),
{
    if systems.len() == 0 {
        Seq::empty()
    } else {
        let prefix = triggered_steps(systems.drop_last(), key);
        if systems.last().0 == key {
            prefix.push(DispatchStep::RunSystem(systems.last().1))
        } else {
            prefix
        }
    }
}

/// The plan of an update: for each queued event, oldest first, the systems
/// it triggers, then the step that retires the event.
pub open spec fn dispatch_plan(event_keys: Seq<TypeKey>, systems: Seq<(TypeKey, SystemId)>) -> Seq<DispatchStep>
    decreases event_keys.len(),
{
    if event_keys.len() == 0 {
        Seq::empty()
    } else {
        dispatch_plan(event_keys.drop_last(), systems) + triggered_steps(
            systems,
            event_keys.last(),
        ).push(DispatchStep::FinishEvent)
    }
}

/// The kinds of the queued events, oldest first.
pub open spec fn event_keys<E>(events: Seq<(TypeKey, E)>) -> Seq<TypeKey> {
    events.map_values(|e: (TypeKey, E)| e.0)
}

/// The world together with its systems, plugins and update bookkeeping.
pub struct App<R, E> {
    pub ecs: ECS<R, E>,
    pub systems: Systems,
    pub plugins: Plugins,
    pub update_info: UpdateInfo,
}

impl<R, E: Event> App<R, E> {
    /// An empty world, no systems, no plugins, and the first update ahead.
    pub fn new() -> (res: Self)
        ensures
            res.ecs.wf(),
            res.ecs.entities@ == Seq::<Option<u128>>::empty(),
            res.ecs.compoents.sig_offset == 0,
            res.ecs.recources@ == Map::<TypeKey, R>::empty(),
            res.ecs.events.current() == Seq::<(TypeKey, E)>::empty(),
            res.ecs.events.next() == Seq::<(TypeKey, E)>::empty(),
            res.systems.systems@ == Seq::<(TypeKey, SystemId)>::empty(),
            res.plugins.plugins@ == Seq::<(PluginId, bool)>::empty(),
            res.update_info.is_first,
    {
        Self {
            ecs: ECS::new(),
            systems: Systems::new(),
            plugins: Plugins::new(),
            update_info: UpdateInfo { is_first: true },
        }
    }

    /// Adds a plugin that runs with the world alone; plugins run in the
    /// order they are added.
    pub fn add_plugin(&mut self, plugin: PluginId)
        ensures
            final(self).plugins.plugins@ == old(self).plugins.plugins@.push((plugin, false)),
            final(self).ecs == old(self).ecs,
            final(self).systems == old(self).systems,
            final(self).update_info == old(self).update_info,
    {
        self.plugins.plugins.push((plugin, false));
    }

    /// Adds everything `plugins` registers, in order.
    pub fn add_plugins<T: AddPlugIn>(&mut self, plugins: T)
        ensures
            final(self).plugins.plugins@ == old(self).plugins.plugins@ + plugins.plugin_ids().map_values(
                |p: PluginId| (p, false),
            ),
            final(self).ecs == old(self).ecs,
            final(self).systems == old(self).systems,
            final(self).update_info == old(self).update_info,
    {
        plugins.add_self_as_plugin(self);
    }

    /// Adds a plugin that also needs the active event loop.
    pub fn add_plugin_active_event_loop(&mut self, plugin: PluginId)
        ensures
            final(self).plugins.plugins@ == old(self).plugins.plugins@.push((plugin, true)),
            final(self).ecs == old(self).ecs,
            final(self).systems == old(self).systems,
            final(self).update_info == old(self).update_info,
    {
        self.plugins.plugins.push((plugin, true));
    }

    /// Adds a system that runs whenever an event of kind `key` is handled;
    /// systems triggered by the same event run in the order they are added.
    pub fn add_system(&mut self, key: TypeKey, system: SystemId)
        ensures
            final(self).systems.systems@ == old(self).systems.systems@.push((key, system)),
            final(self).ecs == old(self).ecs,
            final(self).plugins == old(self).plugins,
            final(self).update_info == old(self).update_info,
    {
        self.systems.systems.push((key, system));
    }

    /// Starts running the plugins: hands out the registered plugins, in
    /// order, and leaves an empty list to collect any added meanwhile.
    pub fn begin_run_plugins(&mut self) -> (res: Plugins)
        ensures
            res.plugins@ == old(self).plugins.plugins@,
            final(self).plugins.plugins@ == Seq::<(PluginId, bool)>::empty(),
            final(self).ecs == old(self).ecs,
            final(self).systems == old(self).systems,
            final(self).update_info == old(self).update_info,
    {
        let mut new_plugins = Plugins { plugins: Vec::new() };
        std::mem::swap(&mut self.plugins, &mut new_plugins);
        new_plugins
    }

    /// Ends running the plugins: plugins added while they ran are dropped.
    pub fn end_run_plugins(&mut self)
        ensures
            final(self).plugins.plugins@ == Seq::<(PluginId, bool)>::empty(),
            final(self).ecs == old(self).ecs,
            final(self).systems == old(self).systems,
            final(self).update_info == old(self).update_info,
    {
        self.plugins.clear();
    }

    /// Starts an update: the first update queues `startup`, every later one
    /// queues `update`, at the back of the current tick's events. Returns
    /// whether this was the first update.
    pub fn begin_update(&mut self, startup: (TypeKey, E), update: (TypeKey, E)) -> (first: bool)
        ensures
            first == old(self).update_info.is_first,
            !final(self).update_info.is_first,
            final(self).ecs.events.current() == old(self).ecs.events.current().push(
                if first {
                    startup
                } else {
                    update
                },
            ),
            final(self).ecs.events.next() == old(self).ecs.events.next(),
            final(self).ecs.entities == old(self).ecs.entities,
            final(self).ecs.compoents == old(self).ecs.compoents,
            final(self).ecs.recources == old(self).ecs.recources,
            final(self).systems == old(self).systems,
            final(self).plugins == old(self).plugins,
    {
        if self.update_info.is_first {
            self.ecs.events.push_event(startup.0, startup.1);
            self.update_info.is_first = false;
            true
        } else {
            self.ecs.events.push_event(update.0, update.1);
            false
        }
    }

    /// The plan for handling the current tick's events: for each queued
    /// event, oldest first, every system its kind triggers in the order they
    /// were added, then [`DispatchStep::FinishEvent`].
    pub fn dispatch_schedule(&self) -> (plan: Vec<DispatchStep>)
        ensures
            plan@ == dispatch_plan(event_keys(self.ecs.events.current()), self.systems.systems@),
            plan@.filter(|s: DispatchStep| s is FinishEvent).len() == self.ecs.events.current().len(),
    {
        let ghost keys = event_keys(self.ecs.events.current());
        let ghost systems = self.systems.systems@;
        let mut plan: Vec<DispatchStep> = Vec::new();
        let n = self.ecs.events.events.len();
        let mut i: usize = 0;
        while i < n
            invariant
                n == self.ecs.events.current().len(),
                keys == event_keys(self.ecs.events.current()),
                systems == self.systems.systems@,
                0 <= i <= n,
                plan@ == dispatch_plan(keys.take(i as int), systems),
            decreases n - i,
        {
            let key = self.ecs.events.events[i].0;
            let ghost before = plan@;
            let mut j: usize = 0;
            while j < self.systems.systems.len()
                invariant
                    systems == self.systems.systems@,
                    0 <= j <= systems.len(),
                    plan@ == before + triggered_steps(systems.take(j as int), key),
                decreases systems.len() - j,
            {
                proof {
                    assert(systems.take(j as int + 1).drop_last() =~= systems.take(j as int));
                }
                if self.systems.systems[j].0 == key {
                    plan.push(DispatchStep::RunSystem(self.systems.systems[j].1));
                    proof {
                        assert(plan@ =~= before + triggered_steps(systems.take(j as int + 1), key));
                    }
                }
                j = j + 1;
            }
            plan.push(DispatchStep::FinishEvent);
            proof {
                assert(systems.take(j as int) =~= systems);
                assert(keys.take(i as int + 1).drop_last() =~= keys.take(i as int));
                assert(keys.take(i as int + 1).last() == key);
                assert(plan@ =~= dispatch_plan(keys.take(i as int + 1), systems));
            }
            i = i + 1;
        }
        proof {
            assert(keys.take(n as int) =~= keys);
            law_each_event_retired_once(keys, systems);
        }
        plan
    }

    /// Retires the event at the front of the current tick's queue.
    pub fn finish_event(&mut self)
        ensures
            final(self).ecs.events.current() == (if old(self).ecs.events.current().len() == 0 {
                old(self).ecs.events.current()
            } else {
                old(self).ecs.events.current().drop_first()
            }),
            final(self).ecs.events.next() == old(self).ecs.events.next(),
            final(self).ecs.entities == old(self).ecs.entities,
            final(self).ecs.compoents == old(self).ecs.compoents,
            final(self).ecs.recources == old(self).ecs.recources,
            final(self).systems == old(self).systems,
            final(self).plugins == old(self).plugins,
            final(self).update_info == old(self).update_info,
    {
        self.ecs.events.events.pop_front();
    }

    /// Ends an update: the events raised during it become the next tick's
    /// current events.
    pub fn end_update(&mut self)
        ensures
            final(self).ecs.events.current() == old(self).ecs.events.next(),
            final(self).ecs.events.next() == Seq::<(TypeKey, E)>::empty(),
            final(self).ecs.entities == old(self).ecs.entities,
            final(self).ecs.compoents == old(self).ecs.compoents,
            final(self).ecs.recources == old(self).ecs.recources,
            final(self).systems == old(self).systems,
            final(self).plugins == old(self).plugins,
            final(self).update_info == old(self).update_info,
    {
        self.ecs.events.swap_and_clear();
    }
}

} // verus!
