//! Events: a queue for the tick being processed and one for the next tick.
use std::collections::VecDeque;
use vstd::prelude::*;

use crate::entities::TypeKey;

verus! {

broadcast use vstd::std_specs::vecdeque::group_vec_dequeue_axioms;

/// The values that travel through the event queues.
pub trait Event: Clone {}

/// The two event queues, each entry tagged with the kind of its event.
pub struct Events<E> {
    /// The events of the tick being processed, oldest first.
    pub events: VecDeque<(TypeKey, E)>,
    /// The events raised for the next tick, oldest first.
    pub next_tick_events: VecDeque<(TypeKey, E)>,
}

impl<E> Events<E> {
    /// The current tick's queue.
    pub open spec fn current(&self) -> Seq<(TypeKey, E)> {
        self.events@
    }

    /// The next tick's queue.
    pub open spec fn next(&self) -> Seq<(TypeKey, E)> {
        self.next_tick_events@
    }
}

impl<E: Event> Events<E> {
    /// Both queues empty.
    pub fn new() -> (res: Self)
        ensures
            res.current() == Seq::<(TypeKey, E)>::empty(),
            res.next() == Seq::<(TypeKey, E)>::empty(),
    {
        Self { events: VecDeque::new(), next_tick_events: VecDeque::new() }
    }

    /// Appends an event of kind `key` to the current tick's queue.
    pub fn push_event(&mut self, key: TypeKey, event: E)
        ensures
            final(self).current() == old(self).current().push((key, event)),
            final(self).next() == old(self).next(),
    {
        self.events.push_back((key, event));
    }

    /// Appends an event of kind `key` to the next tick's queue.
    pub fn push_next_tick_event(&mut self, key: TypeKey, event: E)
        ensures
            final(self).current() == old(self).current(),
            final(self).next() == old(self).next().push((key, event)),
    {
        self.next_tick_events.push_back((key, event));
    }

    /// The event at the front of the current tick's queue, when it is of
    /// kind `key`; `None` when the queue is empty or its front event is of
    /// another kind.
    pub fn get_latest_event(&mut self, key: TypeKey) -> (res: Option<&E>)
        ensures
            final(self).current() == old(self).current(),
            final(self).next() == old(self).next(),
            match res {
                Some(e) => old(self).current().len() > 0 && old(self).current()[0].0 == key && *e
                    == old(self).current()[0].1,
                None => old(self).current().len() == 0 || old(self).current()[0].0 != key,
            },
    {
        if self.events.len() == 0 {
            return None;
        } else if self.events[0].0 != key {
            return None;
        }
        Some(&self.events[0].1)
    }

    /// Ends a tick: the next tick's queue becomes the current one and a new,
    /// empty queue collects the events raised from now on.
    pub fn swap_and_clear(&mut self)
        ensures
            final(self).current() == old(self).next(),
            final(self).next() == Seq::<(TypeKey, E)>::empty(),
    {
        std::mem::swap(&mut self.events, &mut self.next_tick_events);
        self.next_tick_events = VecDeque::new();
    }
}

} // verus!
