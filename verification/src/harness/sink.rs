//! In-memory event sink for harness engines.

use std::rc::Rc;
use vstd::cell::invcell::InvCell;
use vstd::predicate::Predicate;
use vstd::prelude::*;
use crate::events::{Event, EventSink, EventSinkError};

verus! {

/// The buffer of a collecting sink may hold any events.
pub struct AnyEvents;

impl Predicate<Vec<Event>> for AnyEvents {
    open spec fn predicate(&self, v: Vec<Event>) -> bool {
        true
    }
}

/// Sink that appends every event to a buffer shared by all its clones.
///
/// The buffer is written through shared references, so the specification tracks no
/// contents: what `events` returns is whatever the clones of the sink have appended.
#[derive(Clone)]
pub struct CollectingEventSink {
    events: Rc<InvCell<Vec<Event>, AnyEvents>>,
}

impl CollectingEventSink {
    /// A sink with an empty buffer.
    pub fn new() -> Self {
        CollectingEventSink { events: Rc::new(InvCell::new(Vec::new(), Ghost(AnyEvents))) }
    }

    /// A copy of the events collected so far, oldest first.
    pub fn events(&self) -> Vec<Event> {
        let held = self.events.replace(Vec::new());
        let copy = held.clone();
        self.events.replace(held);
        copy
    }

    /// Empties the buffer.
    pub fn clear(&self) {
        self.events.replace(Vec::new());
    }
}

impl EventSink for CollectingEventSink {
    open spec fn never_fails(&self) -> bool {
        true
    }

    fn emit(&self, event: Event) -> (r: Result<(), EventSinkError>)
        ensures
            r is Ok,
    {
        let mut held = self.events.replace(Vec::new());
        held.push(event);
        self.events.replace(held);
        Ok(())
    }
}

} // verus!
