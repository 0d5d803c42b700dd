//! Events the shell emits to the presentation layer, and the best-effort
//! channel that carries them.
//!
//! Emission is fire-and-forget: an event reaches the listener exactly once
//! when one is attached, and is dropped — not buffered — when none is.

use vstd::prelude::*;

verus! {

/// Application-level events fired by the global shortcuts.
#[derive(Clone, Copy, PartialEq, Eq, Structural, Debug)]
pub enum AppEvent {
    /// Start a work session.
    StartWork,
    /// Pause the running timer.
    Pause,
    /// Start a break.
    StartBreak,
}

impl AppEvent {
    /// The name under which the event is delivered to the presentation layer.
    pub open spec fn spec_name(self) -> Seq<char> {
        match self {
            AppEvent::StartWork => "shortcut-startWork"@,
            AppEvent::Pause => "shortcut-pause"@,
            AppEvent::StartBreak => "shortcut-startBreak"@,
        }
    }

    /// The wire name of the event: a zero-payload notification is emitted
    /// under this name.
    pub fn name(&self) -> (s: &'static str)
        ensures
            s@ == self.spec_name(),
    {
        match self {
            AppEvent::StartWork => "shortcut-startWork",
            AppEvent::Pause => "shortcut-pause",
            AppEvent::StartBreak => "shortcut-startBreak",
        }
    }
}

/// The channel from the shell to the presentation layer.
///
/// `delivered` is the log of events the listener has received, in delivery
/// order (the host loop delivers in FIFO order). While no listener is
/// attached, emitted events are dropped and the log does not grow.
pub struct EventChannel {
    listener_attached: bool,
    delivered: Vec<AppEvent>,
}

impl EventChannel {
    /// True while the presentation layer is listening.
    pub closed spec fn listening(self) -> bool {
        self.listener_attached
    }

    /// Every event delivered so far, in order.
    pub closed spec fn log(self) -> Seq<AppEvent> {
        self.delivered@
    }

    /// A channel starts with no listener and nothing delivered.
    pub fn new() -> (c: Self)
        ensures
            !c.listening(),
            c.log() == Seq::<AppEvent>::empty(),
    {
        EventChannel { listener_attached: false, delivered: Vec::new() }
    }

    /// The presentation layer starts listening. Nothing emitted earlier is
    /// replayed: there is no buffering.
    pub fn attach_listener(&mut self)
        ensures
            final(self).listening(),
            final(self).log() == old(self).log(),
    {
        self.listener_attached = true;
    }

    /// The presentation layer stops listening; later emissions are dropped.
    pub fn detach_listener(&mut self)
        ensures
            !final(self).listening(),
            final(self).log() == old(self).log(),
    {
        self.listener_attached = false;
    }

    /// Fire-and-forget emission: delivered exactly once when a listener is
    /// attached, dropped without trace when none is.
    pub fn emit(&mut self, event: AppEvent)
        ensures
            final(self).listening() == old(self).listening(),
            final(self).log() == (if old(self).listening() {
                old(self).log().push(event)
            } else {
                old(self).log()
            }),
    {
        if self.listener_attached {
            self.delivered.push(event);
        }
    }

    /// How many events have been delivered.
    pub fn delivered_count(&self) -> (n: usize)
        ensures
            n == self.log().len(),
    {
        self.delivered.len()
    }

    /// The `i`-th delivered event.
    pub fn delivered_at(&self, i: usize) -> (e: AppEvent)
        requires
            i < self.log().len(),
        ensures
            e == self.log()[i as int],
    {
        self.delivered[i]
    }
}

} // verus!
