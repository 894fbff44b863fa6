use vstd::prelude::*;
use std::collections::HashMap;
use crate::event::Event;

verus! {

broadcast use vstd::std_specs::hash::group_hash_axioms;

/// The handlers of one protocol: for requests, replies, notifications and
/// network messages, one handler per type of payload, found by the key that
/// stands for the type; and at most one handler for shutdown.
pub struct Handlers<H, MH, S> {
    pub request_handlers: HashMap<u64, H>,
    pub reply_handlers: HashMap<u64, H>,
    pub notification_handlers: HashMap<u64, H>,
    pub message_handlers: HashMap<u64, MH>,
    pub shutdown_handler: Option<S>,
}

/// What a protocol does with an event it receives.
pub enum Step<'a, H, MH, S> {
    /// Call this handler with the event's payload and source.
    Handle(&'a H),
    /// Call this handler with the network message.
    HandleMessage(&'a MH),
    /// No handler takes payloads of this type: the event is dropped, with a
    /// warning.
    Unhandled(u64),
    /// Run this shutdown handler, if there is one, and stop receiving.
    Stop(Option<&'a S>),
    /// The protocol has stopped: the event is not handled.
    Ignore,
}

/// Whether a protocol still takes events.
#[derive(Clone, Copy, Debug, PartialEq, Eq, Structural)]
pub enum LoopState {
    Running,
    Stopped,
}

/// The state after an event: a shutdown stops the protocol for good.
pub open spec fn next_state<I, N, M>(state: LoopState, event: Event<I, N, M>) -> LoopState {
    if state == LoopState::Running && !(event is Shutdown) {
        LoopState::Running
    } else {
        LoopState::Stopped
    }
}

/// `step` is what a table of handlers gives for payload type `t`: its handler
/// for `t`, or none.
pub open spec fn handled_by<H, MH, S>(table: Map<u64, H>, t: u64, step: Step<H, MH, S>) -> bool {
    if table.contains_key(t) {
        step matches Step::Handle(h) && *h == table[t]
    } else {
        step == Step::<H, MH, S>::Unhandled(t)
    }
}

/// Looks up the handler for payload type `t` in `table`.
pub fn handle_ipc_event<'a, H, MH, S>(table: &'a HashMap<u64, H>, t: u64) -> (step: Step<'a, H, MH, S>)
    ensures
        handled_by(table@, t, step),
{
    match table.get(&t) {
        Some(h) => Step::Handle(h),
        None => Step::Unhandled(t),
    }
}

impl<H, MH, S> Handlers<H, MH, S> {
    /// No handler at all.
    pub fn new() -> (handlers: Self)
        ensures
            handlers.request_handlers@ == Map::<u64, H>::empty(),
            handlers.reply_handlers@ == Map::<u64, H>::empty(),
            handlers.notification_handlers@ == Map::<u64, H>::empty(),
            handlers.message_handlers@ == Map::<u64, MH>::empty(),
            handlers.shutdown_handler is None,
    {
        Handlers {
            request_handlers: HashMap::new(),
            reply_handlers: HashMap::new(),
            notification_handlers: HashMap::new(),
            message_handlers: HashMap::new(),
            shutdown_handler: None,
        }
    }

    /// What handling `event`, whose payload has type `t`, comes to.
    pub open spec fn steps<I, N, M>(&self, event: Event<I, N, M>, t: u64, step: Step<H, MH, S>) -> bool {
        match event {
            Event::Request(_) => handled_by(self.request_handlers@, t, step),
            Event::Reply(_) => handled_by(self.reply_handlers@, t, step),
            Event::Notification(_) => handled_by(self.notification_handlers@, t, step),
            Event::Message(_) => if self.message_handlers@.contains_key(t) {
                step matches Step::HandleMessage(h) && *h == self.message_handlers@[t]
            } else {
                step == Step::<H, MH, S>::Unhandled(t)
            },
            Event::Shutdown => match step {
                Step::Stop(Some(h)) => self.shutdown_handler == Some(*h),
                Step::Stop(None) => self.shutdown_handler is None,
                _ => false,
            },
        }
    }

    /// What receiving `event` in `state` comes to: a running protocol takes
    /// the step its handlers give; a stopped one ignores the event.
    pub open spec fn receives<I, N, M>(
        &self,
        state: LoopState,
        event: Event<I, N, M>,
        t: u64,
        next: LoopState,
        step: Step<H, MH, S>,
    ) -> bool {
        &&& next == next_state(state, event)
        &&& if state == LoopState::Running {
            self.steps(event, t, step)
        } else {
            step == Step::<H, MH, S>::Ignore
        }
    }

    /// Receives `event`, whose payload has type `payload_type`, in `state`:
    /// the next state, and the step to take.
    pub fn receive<I, N, M>(&self, state: LoopState, event: &Event<I, N, M>, payload_type: u64) -> (received: (
        LoopState,
        Step<'_, H, MH, S>,
    ))
        ensures
            self.receives(state, *event, payload_type, received.0, received.1),
    {
        match state {
            LoopState::Running => {
                let next = match event {
                    Event::Shutdown => LoopState::Stopped,
                    _ => LoopState::Running,
                };
                (next, self.step(event, payload_type))
            },
            LoopState::Stopped => (LoopState::Stopped, Step::Ignore),
        }
    }

    /// What the protocol does with `event`, whose payload has type
    /// `payload_type`: a request, a reply or a notification goes to the handler
    /// of its kind for that type, a network message to the message handler for
    /// that type, and the event is dropped where there is none; a shutdown runs
    /// the shutdown handler, if any, and ends the protocol's loop.
    pub fn step<I, N, M>(&self, event: &Event<I, N, M>, payload_type: u64) -> (step: Step<'_, H, MH, S>)
        ensures
            self.steps(*event, payload_type, step),
    {
        match event {
            Event::Request(_) => handle_ipc_event(&self.request_handlers, payload_type),
            Event::Reply(_) => handle_ipc_event(&self.reply_handlers, payload_type),
            Event::Notification(_) => handle_ipc_event(&self.notification_handlers, payload_type),
            Event::Message(_) => match self.message_handlers.get(&payload_type) {
                Some(h) => Step::HandleMessage(h),
                None => Step::Unhandled(payload_type),
            },
            Event::Shutdown => Step::Stop(self.shutdown_handler.as_ref()),
        }
    }
}

} // verus!
