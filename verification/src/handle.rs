use vstd::prelude::*;
use crate::event::{Event, NotificationEvent, ReplyEvent, RequestEvent};
use crate::ids::ProtocolId;

verus! {

/// What a protocol holds to talk to the router: every event it builds names
/// this protocol as its source.
#[derive(Clone, Copy, Debug)]
pub struct ProtocolHandle {
    id: ProtocolId,
}

impl ProtocolHandle {
    /// The handle of the protocol `id`.
    pub fn new(id: ProtocolId) -> (handle: Self)
        ensures
            handle.id() == id,
    {
        ProtocolHandle { id }
    }

    /// The protocol this handle speaks for.
    pub closed spec fn id(&self) -> ProtocolId {
        self.id
    }

    /// The protocol this handle speaks for.
    pub fn protocol_id(&self) -> (id: ProtocolId)
        ensures
            id == self.id(),
    {
        self.id
    }

    /// The event that carries `request` from this protocol to `destination`.
    pub fn send_request<I, N, M>(&self, destination: ProtocolId, request: I) -> (event: Event<I, N, M>)
        ensures
            event == Event::<I, N, M>::Request(
                RequestEvent { source: self.id(), destination, ipc: request },
            ),
    {
        Event::Request(RequestEvent { source: self.id, destination, ipc: request })
    }

    /// The event that carries `reply` from this protocol to `destination`.
    pub fn send_reply<I, N, M>(&self, destination: ProtocolId, reply: I) -> (event: Event<I, N, M>)
        ensures
            event == Event::<I, N, M>::Reply(
                ReplyEvent { source: self.id(), destination, ipc: reply },
            ),
    {
        Event::Reply(ReplyEvent { source: self.id, destination, ipc: reply })
    }

    /// The event that publishes `notif` from this protocol.
    pub fn notify<I, N, M>(&self, notif: N) -> (event: Event<I, N, M>)
        ensures
            event == Event::<I, N, M>::Notification(
                NotificationEvent { source: self.id(), notification: notif },
            ),
    {
        Event::Notification(NotificationEvent { source: self.id, notification: notif })
    }
}

} // verus!
