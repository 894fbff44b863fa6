use vstd::prelude::*;
use crate::ids::{MessageId, ProtocolId};

verus! {

/// A request from the protocol `source` to the protocol `destination`,
/// carrying the payload `ipc`.
pub struct RequestEvent<I> {
    pub source: ProtocolId,
    pub destination: ProtocolId,
    pub ipc: I,
}

/// A reply from the protocol `source` to the protocol `destination`,
/// carrying the payload `ipc`.
pub struct ReplyEvent<I> {
    pub source: ProtocolId,
    pub destination: ProtocolId,
    pub ipc: I,
}

/// A notification published by the protocol `source` to every protocol that
/// subscribed to its type.
pub struct NotificationEvent<N> {
    pub source: ProtocolId,
    pub notification: N,
}

/// Everything that travels between the protocols and the router. The payloads
/// (`I` for requests and replies, `N` for notifications, `M` for network
/// messages) are opaque here: the router and the dispatcher decide by the
/// event's kind, its protocol ids and the type of its payload.
pub enum Event<I, N, M> {
    Request(RequestEvent<I>),
    Reply(ReplyEvent<I>),
    Notification(NotificationEvent<N>),
    Message(M),
    Shutdown,
}

/// A network message in its framed form: the id of its type, its encoded body,
/// and the protocols it comes from and goes to.
pub struct BabelMessage {
    pub id: MessageId,
    pub inner_message_bytes: Box<[u8]>,
    pub source: ProtocolId,
    pub destiny: ProtocolId,
}

} // verus!
