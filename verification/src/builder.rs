use vstd::prelude::*;
use crate::ids::{decimal, push_decimal, ProtocolId};
use crate::router::{members_of, Babel};

verus! {

/// The log filter a builder was configured with (`log::LevelFilter`), carried
/// through unread.
#[verifier::external_type_specification]
#[verifier::external_body]
pub struct ExLevelFilter(log::LevelFilter);

/// What every protocol tells the runtime about itself: its id.
pub trait ProtocolInit {
    fn id(&self) -> ProtocolId;
}

/// What a protocol tells the runtime about the events it handles: the types of
/// notification it subscribes to, each given by the key that stands for it.
pub trait ProtocolHandlers: ProtocolInit {
    fn get_subscriptions(&self) -> Vec<u64>;
}

/// A protocol: something with an id and subscriptions.
pub trait Protocol: ProtocolHandlers {
}

impl<T: ProtocolHandlers> Protocol for T {
}

/// Why a builder refused a protocol.
#[derive(Clone, Copy, Debug, PartialEq, Eq, Structural)]
pub enum BabelError {
    /// A protocol with this id is already registered.
    ProtocolIdConflict(ProtocolId),
}

impl BabelError {
    /// The text of the error: for a conflict, "ProtocolId conflict: " and the
    /// conflicting id in decimal.
    pub fn message(&self) -> (text: String)
        ensures
            match self {
                BabelError::ProtocolIdConflict(id) => text@ == "ProtocolId conflict: "@ + decimal(
                    id.0 as nat,
                ),
            },
    {
        match self {
            BabelError::ProtocolIdConflict(id) => {
                let mut text = "ProtocolId conflict: ".to_owned();
                push_decimal(&mut text, id.0);
                text
            },
        }
    }
}

/// The ids of a sequence of entries, in order.
pub open spec fn ids_of<P>(entries: Seq<(ProtocolId, P)>) -> Seq<ProtocolId> {
    entries.map_values(|e: (ProtocolId, P)| e.0)
}

/// No id occurs twice.
pub open spec fn distinct_ids(ids: Seq<ProtocolId>) -> bool {
    forall|i: int, j: int| 0 <= i < j < ids.len() ==> ids[i] != ids[j]
}

/// Collects the protocols of a Babel instance, at most one per id, in the order
/// of registration, and the log filter to start it with.
pub struct BabelBuilder<P> {
    protocols: Vec<(ProtocolId, P)>,
    log_level: Option<log::LevelFilter>,
}

impl<P> BabelBuilder<P> {
    #[verifier::type_invariant]
    spec fn ids_unique(self) -> bool {
        distinct_ids(ids_of(self.protocols@))
    }

    /// The registered protocols with their ids, in the order of registration.
    pub closed spec fn entries(&self) -> Seq<(ProtocolId, P)> {
        self.protocols@
    }

    /// The ids of the registered protocols, in the order of registration.
    pub open spec fn ids(&self) -> Seq<ProtocolId> {
        ids_of(self.entries())
    }

    /// The log filter to start with, if one was given.
    pub closed spec fn log_level(&self) -> Option<log::LevelFilter> {
        self.log_level
    }

    /// The outcome of registering `protocol` under `id`: accepted, and appended
    /// with the log filter kept, exactly when no registered protocol has that
    /// id; refused with a conflict on `id` otherwise.
    pub open spec fn registration(&self, id: ProtocolId, protocol: P, result: Result<Self, BabelError>) -> bool {
        match result {
            Ok(builder) => {
                &&& !self.ids().contains(id)
                &&& builder.entries() == self.entries().push((id, protocol))
                &&& builder.log_level() == self.log_level()
                &&& distinct_ids(builder.ids())
            },
            Err(e) => {
                &&& self.ids().contains(id)
                &&& e == BabelError::ProtocolIdConflict(id)
            },
        }
    }

    /// A builder with no protocol and no log filter.
    pub fn new() -> (builder: Self)
        ensures
            builder.entries() == Seq::<(ProtocolId, P)>::empty(),
            builder.log_level() == None::<log::LevelFilter>,
    {
        BabelBuilder { protocols: Vec::new(), log_level: None }
    }

    /// The same builder, set to start logging at `level`.
    pub fn with_logging(self, level: log::LevelFilter) -> (builder: Self)
        ensures
            builder.entries() == self.entries(),
            builder.log_level() == Some(level),
            distinct_ids(builder.ids()),
    {
        proof {
            use_type_invariant(&self);
        }
        let BabelBuilder { protocols, log_level: _ } = self;
        BabelBuilder { protocols, log_level: Some(level) }
    }

    /// The number of registered protocols.
    pub fn len(&self) -> (n: usize)
        ensures
            n == self.entries().len(),
    {
        self.protocols.len()
    }

    /// The ids of the registered protocols, in the order of registration.
    pub fn protocol_ids(&self) -> (ids: Vec<ProtocolId>)
        ensures
            ids@ == self.ids(),
            distinct_ids(ids@),
    {
        proof {
            use_type_invariant(self);
        }
        let mut ids: Vec<ProtocolId> = Vec::new();
        let mut i: usize = 0;
        while i < self.protocols.len()
            invariant
                i <= self.protocols.len(),
                ids@ == ids_of(self.protocols@.take(i as int)),
            decreases self.protocols.len() - i,
        {
            ids.push(self.protocols[i].0);
            proof {
                assert(self.protocols@.take(i + 1) == self.protocols@.take(i as int).push(
                    self.protocols@[i as int],
                ));
            }
            i += 1;
        }
        proof {
            assert(self.protocols@.take(i as int) == self.protocols@);
        }
        ids
    }

    /// The protocol registered under `id`, if any.
    pub fn protocol(&self, id: ProtocolId) -> (found: Option<&P>)
        ensures
            match found {
                Some(p) => exists|i: int|
                    0 <= i < self.entries().len() && #[trigger] self.entries()[i] == (id, *p),
                None => !self.ids().contains(id),
            },
    {
        let mut i: usize = 0;
        while i < self.protocols.len()
            invariant
                i <= self.protocols.len(),
                forall|k: int| 0 <= k < i ==> self.protocols@[k].0 != id,
            decreases self.protocols.len() - i,
        {
            if self.protocols[i].0 == id {
                let p = &self.protocols[i].1;
                proof {
                    assert(self.entries()[i as int] == (id, *p));
                }
                return Some(p);
            }
            i += 1;
        }
        None
    }

    /// Registers `protocol` under `id`, unless a protocol with that id is
    /// registered already.
    pub fn register_protocol_with_id(self, id: ProtocolId, protocol: P) -> (result: Result<
        Self,
        BabelError,
    >)
        ensures
            self.registration(id, protocol, result),
    {
        proof {
            use_type_invariant(&self);
        }
        let mut i: usize = 0;
        while i < self.protocols.len()
            invariant
                i <= self.protocols.len(),
                forall|k: int| 0 <= k < i ==> self.protocols@[k].0 != id,
            decreases self.protocols.len() - i,
        {
            if self.protocols[i].0 == id {
                proof {
                    assert(self.ids()[i as int] == id);
                }
                return Err(BabelError::ProtocolIdConflict(id));
            }
            i += 1;
        }
        proof {
            assert(!self.ids().contains(id));
        }
        let BabelBuilder { mut protocols, log_level } = self;
        protocols.push((id, protocol));
        proof {
            assert(ids_of(protocols@) == ids_of(self.protocols@).push(id));
        }
        Ok(BabelBuilder { protocols, log_level })
    }
}

/// Each of `subscriptions` is what the protocol of the same rank among
/// `entries` reported when asked for its subscriptions.
pub open spec fn reported_subscriptions<P: ProtocolHandlers>(
    entries: Seq<(ProtocolId, P)>,
    subscriptions: Seq<Vec<u64>>,
) -> bool {
    &&& subscriptions.len() == entries.len()
    &&& forall|i: int|
        0 <= i < entries.len() ==> call_ensures(
            P::get_subscriptions,
            (&entries[i].1,),
            #[trigger] subscriptions[i],
        )
}

/// `babel` routes notifications by the subscriptions that the protocols
/// `entries` reported, and holds the runtimes `runtimes`.
pub open spec fn started_with<P: ProtocolHandlers, R>(
    babel: Babel<R>,
    entries: Seq<(ProtocolId, P)>,
    runtimes: Seq<(ProtocolId, R)>,
) -> bool {
    exists|subscriptions: Seq<Vec<u64>>|
        #[trigger] reported_subscriptions(entries, subscriptions) && babel.subscribed_as(
            members_of(runtimes, subscriptions),
        )
}

impl<P: Protocol> BabelBuilder<P> {
    /// Starts the registered protocols: `runtimes` gives the runtime of each
    /// registered protocol, in the order of registration. The router holds
    /// exactly these runtimes and the subscriptions that each protocol reports;
    /// the protocols, in the same order, and the log filter are handed back to
    /// be run.
    pub fn start<R>(self, runtimes: Vec<(ProtocolId, R)>) -> (started: (
        Babel<R>,
        Vec<(ProtocolId, P)>,
        Option<log::LevelFilter>,
    ))
        requires
            ids_of(runtimes@) == self.ids(),
        ensures
            started.0.entries() == runtimes@,
            started.0.ids() == self.ids(),
            started.1@ == self.entries(),
            started.2 == self.log_level(),
            started_with(started.0, self.entries(), runtimes@),
    {
        proof {
            use_type_invariant(&self);
        }
        let ghost given = runtimes@;
        let ghost entries = self.entries();
        let mut subscriptions: Vec<Vec<u64>> = Vec::new();
        let mut i: usize = 0;
        while i < self.protocols.len()
            invariant
                i <= self.protocols.len(),
                subscriptions.len() == i,
                entries == self.protocols@,
                forall|k: int|
                    0 <= k < i ==> call_ensures(
                        P::get_subscriptions,
                        (&entries[k].1,),
                        #[trigger] subscriptions@[k],
                    ),
            decreases self.protocols.len() - i,
        {
            subscriptions.push(self.protocols[i].1.get_subscriptions());
            i += 1;
        }
        let BabelBuilder { protocols, log_level } = self;
        proof {
            assert(runtimes@.len() == ids_of(runtimes@).len());
        }
        let ghost listed = subscriptions@;
        let babel = Babel::new(runtimes, subscriptions);
        proof {
            assert(listed.len() == given.len());
            assert(babel.subscribed_as(members_of(given, listed)));
            assert(reported_subscriptions(entries, listed));
            assert(started_with(babel, entries, given));
        }
        (babel, protocols, log_level)
    }

    /// Registers `protocol` under the id it reports, unless a protocol with that
    /// id is registered already: the outcome is that of
    /// `register_protocol_with_id` for the id that `protocol.id()` returned.
    pub fn register_protocol(self, protocol: P) -> (result: Result<Self, BabelError>)
        ensures
            exists|id: ProtocolId|
                call_ensures(P::id, (&protocol,), id) && #[trigger] self.registration(
                    id,
                    protocol,
                    result,
                ),
    {
        let id = protocol.id();
        self.register_protocol_with_id(id, protocol)
    }
}

} // verus!
