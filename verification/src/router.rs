use vstd::prelude::*;
use dashmap::DashMap;
use crate::builder::{distinct_ids, ids_of};
use crate::counting::occurrences;
use crate::event::Event;
use crate::ids::ProtocolId;
use crate::table::{new_table, subscription_table, table_get, table_insert};

verus! {

/// The protocols that receive a notification of type `t`, given each
/// protocol's id and subscriptions in the order of registration: each protocol
/// once per time it lists `t`, in the order of registration.
pub open spec fn subscribers_of(members: Seq<(ProtocolId, Seq<u64>)>, t: u64) -> Seq<ProtocolId>
    decreases members.len(),
{
    if members.len() == 0 {
        Seq::empty()
    } else {
        let last = members.last();
        subscribers_of(members.drop_last(), t) + Seq::new(occurrences(last.1, t), |_i: int| last.0)
    }
}

/// Pairs each protocol id with its subscriptions.
pub open spec fn members_of<R>(runtimes: Seq<(ProtocolId, R)>, subscriptions: Seq<Vec<u64>>) -> Seq<
    (ProtocolId, Seq<u64>),
> {
    Seq::new(runtimes.len(), |i: int| (runtimes[i].0, subscriptions[i]@))
}

/// The list a subscription table holds for `t`; empty where it holds none.
pub open spec fn listed(table: Map<u64, Seq<ProtocolId>>, t: u64) -> Seq<ProtocolId> {
    if table.contains_key(t) {
        table[t]
    } else {
        Seq::empty()
    }
}

/// Appending a subscription of `id` to `s[j]` adds `id` to the subscribers of
/// `s[j]` and of no other type.
proof fn lemma_subscribe_one_more(
    prefix: Seq<(ProtocolId, Seq<u64>)>,
    id: ProtocolId,
    s: Seq<u64>,
    j: int,
    t: u64,
)
    requires
        0 <= j < s.len(),
    ensures
        subscribers_of(prefix.push((id, s.take(j + 1))), t) == subscribers_of(
            prefix.push((id, s.take(j))),
            t,
        ) + if s[j] == t {
            seq![id]
        } else {
            Seq::empty()
        },
{
    let longer = prefix.push((id, s.take(j + 1)));
    let shorter = prefix.push((id, s.take(j)));
    assert(longer.drop_last() == prefix);
    assert(shorter.drop_last() == prefix);
    assert(s.take(j + 1).drop_last() == s.take(j));
    let c = occurrences(s.take(j), t);
    if s[j] == t {
        assert(Seq::new(c + 1, |_i: int| id) == Seq::new(c, |_i: int| id).push(id));
    }
}

/// A protocol that lists nothing subscribes to nothing.
proof fn lemma_subscribe_none(prefix: Seq<(ProtocolId, Seq<u64>)>, id: ProtocolId, t: u64)
    ensures
        subscribers_of(prefix.push((id, Seq::<u64>::empty())), t) == subscribers_of(prefix, t),
{
    let longer = prefix.push((id, Seq::<u64>::empty()));
    assert(longer.drop_last() == prefix);
    assert(Seq::new(0, |_i: int| id) == Seq::<ProtocolId>::empty());
}

/// What the router does with an event.
#[derive(Debug)]
pub enum Route {
    /// Hand the event to the runtime of this protocol.
    Deliver(ProtocolId),
    /// The destination is not registered: the event is dropped, with a warning.
    Unregistered(ProtocolId),
    /// Hand a copy of the notification to each of these protocols, in order.
    Broadcast(Vec<ProtocolId>),
    /// Nothing is sent.
    Discard,
}

/// The router of a running instance: the runtime of each registered protocol,
/// and for each type of notification the protocols subscribed to it.
pub struct Babel<R> {
    runtimes: Vec<(ProtocolId, R)>,
    notification_subscriptions: DashMap<u64, Vec<ProtocolId>>,
}

impl<R> Babel<R> {
    #[verifier::type_invariant]
    spec fn ids_unique(self) -> bool {
        distinct_ids(ids_of(self.runtimes@))
    }

    /// Each registered protocol with its runtime, in the order of registration.
    pub closed spec fn entries(&self) -> Seq<(ProtocolId, R)> {
        self.runtimes@
    }

    /// The registered protocols, in the order of registration.
    pub open spec fn ids(&self) -> Seq<ProtocolId> {
        ids_of(self.entries())
    }

    /// The protocols that receive a notification of type `t`, in order.
    pub closed spec fn subscribers(&self, t: u64) -> Seq<ProtocolId> {
        listed(subscription_table(self.notification_subscriptions), t)
    }

    /// The router of the protocols `runtimes` (each id with its runtime, in the
    /// order of registration), where `subscriptions[i]` lists the notification
    /// types the `i`-th protocol subscribes to.
    pub fn new(runtimes: Vec<(ProtocolId, R)>, subscriptions: Vec<Vec<u64>>) -> (babel: Self)
        requires
            distinct_ids(ids_of(runtimes@)),
            subscriptions.len() == runtimes.len(),
        ensures
            babel.entries() == runtimes@,
            babel.subscribed_as(members_of(runtimes@, subscriptions@)),
    {
        let ghost members = members_of(runtimes@, subscriptions@);
        let mut table = new_table();
        let n = runtimes.len();
        let mut i: usize = 0;
        proof {
            assert forall|t: u64| listed(subscription_table(table), t) == subscribers_of(members.take(0), t) by {
                assert(members.take(0).len() == 0);
            }
        }
        while i < n
            invariant
                n == runtimes.len(),
                n == subscriptions.len(),
                i <= n,
                members == members_of(runtimes@, subscriptions@),
                forall|t: u64| #[trigger] listed(subscription_table(table), t) == subscribers_of(members.take(i as int), t),
            decreases n - i,
        {
            let id = runtimes[i].0;
            let subs = &subscriptions[i];
            let mut j: usize = 0;
            proof {
                assert(subs@.take(0) == Seq::<u64>::empty());
                assert forall|t: u64|
                    listed(subscription_table(table), t) == subscribers_of(
                        members.take(i as int).push((id, subs@.take(0))),
                        t,
                    ) by {
                    lemma_subscribe_none(members.take(i as int), id, t);
                }
            }
            while j < subs.len()
                invariant
                    n == runtimes.len(),
                    n == subscriptions.len(),
                    i < n,
                    j <= subs.len(),
                    subs == &subscriptions[i as int],
                    id == runtimes@[i as int].0,
                    members == members_of(runtimes@, subscriptions@),
                    forall|t: u64|
                        #[trigger] listed(subscription_table(table), t) == subscribers_of(
                            members.take(i as int).push((id, subs@.take(j as int))),
                            t,
                        ),
                decreases subs.len() - j,
            {
                let t = subs[j];
                let ghost before = subscription_table(table);
                let mut list = match table_get(&table, t) {
                    Some(l) => l,
                    None => Vec::new(),
                };
                list.push(id);
                proof {
                    assert(list@ == listed(before, t).push(id));
                }
                let ghost pushed = list@;
                let _ = table_insert(&mut table, t, list);
                proof {
                    assert(subscription_table(table) == before.insert(t, pushed));
                    assert forall|u: u64|
                        #[trigger] listed(subscription_table(table), u) == subscribers_of(
                            members.take(i as int).push((id, subs@.take(j + 1))),
                            u,
                        ) by {
                        lemma_subscribe_one_more(members.take(i as int), id, subs@, j as int, u);
                        assert(listed(before, u) == subscribers_of(
                            members.take(i as int).push((id, subs@.take(j as int))),
                            u,
                        ));
                        if u != t {
                            assert(listed(subscription_table(table), u) == listed(before, u));
                        } else {
                            assert(subs@[j as int] == t);
                            assert(listed(subscription_table(table), u) == listed(before, u).push(id));
                        }
                    }
                }
                j += 1;
            }
            proof {
                assert(subs@.take(j as int) == subs@);
                assert(members.take(i + 1) == members.take(i as int).push(members[i as int]));
            }
            i += 1;
        }
        proof {
            assert(members.take(n as int) == members);
        }
        Babel { runtimes, notification_subscriptions: table }
    }

    /// The subscriptions of this router are those of `members`.
    pub open spec fn subscribed_as(&self, members: Seq<(ProtocolId, Seq<u64>)>) -> bool {
        forall|t: u64| #[trigger] self.subscribers(t) == subscribers_of(members, t)
    }

    /// Where `id` stands among the registered protocols, if it is registered.
    fn position(&self, id: ProtocolId) -> (pos: Option<usize>)
        ensures
            match pos {
                Some(i) => i < self.entries().len() && self.entries()[i as int].0 == id,
                None => !self.ids().contains(id),
            },
    {
        let mut i: usize = 0;
        while i < self.runtimes.len()
            invariant
                i <= self.runtimes.len(),
                forall|k: int| 0 <= k < i ==> self.runtimes@[k].0 != id,
            decreases self.runtimes.len() - i,
        {
            if self.runtimes[i].0 == id {
                return Some(i);
            }
            i += 1;
        }
        None
    }

    /// Whether a protocol with this id is registered.
    pub fn is_registered(&self, id: ProtocolId) -> (registered: bool)
        ensures
            registered == self.ids().contains(id),
    {
        match self.position(id) {
            Some(i) => {
                proof {
                    assert(self.ids()[i as int] == id);
                }
                true
            },
            None => false,
        }
    }

    /// The runtime of the protocol `id`, if it is registered.
    pub fn runtime(&self, id: ProtocolId) -> (runtime: Option<&R>)
        ensures
            match runtime {
                Some(rt) => exists|i: int|
                    0 <= i < self.entries().len() && #[trigger] self.entries()[i] == (id, *rt),
                None => !self.ids().contains(id),
            },
    {
        match self.position(id) {
            Some(i) => {
                let rt = &self.runtimes[i].1;
                proof {
                    assert(self.entries()[i as int] == (id, *rt));
                }
                Some(rt)
            },
            None => None,
        }
    }

    /// The protocols that receive a notification of type `t`, in order: each
    /// subscriber once per time it subscribed to `t`.
    pub fn notification_subscribers(&self, t: u64) -> (subscribers: Vec<ProtocolId>)
        ensures
            subscribers@ == self.subscribers(t),
    {
        match table_get(&self.notification_subscriptions, t) {
            Some(list) => list,
            None => Vec::new(),
        }
    }

    /// The protocols a shutdown is sent to: every registered protocol, once
    /// each, in the order of registration.
    pub fn shutdown(&self) -> (targets: Vec<ProtocolId>)
        ensures
            targets@ == self.ids(),
            distinct_ids(targets@),
    {
        proof {
            use_type_invariant(self);
        }
        let mut out: Vec<ProtocolId> = Vec::new();
        let mut i: usize = 0;
        while i < self.runtimes.len()
            invariant
                i <= self.runtimes.len(),
                out@ == ids_of(self.runtimes@.take(i as int)),
            decreases self.runtimes.len() - i,
        {
            out.push(self.runtimes[i].0);
            proof {
                assert(self.runtimes@.take(i + 1) == self.runtimes@.take(i as int).push(
                    self.runtimes@[i as int],
                ));
            }
            i += 1;
        }
        proof {
            assert(self.runtimes@.take(i as int) == self.runtimes@);
        }
        out
    }

    /// What the router does with `event`, whose payload has type `payload_type`
    /// (consulted for notifications only): a request or a reply goes to its
    /// destination if that is registered, and is dropped with a warning if not;
    /// a notification goes to every subscriber of its type; a network message
    /// is not forwarded. The router never receives a shutdown.
    pub fn route<I, N, M>(&self, event: &Event<I, N, M>, payload_type: u64) -> (route: Route)
        requires
            !(event is Shutdown),
        ensures
            self.routes(*event, payload_type, route),
    {
        match event {
            Event::Request(r) => {
                if self.is_registered(r.destination) {
                    Route::Deliver(r.destination)
                } else {
                    Route::Unregistered(r.destination)
                }
            },
            Event::Reply(r) => {
                if self.is_registered(r.destination) {
                    Route::Deliver(r.destination)
                } else {
                    Route::Unregistered(r.destination)
                }
            },
            Event::Notification(_) => Route::Broadcast(self.notification_subscribers(payload_type)),
            Event::Message(_) => Route::Discard,
            Event::Shutdown => {
                proof {
                    assert(false);
                }
                Route::Discard
            },
        }
    }

    /// What routing `event`, whose payload has type `t`, comes to.
    pub open spec fn routes<I, N, M>(&self, event: Event<I, N, M>, t: u64, route: Route) -> bool {
        match event {
            Event::Request(r) => if self.ids().contains(r.destination) {
                route == Route::Deliver(r.destination)
            } else {
                route == Route::Unregistered(r.destination)
            },
            Event::Reply(r) => if self.ids().contains(r.destination) {
                route == Route::Deliver(r.destination)
            } else {
                route == Route::Unregistered(r.destination)
            },
            Event::Notification(_) => route matches Route::Broadcast(v) && v@ == self.subscribers(
                t,
            ),
            Event::Message(_) => route == Route::Discard,
            Event::Shutdown => false,
        }
    }
}

} // verus!
