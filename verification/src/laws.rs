use vstd::prelude::*;
use crate::builder::{distinct_ids, ids_of, BabelBuilder, BabelError, ProtocolInit};
use crate::dispatch::{next_state, Handlers, LoopState, Step};
use crate::event::{Event, NotificationEvent, RequestEvent};
use crate::handle::ProtocolHandle;
use crate::ids::ProtocolId;
use crate::counting::{
    lemma_occurrences_concat, lemma_occurrences_contains, lemma_occurrences_repeat, occurrences,
};
use crate::router::{members_of, subscribers_of, Babel, Route};

verus! {

/// The number of subscriptions to `t` that the members with id `p` list.
spec fn listed_by(members: Seq<(ProtocolId, Seq<u64>)>, t: u64, p: ProtocolId) -> nat
    decreases members.len(),
{
    if members.len() == 0 {
        0
    } else {
        listed_by(members.drop_last(), t, p) + if members.last().0 == p {
            occurrences(members.last().1, t)
        } else {
            0
        }
    }
}

proof fn lemma_occurrences_listed(members: Seq<(ProtocolId, Seq<u64>)>, t: u64, p: ProtocolId)
    ensures
        occurrences(subscribers_of(members, t), p) == listed_by(members, t, p),
    decreases members.len(),
{
    if members.len() > 0 {
        let last = members.last();
        lemma_occurrences_listed(members.drop_last(), t, p);
        lemma_occurrences_concat(
            subscribers_of(members.drop_last(), t),
            Seq::new(occurrences(last.1, t), |_i: int| last.0),
            p,
        );
        lemma_occurrences_repeat(occurrences(last.1, t), last.0, p);
    }
}

proof fn lemma_listed_by_unique(members: Seq<(ProtocolId, Seq<u64>)>, t: u64, i: int)
    requires
        distinct_ids(ids_of(members)),
        0 <= i < members.len(),
    ensures
        listed_by(members, t, members[i].0) == occurrences(members[i].1, t),
    decreases members.len(),
{
    let p = members[i].0;
    if i == members.len() - 1 {
        assert forall|k: int| 0 <= k < members.drop_last().len() implies members.drop_last()[k].0
            != p by {
            assert(ids_of(members)[k] != ids_of(members)[i]);
        }
        lemma_listed_by_absent(members.drop_last(), t, p);
    } else {
        assert(ids_of(members.drop_last()) == ids_of(members).drop_last());
        assert(members.drop_last()[i] == members[i]);
        lemma_listed_by_unique(members.drop_last(), t, i);
        assert(ids_of(members)[i] != ids_of(members)[members.len() - 1]);
    }
}

proof fn lemma_listed_by_absent(members: Seq<(ProtocolId, Seq<u64>)>, t: u64, p: ProtocolId)
    requires
        forall|k: int| 0 <= k < members.len() ==> members[k].0 != p,
    ensures
        listed_by(members, t, p) == 0,
    decreases members.len(),
{
    if members.len() > 0 {
        lemma_listed_by_absent(members.drop_last(), t, p);
    }
}


/// A registered protocol receives each notification of type `t` as many times
/// as it listed `t` among its subscriptions.
pub proof fn law_notification_occurrences(members: Seq<(ProtocolId, Seq<u64>)>, t: u64, i: int)
    requires
        distinct_ids(ids_of(members)),
        0 <= i < members.len(),
    ensures
        occurrences(subscribers_of(members, t), members[i].0) == occurrences(members[i].1, t),
{
    lemma_occurrences_listed(members, t, members[i].0);
    lemma_listed_by_unique(members, t, i);
}

/// A registered protocol is among the receivers of notifications of type `t`
/// exactly when it subscribed to `t`.
pub proof fn law_subscribers_are_the_subscribed(
    members: Seq<(ProtocolId, Seq<u64>)>,
    t: u64,
    i: int,
)
    requires
        distinct_ids(ids_of(members)),
        0 <= i < members.len(),
    ensures
        subscribers_of(members, t).contains(members[i].0) <==> members[i].1.contains(t),
{
    law_notification_occurrences(members, t, i);
    lemma_occurrences_contains(subscribers_of(members, t), members[i].0);
    lemma_occurrences_contains(members[i].1, t);
}

/// A protocol that is not registered receives no notification.
pub proof fn law_outsiders_receive_no_notification(
    members: Seq<(ProtocolId, Seq<u64>)>,
    t: u64,
    p: ProtocolId,
)
    requires
        !ids_of(members).contains(p),
    ensures
        !subscribers_of(members, t).contains(p),
{
    assert forall|k: int| 0 <= k < members.len() implies members[k].0 != p by {
        assert(ids_of(members)[k] == members[k].0);
    }
    lemma_listed_by_absent(members, t, p);
    lemma_occurrences_listed(members, t, p);
    lemma_occurrences_contains(subscribers_of(members, t), p);
}

/// Once a protocol is registered under an id, every later registration under
/// that id is refused, with a conflict on that id.
pub proof fn law_second_registration_conflicts<P>(
    builder: BabelBuilder<P>,
    id: ProtocolId,
    first: P,
    registered: BabelBuilder<P>,
    second: P,
    result: Result<BabelBuilder<P>, BabelError>,
)
    requires
        builder.registration(id, first, Ok(registered)),
        registered.registration(id, second, result),
    ensures
        result == Err::<BabelBuilder<P>, BabelError>(BabelError::ProtocolIdConflict(id)),
{
    assert(registered.ids() == builder.ids().push(id));
    assert(registered.ids()[builder.ids().len() as int] == id);
}

/// The protocols of a sequence of entries, by id: a later entry under the same
/// id takes the place of an earlier one.
pub open spec fn protocol_map<P>(entries: Seq<(ProtocolId, P)>) -> Map<ProtocolId, P>
    decreases entries.len(),
{
    if entries.len() == 0 {
        Map::empty()
    } else {
        protocol_map(entries.drop_last()).insert(entries.last().0, entries.last().1)
    }
}

proof fn lemma_protocol_map_push<P>(entries: Seq<(ProtocolId, P)>, e: (ProtocolId, P))
    ensures
        protocol_map(entries.push(e)) == protocol_map(entries).insert(e.0, e.1),
{
    assert(entries.push(e).drop_last() == entries);
}

/// Two protocols under different ids, neither yet registered, can be
/// registered in either order: both orders are accepted and give the same
/// protocols by id and the same log filter.
pub proof fn law_registrations_commute<P>(
    builder: BabelBuilder<P>,
    a: ProtocolId,
    pa: P,
    b: ProtocolId,
    pb: P,
    first_a: Result<BabelBuilder<P>, BabelError>,
    then_b: Result<BabelBuilder<P>, BabelError>,
    first_b: Result<BabelBuilder<P>, BabelError>,
    then_a: Result<BabelBuilder<P>, BabelError>,
)
    requires
        a != b,
        !builder.ids().contains(a),
        !builder.ids().contains(b),
        builder.registration(a, pa, first_a),
        first_a matches Ok(x) ==> x.registration(b, pb, then_b),
        builder.registration(b, pb, first_b),
        first_b matches Ok(y) ==> y.registration(a, pa, then_a),
    ensures
        first_a is Ok,
        first_b is Ok,
        then_b matches Ok(ab) && then_a matches Ok(ba) && {
            &&& protocol_map(ab.entries()) == protocol_map(ba.entries())
            &&& protocol_map(ab.entries()) == protocol_map(builder.entries()).insert(a, pa).insert(
                b,
                pb,
            )
            &&& ab.log_level() == builder.log_level()
            &&& ba.log_level() == builder.log_level()
        },
{
    let x = first_a->Ok_0;
    let y = first_b->Ok_0;
    if x.ids().contains(b) {
        let k = choose|k: int| 0 <= k < x.ids().len() && x.ids()[k] == b;
        assert(x.ids() == builder.ids().push(a));
        if k < builder.ids().len() {
            assert(builder.ids()[k] == b);
        }
    }
    if y.ids().contains(a) {
        let k = choose|k: int| 0 <= k < y.ids().len() && y.ids()[k] == a;
        assert(y.ids() == builder.ids().push(b));
        if k < builder.ids().len() {
            assert(builder.ids()[k] == a);
        }
    }
    let ab = then_b->Ok_0;
    let ba = then_a->Ok_0;
    let m = protocol_map(builder.entries());
    lemma_protocol_map_push(builder.entries(), (a, pa));
    lemma_protocol_map_push(builder.entries().push((a, pa)), (b, pb));
    lemma_protocol_map_push(builder.entries(), (b, pb));
    lemma_protocol_map_push(builder.entries().push((b, pb)), (a, pa));
    assert(m.insert(a, pa).insert(b, pb) =~= m.insert(b, pb).insert(a, pa));
}

/// Once started, the router delivers a request or a reply to its destination
/// exactly when the destination was registered with the builder, and drops it
/// otherwise.
pub proof fn law_started_router_delivers_to_registered<P, R, I, N, M>(
    builder: BabelBuilder<P>,
    babel: Babel<R>,
    event: Event<I, N, M>,
    t: u64,
    route: Route,
)
    requires
        babel.ids() == builder.ids(),
        event is Request || event is Reply,
        babel.routes(event, t, route),
    ensures
        match event {
            Event::Request(r) => (route == Route::Deliver(r.destination) <==> builder.ids().contains(
                r.destination,
            )) && (route == Route::Unregistered(r.destination) <==> !builder.ids().contains(
                r.destination,
            )),
            Event::Reply(r) => (route == Route::Deliver(r.destination) <==> builder.ids().contains(
                r.destination,
            )) && (route == Route::Unregistered(r.destination) <==> !builder.ids().contains(
                r.destination,
            )),
            _ => false,
        },
{
}

/// A router built from protocols and their subscriptions hands each
/// notification of type `t` to each registered protocol as many times as that
/// protocol listed `t`.
pub proof fn law_router_notifies_subscribers<R>(
    babel: Babel<R>,
    subscriptions: Seq<Vec<u64>>,
    t: u64,
    i: int,
)
    requires
        distinct_ids(babel.ids()),
        subscriptions.len() == babel.entries().len(),
        babel.subscribed_as(members_of(babel.entries(), subscriptions)),
        0 <= i < babel.entries().len(),
    ensures
        occurrences(babel.subscribers(t), babel.ids()[i]) == occurrences(subscriptions[i]@, t),
{
    let members = members_of(babel.entries(), subscriptions);
    assert(ids_of(members) =~= babel.ids());
    law_notification_occurrences(members, t, i);
}

/// A request that a protocol's handle builds names that protocol as its
/// source, and the router delivers it to its destination exactly when the
/// destination is registered.
pub proof fn law_handle_request_reaches_destination<R, I, N, M>(
    babel: Babel<R>,
    handle: ProtocolHandle,
    destination: ProtocolId,
    request: I,
    event: Event<I, N, M>,
    t: u64,
    route: Route,
)
    requires
        event == Event::<I, N, M>::Request(
            RequestEvent { source: handle.id(), destination, ipc: request },
        ),
        babel.routes(event, t, route),
    ensures
        event->Request_0.source == handle.id(),
        route == Route::Deliver(destination) <==> babel.ids().contains(destination),
        route == Route::Unregistered(destination) <==> !babel.ids().contains(destination),
{
}

/// Each id paired with the protocol of the same rank.
pub open spec fn paired<P>(ids: Seq<ProtocolId>, protocols: Seq<P>) -> Seq<(ProtocolId, P)> {
    Seq::new(ids.len(), |i: int| (ids[i], protocols[i]))
}

/// A chain of registrations, from an empty builder, in which each builder is
/// the one the previous registration gave (up to a change of log filter).
pub open spec fn registration_chain<P>(
    builders: Seq<BabelBuilder<P>>,
    ids: Seq<ProtocolId>,
    protocols: Seq<P>,
    results: Seq<Result<BabelBuilder<P>, BabelError>>,
) -> bool {
    &&& builders.len() == ids.len() + 1
    &&& protocols.len() == ids.len()
    &&& results.len() == ids.len()
    &&& builders[0].entries().len() == 0
    &&& forall|i: int|
        0 <= i < ids.len() ==> #[trigger] builders[i].registration(ids[i], protocols[i], results[i])
    &&& forall|i: int|
        0 <= i < ids.len() ==> (#[trigger] results[i] matches Ok(b) ==> builders[i + 1].entries()
            == b.entries())
}

proof fn lemma_chain_prefix<P>(
    builders: Seq<BabelBuilder<P>>,
    ids: Seq<ProtocolId>,
    protocols: Seq<P>,
    results: Seq<Result<BabelBuilder<P>, BabelError>>,
    k: int,
)
    requires
        registration_chain(builders, ids, protocols, results),
        0 <= k <= ids.len(),
        forall|i: int| 0 <= i < k ==> #[trigger] results[i] is Ok,
    ensures
        builders[k].entries() == paired(ids.take(k), protocols.take(k)),
        builders[k].ids() == ids.take(k),
    decreases k,
{
    if k > 0 {
        lemma_chain_prefix(builders, ids, protocols, results, k - 1);
        assert(builders[k - 1].registration(ids[k - 1], protocols[k - 1], results[k - 1]));
        assert(results[k - 1] is Ok);
        assert(paired(ids.take(k), protocols.take(k)) == paired(ids.take(k - 1), protocols.take(k - 1)).push(
            (ids[k - 1], protocols[k - 1]),
        ));
    } else {
        assert(paired(ids.take(0), protocols.take(0)) == Seq::<(ProtocolId, P)>::empty());
    }
    assert(builders[k].ids() == ids_of(builders[k].entries()));
    assert(ids_of(paired(ids.take(k), protocols.take(k))) == ids.take(k));
}

/// A chain of registrations from an empty builder is accepted throughout
/// exactly when the ids the protocols reported are pairwise distinct; the
/// builder then holds each protocol under the id it reported, in order, one per
/// registration.
pub proof fn law_registration_chain<P: ProtocolInit>(
    builders: Seq<BabelBuilder<P>>,
    ids: Seq<ProtocolId>,
    protocols: Seq<P>,
    results: Seq<Result<BabelBuilder<P>, BabelError>>,
)
    requires
        registration_chain(builders, ids, protocols, results),
        forall|i: int| 0 <= i < ids.len() ==> call_ensures(P::id, (&protocols[i],), #[trigger] ids[i]),
    ensures
        (forall|i: int| 0 <= i < ids.len() ==> #[trigger] results[i] is Ok) <==> distinct_ids(ids),
        (forall|i: int| 0 <= i < ids.len() ==> #[trigger] results[i] is Ok) ==> {
            let last = builders[ids.len() as int];
            &&& last.entries() == paired(ids, protocols)
            &&& last.entries().len() == ids.len()
            &&& forall|j: int|
                0 <= j < ids.len() ==> call_ensures(
                    P::id,
                    (&last.entries()[j].1,),
                    #[trigger] last.entries()[j].0,
                )
        },
{
    let n = ids.len() as int;
    if forall|i: int| 0 <= i < n ==> #[trigger] results[i] is Ok {
        assert forall|a: int, b: int| 0 <= a < b < n implies ids[a] != ids[b] by {
            lemma_chain_prefix(builders, ids, protocols, results, b);
            assert(builders[b].registration(ids[b], protocols[b], results[b]));
            assert(results[b] is Ok);
            assert(ids.take(b)[a] == ids[a]);
        }
        lemma_chain_prefix(builders, ids, protocols, results, n);
        assert(ids.take(n) == ids);
        assert(protocols.take(n) == protocols);
    }
    if distinct_ids(ids) {
        lemma_distinct_chain_accepted(builders, ids, protocols, results, n);
    }
}

proof fn lemma_distinct_chain_accepted<P>(
    builders: Seq<BabelBuilder<P>>,
    ids: Seq<ProtocolId>,
    protocols: Seq<P>,
    results: Seq<Result<BabelBuilder<P>, BabelError>>,
    k: int,
)
    requires
        registration_chain(builders, ids, protocols, results),
        distinct_ids(ids),
        0 <= k <= ids.len(),
    ensures
        forall|i: int| 0 <= i < k ==> #[trigger] results[i] is Ok,
    decreases k,
{
    if k > 0 {
        lemma_distinct_chain_accepted(builders, ids, protocols, results, k - 1);
        lemma_chain_prefix(builders, ids, protocols, results, k - 1);
        assert(builders[k - 1].registration(ids[k - 1], protocols[k - 1], results[k - 1]));
        if ids.take(k - 1).contains(ids[k - 1]) {
            let a = choose|a: int| 0 <= a < k - 1 && #[trigger] ids.take(k - 1)[a] == ids[k - 1];
            assert(ids[a] == ids[k - 1]);
        }
    }
}

/// A protocol that receives `events` from its start: `states[i]` is its state
/// before `events[i]` and `steps[i]` what it did with it.
pub open spec fn protocol_run<H, MH, S, I, N, M>(
    handlers: Handlers<H, MH, S>,
    events: Seq<Event<I, N, M>>,
    keys: Seq<u64>,
    states: Seq<LoopState>,
    steps: Seq<Step<H, MH, S>>,
) -> bool {
    &&& keys.len() == events.len()
    &&& steps.len() == events.len()
    &&& states.len() == events.len() + 1
    &&& states[0] == LoopState::Running
    &&& forall|i: int|
        0 <= i < events.len() ==> #[trigger] handlers.receives(
            states[i],
            events[i],
            keys[i],
            states[i + 1],
            steps[i],
        )
}

proof fn lemma_run_state<H, MH, S, I, N, M>(
    handlers: Handlers<H, MH, S>,
    events: Seq<Event<I, N, M>>,
    keys: Seq<u64>,
    states: Seq<LoopState>,
    steps: Seq<Step<H, MH, S>>,
    k: int,
    j: int,
)
    requires
        protocol_run(handlers, events, keys, states, steps),
        0 <= k < events.len(),
        events[k] is Shutdown,
        forall|i: int| 0 <= i < k ==> !(#[trigger] events[i] is Shutdown),
        0 <= j <= events.len(),
    ensures
        j <= k ==> states[j] == LoopState::Running,
        j > k ==> states[j] == LoopState::Stopped,
    decreases j,
{
    if j > 0 {
        lemma_run_state(handlers, events, keys, states, steps, k, j - 1);
        let i = j - 1;
        assert(handlers.receives(states[i], events[i], keys[i], states[i + 1], steps[i]));
        assert(states[j] == next_state(states[i], events[i]));
    }
}

/// A protocol handles every event before its first shutdown with the handler
/// its tables give; at that shutdown it runs its shutdown handler, if it has
/// one, and stops; every later event is ignored.
pub proof fn law_nothing_handled_after_shutdown<H, MH, S, I, N, M>(
    handlers: Handlers<H, MH, S>,
    events: Seq<Event<I, N, M>>,
    keys: Seq<u64>,
    states: Seq<LoopState>,
    steps: Seq<Step<H, MH, S>>,
    k: int,
)
    requires
        protocol_run(handlers, events, keys, states, steps),
        0 <= k < events.len(),
        events[k] is Shutdown,
        forall|i: int| 0 <= i < k ==> !(#[trigger] events[i] is Shutdown),
    ensures
        forall|j: int|
            0 <= j < k ==> handlers.steps(events[j], keys[j], #[trigger] steps[j]) && !(
            steps[j] is Stop),
        match steps[k] {
            Step::Stop(Some(h)) => handlers.shutdown_handler == Some(*h),
            Step::Stop(None) => handlers.shutdown_handler is None,
            _ => false,
        },
        forall|j: int| k < j < events.len() ==> #[trigger] steps[j] == Step::<H, MH, S>::Ignore,
{
    assert forall|j: int| 0 <= j < k implies handlers.steps(events[j], keys[j], #[trigger] steps[j])
        && !(steps[j] is Stop) by {
        lemma_run_state(handlers, events, keys, states, steps, k, j);
        assert(handlers.receives(states[j], events[j], keys[j], states[j + 1], steps[j]));
        assert(!(events[j] is Shutdown));
    }
    lemma_run_state(handlers, events, keys, states, steps, k, k);
    assert(handlers.receives(states[k], events[k], keys[k], states[k + 1], steps[k]));
    assert forall|j: int| k < j < events.len() implies #[trigger] steps[j] == Step::<
        H,
        MH,
        S,
    >::Ignore by {
        lemma_run_state(handlers, events, keys, states, steps, k, j);
        assert(handlers.receives(states[j], events[j], keys[j], states[j + 1], steps[j]));
    }
}

/// A notification of type `t` is handed to every protocol as many times as
/// that protocol listed `t` among its subscriptions, whichever protocol
/// published it; the publisher too, if it subscribed.
pub proof fn law_broadcast_reaches_every_subscription<R, I, N, M>(
    babel: Babel<R>,
    subscriptions: Seq<Vec<u64>>,
    notification: NotificationEvent<N>,
    t: u64,
    route: Route,
    i: int,
)
    requires
        distinct_ids(babel.ids()),
        subscriptions.len() == babel.entries().len(),
        babel.subscribed_as(members_of(babel.entries(), subscriptions)),
        babel.routes(Event::<I, N, M>::Notification(notification), t, route),
        0 <= i < babel.entries().len(),
    ensures
        route matches Route::Broadcast(to) && occurrences(to@, babel.ids()[i]) == occurrences(
            subscriptions[i]@,
            t,
        ),
{
    law_router_notifies_subscribers(babel, subscriptions, t, i);
}

/// Two notifications of the same type are handed to the same protocols, in the
/// same order, whoever published them.
pub proof fn law_broadcast_ignores_publisher<R, I, N, M>(
    babel: Babel<R>,
    first: NotificationEvent<N>,
    second: NotificationEvent<N>,
    t: u64,
    first_route: Route,
    second_route: Route,
)
    requires
        babel.routes(Event::<I, N, M>::Notification(first), t, first_route),
        babel.routes(Event::<I, N, M>::Notification(second), t, second_route),
    ensures
        first_route matches Route::Broadcast(a) && second_route matches Route::Broadcast(b) && a@
            == b@,
{
}

/// A notification of type `t` is handed exactly to the subscribers of `t`.
pub proof fn law_broadcast_is_the_subscribers<R, I, N, M>(
    babel: Babel<R>,
    notification: NotificationEvent<N>,
    t: u64,
    route: Route,
)
    requires
        babel.routes(Event::<I, N, M>::Notification(notification), t, route),
    ensures
        route matches Route::Broadcast(to) && to@ == babel.subscribers(t),
{
}

} // verus!
