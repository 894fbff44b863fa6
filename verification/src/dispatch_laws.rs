use vstd::prelude::*;
use crate::counting::{
    lemma_occurrences_concat, lemma_occurrences_contains, lemma_occurrences_repeat, occurrences,
};
use crate::dispatch::{handled_by, Handlers, Step};
use crate::event::Event;
use crate::plan::{keyed, last_shutdown, planned, HandlerAttribute, HandlerPlan, InvalidHandler};

verus! {

/// Whatever the table, the handler lookup for `t` gives the handler the table
/// holds for `t`, and reports `t` unhandled exactly when the table holds none.
pub proof fn law_lookup_finds_the_handler<H, MH, S>(table: Map<u64, H>, t: u64, step: Step<H, MH, S>)
    requires
        handled_by(table, t, step),
    ensures
        table.contains_key(t) ==> (step matches Step::Handle(h) && *h == table[t]),
        !table.contains_key(t) ==> step == Step::<H, MH, S>::Unhandled(t),
{
}

/// A request, a reply or a notification goes to the handler that the table of
/// its kind holds for its payload type, and is dropped exactly when that table
/// holds none; its protocol ids play no part.
pub proof fn law_step_is_lookup_by_payload_type<H, MH, S, I, N, M>(
    handlers: Handlers<H, MH, S>,
    event: Event<I, N, M>,
    t: u64,
    step: Step<H, MH, S>,
)
    requires
        handlers.steps(event, t, step),
        event is Request || event is Reply || event is Notification,
    ensures
        ({
            let table = match event {
                Event::Request(_) => handlers.request_handlers@,
                Event::Reply(_) => handlers.reply_handlers@,
                _ => handlers.notification_handlers@,
            };
            &&& table.contains_key(t) ==> (step matches Step::Handle(h) && *h == table[t])
            &&& !table.contains_key(t) ==> step == Step::<H, MH, S>::Unhandled(t)
        }),
{
}

/// A network message goes to the message handler for its payload type, and is
/// dropped exactly when there is none.
pub proof fn law_message_step_is_lookup<H, MH, S, I, N, M>(
    handlers: Handlers<H, MH, S>,
    event: Event<I, N, M>,
    t: u64,
    step: Step<H, MH, S>,
)
    requires
        handlers.steps(event, t, step),
        event is Message,
    ensures
        handlers.message_handlers@.contains_key(t) ==> (step matches Step::HandleMessage(h) && *h
            == handlers.message_handlers@[t]),
        !handlers.message_handlers@.contains_key(t) ==> step == Step::<H, MH, S>::Unhandled(t),
{
}

/// Two events of the same kind whose payloads have the same type take the same
/// step, whatever their sources and destinations.
pub proof fn law_step_ignores_protocol_ids<H, MH, S, I, N, M>(
    handlers: Handlers<H, MH, S>,
    first: Event<I, N, M>,
    second: Event<I, N, M>,
    t: u64,
    first_step: Step<H, MH, S>,
    second_step: Step<H, MH, S>,
)
    requires
        handlers.steps(first, t, first_step),
        handlers.steps(second, t, second_step),
        (first is Request && second is Request) || (first is Reply && second is Reply) || (
        first is Notification && second is Notification) || (first is Message
            && second is Message),
    ensures
        first_step == second_step,
{
    if first is Message {
        law_message_step_is_lookup(handlers, first, t, first_step);
        law_message_step_is_lookup(handlers, second, t, second_step);
    } else {
        law_step_is_lookup_by_payload_type(handlers, first, t, first_step);
        law_step_is_lookup_by_payload_type(handlers, second, t, second_step);
    }
}

/// A request, reply or notification handler that does not take its payload by
/// reference makes the plan fail, at that method or an earlier one.
pub proof fn law_plan_refuses_handler_without_reference(
    v: Seq<(Seq<HandlerAttribute>, Option<u64>)>,
    result: Result<HandlerPlan, InvalidHandler>,
    k: int,
)
    requires
        planned(v, result),
        0 <= k < v.len(),
        v[k].1 is None,
        occurrences(v[k].0, HandlerAttribute::Request) > 0 || occurrences(
            v[k].0,
            HandlerAttribute::Reply,
        ) > 0 || occurrences(v[k].0, HandlerAttribute::Notification) > 0,
    ensures
        result matches Err(e) && e.method <= k,
{
    match result {
        Ok(_) => {
            assert(!crate::plan::invalid(v[k]));
        },
        Err(e) => {
            if e.method > k {
                assert(!crate::plan::invalid(v[k]));
            }
        },
    }
}

/// Every index that an entry of `keyed(w, a)` names is the rank of a method.
proof fn lemma_keyed_ranks(w: Seq<(Seq<HandlerAttribute>, Option<u64>)>, a: HandlerAttribute)
    requires
        w.len() <= usize::MAX,
    ensures
        forall|i: int| 0 <= i < keyed(w, a).len() ==> (#[trigger] keyed(w, a)[i]).1 < w.len(),
    decreases w.len(),
{
    if w.len() > 0 {
        let d = w.drop_last();
        lemma_keyed_ranks(d, a);
        let last = w.last();
        let tail = match last.1 {
            Some(t) => Seq::new(occurrences(last.0, a), |_i: int| (t, (w.len() - 1) as usize)),
            None => Seq::empty(),
        };
        assert(keyed(w, a) == keyed(d, a) + tail);
        assert forall|i: int| 0 <= i < keyed(w, a).len() implies (#[trigger] keyed(w, a)[i]).1
            < w.len() by {
            if i < keyed(d, a).len() {
                assert(keyed(w, a)[i] == keyed(d, a)[i]);
            } else {
                assert(keyed(w, a)[i] == tail[i - keyed(d, a).len()]);
            }
        }
    }
}

/// A method that takes its payload by reference, with key `t`, has one entry
/// `(t, its rank)` in the table of `a` per time it carries `a`.
proof fn lemma_keyed_entries(
    w: Seq<(Seq<HandlerAttribute>, Option<u64>)>,
    a: HandlerAttribute,
    k: int,
    t: u64,
)
    requires
        w.len() <= usize::MAX,
        0 <= k < w.len(),
        w[k].1 == Some(t),
    ensures
        occurrences(keyed(w, a), (t, k as usize)) == occurrences(w[k].0, a),
    decreases w.len(),
{
    let d = w.drop_last();
    let last = w.last();
    let n = w.len() - 1;
    let tail = match last.1 {
        Some(tl) => Seq::new(occurrences(last.0, a), |_i: int| (tl, n as usize)),
        None => Seq::empty(),
    };
    assert(keyed(w, a) == keyed(d, a) + tail);
    lemma_occurrences_concat(keyed(d, a), tail, (t, k as usize));
    if k == n {
        lemma_keyed_ranks(d, a);
        lemma_occurrences_contains(keyed(d, a), (t, k as usize));
        if keyed(d, a).contains((t, k as usize)) {
            let i = choose|i: int| 0 <= i < keyed(d, a).len() && keyed(d, a)[i] == (t, k as usize);
            assert(keyed(d, a)[i].1 < d.len());
        }
        lemma_occurrences_repeat(occurrences(last.0, a), (t, n as usize), (t, k as usize));
    } else {
        assert(d[k] == w[k]);
        lemma_keyed_entries(d, a, k, t);
        match last.1 {
            Some(tl) => {
                lemma_occurrences_repeat(occurrences(last.0, a), (tl, n as usize), (t, k as usize));
            },
            None => {
                assert(tail.len() == 0);
            },
        }
    }
}

/// An accepted plan has no request, reply or notification handler without a
/// reference, and gives each method that takes its payload by reference one
/// entry per attribute it carries in the table of that attribute, and one
/// subscription per notification attribute.
pub proof fn law_plan_keeps_every_handler(
    v: Seq<(Seq<HandlerAttribute>, Option<u64>)>,
    plan: HandlerPlan,
    k: int,
)
    requires
        planned(v, Ok(plan)),
        v.len() <= usize::MAX,
        0 <= k < v.len(),
    ensures
        occurrences(v[k].0, HandlerAttribute::Request) > 0 ==> v[k].1 is Some,
        occurrences(v[k].0, HandlerAttribute::Reply) > 0 ==> v[k].1 is Some,
        occurrences(v[k].0, HandlerAttribute::Notification) > 0 ==> v[k].1 is Some,
        v[k].1 matches Some(t) ==> {
            &&& occurrences(plan.request_handlers@, (t, k as usize)) == occurrences(
                v[k].0,
                HandlerAttribute::Request,
            )
            &&& occurrences(plan.reply_handlers@, (t, k as usize)) == occurrences(
                v[k].0,
                HandlerAttribute::Reply,
            )
            &&& occurrences(plan.notification_handlers@, (t, k as usize)) == occurrences(
                v[k].0,
                HandlerAttribute::Notification,
            )
            &&& occurrences(plan.message_handlers@, (t, k as usize)) == occurrences(
                v[k].0,
                HandlerAttribute::Message,
            )
        },
{
    assert(!crate::plan::invalid(v[k]));
    if let Some(t) = v[k].1 {
        lemma_keyed_entries(v, HandlerAttribute::Request, k, t);
        lemma_keyed_entries(v, HandlerAttribute::Reply, k, t);
        lemma_keyed_entries(v, HandlerAttribute::Notification, k, t);
        lemma_keyed_entries(v, HandlerAttribute::Message, k, t);
    }
}

/// The subscriptions of an accepted plan are the payload types of its
/// notification handlers, one for one and in the same order.
pub proof fn law_subscriptions_follow_notification_handlers(
    v: Seq<(Seq<HandlerAttribute>, Option<u64>)>,
    plan: HandlerPlan,
)
    requires
        planned(v, Ok(plan)),
    ensures
        plan.subscriptions@.len() == plan.notification_handlers@.len(),
        forall|i: int|
            0 <= i < plan.subscriptions@.len() ==> #[trigger] plan.subscriptions@[i]
                == plan.notification_handlers@[i].0,
{
}

proof fn lemma_last_shutdown(v: Seq<(Seq<HandlerAttribute>, Option<u64>)>)
    requires
        v.len() <= usize::MAX,
    ensures
        match last_shutdown(v) {
            Some(k) => {
                &&& k < v.len()
                &&& occurrences(v[k as int].0, HandlerAttribute::Shutdown) > 0
                &&& forall|j: int|
                    k < j < v.len() ==> occurrences(#[trigger] v[j].0, HandlerAttribute::Shutdown)
                        == 0
            },
            None => forall|j: int|
                0 <= j < v.len() ==> occurrences(#[trigger] v[j].0, HandlerAttribute::Shutdown) == 0,
        },
    decreases v.len(),
{
    if v.len() > 0 {
        let d = v.drop_last();
        let n = v.len() - 1;
        lemma_last_shutdown(d);
        assert forall|j: int| 0 <= j < d.len() implies v[j] == #[trigger] d[j] by {}
        if occurrences(v.last().0, HandlerAttribute::Shutdown) == 0 {
            assert(last_shutdown(v) == last_shutdown(d));
            match last_shutdown(d) {
                Some(k) => {
                    assert(v[k as int] == d[k as int]);
                    assert forall|j: int| k < j < v.len() implies occurrences(
                        #[trigger] v[j].0,
                        HandlerAttribute::Shutdown,
                    ) == 0 by {
                        if j < n {
                            assert(v[j] == d[j]);
                        }
                    }
                },
                None => {
                    assert forall|j: int| 0 <= j < v.len() implies occurrences(
                        #[trigger] v[j].0,
                        HandlerAttribute::Shutdown,
                    ) == 0 by {
                        if j < n {
                            assert(v[j] == d[j]);
                        }
                    }
                },
            }
        } else {
            assert(last_shutdown(v) == Some(n as usize));
            assert(v[n] == v.last());
        }
    }
}

/// The shutdown handler of an accepted plan is the last method that carries
/// the shutdown attribute; there is none exactly when no method carries it.
pub proof fn law_plan_shutdown_is_the_last(
    v: Seq<(Seq<HandlerAttribute>, Option<u64>)>,
    plan: HandlerPlan,
)
    requires
        planned(v, Ok(plan)),
        v.len() <= usize::MAX,
    ensures
        match plan.shutdown_handler {
            Some(k) => {
                &&& k < v.len()
                &&& occurrences(v[k as int].0, HandlerAttribute::Shutdown) > 0
                &&& forall|j: int|
                    k < j < v.len() ==> occurrences(#[trigger] v[j].0, HandlerAttribute::Shutdown)
                        == 0
            },
            None => forall|j: int|
                0 <= j < v.len() ==> occurrences(#[trigger] v[j].0, HandlerAttribute::Shutdown) == 0,
        },
{
    lemma_last_shutdown(v);
}

} // verus!
