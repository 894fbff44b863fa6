use vstd::prelude::*;
use crate::counting::{lemma_occurrences_prefix, lemma_occurrences_step, occurrences};

verus! {

/// A handler attribute on a method of a protocol's `impl` block.
#[derive(Clone, Copy, Debug, PartialEq, Eq, Structural)]
pub enum HandlerAttribute {
    Request,
    Reply,
    Notification,
    Message,
    Shutdown,
}

/// A method of a protocol's `impl` block, in source order: its handler
/// attributes, in order, and the key of the type its second parameter refers
/// to, if that parameter is a reference.
pub struct HandlerMethod {
    pub attributes: Vec<HandlerAttribute>,
    pub event_type: Option<u64>,
}

/// A request, reply or notification handler whose second parameter is not a
/// reference: `method` is the rank of the first such method.
#[derive(Clone, Copy, Debug, PartialEq, Eq, Structural)]
pub struct InvalidHandler {
    pub method: usize,
}

/// The handler tables of a protocol, each entry the key of a payload type and
/// the rank of the method that handles it, in source order; the notification
/// types it subscribes to; and its shutdown handler.
pub struct HandlerPlan {
    pub request_handlers: Vec<(u64, usize)>,
    pub reply_handlers: Vec<(u64, usize)>,
    pub subscriptions: Vec<u64>,
    pub notification_handlers: Vec<(u64, usize)>,
    pub message_handlers: Vec<(u64, usize)>,
    pub shutdown_handler: Option<usize>,
}

/// Each method as its attributes and the key of its second parameter.
pub open spec fn method_views(methods: Seq<HandlerMethod>) -> Seq<
    (Seq<HandlerAttribute>, Option<u64>),
> {
    methods.map_values(|m: HandlerMethod| (m.attributes@, m.event_type))
}

/// The entries that attribute `a` adds to its table: for each method whose
/// second parameter is a reference, one entry per time it carries `a`, in
/// source order.
pub open spec fn keyed(methods: Seq<(Seq<HandlerAttribute>, Option<u64>)>, a: HandlerAttribute) -> Seq<
    (u64, usize),
>
    decreases methods.len(),
{
    if methods.len() == 0 {
        Seq::empty()
    } else {
        let last = methods.last();
        keyed(methods.drop_last(), a) + match last.1 {
            Some(t) => Seq::new(
                occurrences(last.0, a),
                |_i: int| (t, (methods.len() - 1) as usize),
            ),
            None => Seq::empty(),
        }
    }
}

/// The last method that carries the shutdown attribute.
pub open spec fn last_shutdown(methods: Seq<(Seq<HandlerAttribute>, Option<u64>)>) -> Option<usize>
    decreases methods.len(),
{
    if methods.len() == 0 {
        None
    } else if occurrences(methods.last().0, HandlerAttribute::Shutdown) > 0 {
        Some((methods.len() - 1) as usize)
    } else {
        last_shutdown(methods.drop_last())
    }
}

/// A request, reply or notification handler without a reference as its second
/// parameter.
pub open spec fn invalid(method: (Seq<HandlerAttribute>, Option<u64>)) -> bool {
    &&& method.1 is None
    &&& occurrences(method.0, HandlerAttribute::Request) + occurrences(
        method.0,
        HandlerAttribute::Reply,
    ) + occurrences(method.0, HandlerAttribute::Notification) > 0
}

/// The keys of a table's entries, in order.
pub open spec fn keys_of(entries: Seq<(u64, usize)>) -> Seq<u64> {
    entries.map_values(|e: (u64, usize)| e.0)
}

/// Taking one more attribute of the current method adds at most one entry to
/// one table.
proof fn lemma_plan_step(
    prefix: Seq<(Seq<HandlerAttribute>, Option<u64>)>,
    attrs: Seq<HandlerAttribute>,
    e: Option<u64>,
    j: int,
    a: HandlerAttribute,
)
    requires
        0 <= j < attrs.len(),
    ensures
        keyed(prefix.push((attrs.take(j + 1), e)), a) == keyed(prefix.push((attrs.take(j), e)), a)
            + if e is Some && attrs[j] == a {
            seq![(e->0, prefix.len() as usize)]
        } else {
            Seq::empty()
        },
        last_shutdown(prefix.push((attrs.take(j + 1), e))) == if attrs[j]
            == HandlerAttribute::Shutdown {
            Some(prefix.len() as usize)
        } else {
            last_shutdown(prefix.push((attrs.take(j), e)))
        },
{
    let longer = prefix.push((attrs.take(j + 1), e));
    let shorter = prefix.push((attrs.take(j), e));
    assert(longer.drop_last() == prefix);
    assert(shorter.drop_last() == prefix);
    lemma_occurrences_step(attrs, j, a);
    lemma_occurrences_step(attrs, j, HandlerAttribute::Shutdown);
    match e {
        Some(t) => {
            let c = occurrences(attrs.take(j), a);
            let idx = (longer.len() - 1) as usize;
            if attrs[j] == a {
                assert(Seq::new(c + 1, |_i: int| (t, idx)) == Seq::new(c, |_i: int| (t, idx)).push(
                    (t, idx),
                ));
            }
        },
        None => {},
    }
}

/// A method with no attribute adds nothing.
proof fn lemma_plan_start(
    prefix: Seq<(Seq<HandlerAttribute>, Option<u64>)>,
    e: Option<u64>,
    a: HandlerAttribute,
)
    ensures
        keyed(prefix.push((Seq::<HandlerAttribute>::empty(), e)), a) == keyed(prefix, a),
        last_shutdown(prefix.push((Seq::<HandlerAttribute>::empty(), e))) == last_shutdown(prefix),
{
    let longer = prefix.push((Seq::<HandlerAttribute>::empty(), e));
    assert(longer.drop_last() == prefix);
    match e {
        Some(t) => {
            assert(Seq::new(0, |_i: int| (t, (longer.len() - 1) as usize)) == Seq::<
                (u64, usize),
            >::empty());
        },
        None => {},
    }
}

/// What planning the methods `v` comes to: refused at the first invalid
/// method; otherwise each table holds, in source order, the entries its
/// attribute gives, the subscriptions are the keys of the notification
/// handlers, and the shutdown handler is the last one.
pub open spec fn planned(
    v: Seq<(Seq<HandlerAttribute>, Option<u64>)>,
    result: Result<HandlerPlan, InvalidHandler>,
) -> bool {
    match result {
        Ok(plan) => {
            &&& forall|k: int| 0 <= k < v.len() ==> !invalid(#[trigger] v[k])
            &&& plan.request_handlers@ == keyed(v, HandlerAttribute::Request)
            &&& plan.reply_handlers@ == keyed(v, HandlerAttribute::Reply)
            &&& plan.notification_handlers@ == keyed(v, HandlerAttribute::Notification)
            &&& plan.subscriptions@ == keys_of(keyed(v, HandlerAttribute::Notification))
            &&& plan.message_handlers@ == keyed(v, HandlerAttribute::Message)
            &&& plan.shutdown_handler == last_shutdown(v)
        },
        Err(e) => {
            &&& e.method < v.len()
            &&& invalid(v[e.method as int])
            &&& forall|k: int| 0 <= k < e.method ==> !invalid(#[trigger] v[k])
        },
    }
}

/// What a protocol's handler attributes come to: refused at the first request,
/// reply or notification handler whose second parameter is not a reference;
/// otherwise each table holds, in source order, the methods that carry its
/// attribute and take a reference (a message handler that takes none is left
/// out), the subscriptions are the keys of the notification handlers, in
/// order, and the shutdown handler is the last method that carries that
/// attribute.
pub fn plan_handlers(methods: &Vec<HandlerMethod>) -> (result: Result<HandlerPlan, InvalidHandler>)
    ensures
        planned(method_views(methods@), result),
{
    let ghost v = method_views(methods@);
    let mut plan = HandlerPlan {
        request_handlers: Vec::new(),
        reply_handlers: Vec::new(),
        subscriptions: Vec::new(),
        notification_handlers: Vec::new(),
        message_handlers: Vec::new(),
        shutdown_handler: None,
    };
    let mut i: usize = 0;
    proof {
        assert(v.take(0) == Seq::<(Seq<HandlerAttribute>, Option<u64>)>::empty());
    }
    while i < methods.len()
        invariant
            i <= methods.len(),
            v == method_views(methods@),
            forall|k: int| 0 <= k < i ==> !invalid(#[trigger] v[k]),
            plan.request_handlers@ == keyed(v.take(i as int), HandlerAttribute::Request),
            plan.reply_handlers@ == keyed(v.take(i as int), HandlerAttribute::Reply),
            plan.notification_handlers@ == keyed(v.take(i as int), HandlerAttribute::Notification),
            plan.subscriptions@ == keys_of(plan.notification_handlers@),
            plan.message_handlers@ == keyed(v.take(i as int), HandlerAttribute::Message),
            plan.shutdown_handler == last_shutdown(v.take(i as int)),
        decreases methods.len() - i,
    {
        let m = &methods[i];
        let ghost prefix = v.take(i as int);
        let ghost attrs = m.attributes@;
        let ghost e = m.event_type;
        proof {
            assert(v[i as int] == (attrs, e));
            assert(attrs.take(0) == Seq::<HandlerAttribute>::empty());
            lemma_plan_start(prefix, e, HandlerAttribute::Request);
            lemma_plan_start(prefix, e, HandlerAttribute::Reply);
            lemma_plan_start(prefix, e, HandlerAttribute::Notification);
            lemma_plan_start(prefix, e, HandlerAttribute::Message);
        }
        let mut j: usize = 0;
        while j < m.attributes.len()
            invariant
                i < methods.len(),
                j <= m.attributes.len(),
                m == &methods[i as int],
                attrs == m.attributes@,
                e == m.event_type,
                prefix == v.take(i as int),
                prefix.len() == i,
                v == method_views(methods@),
                v[i as int] == (attrs, e),
                forall|k: int| 0 <= k < i ==> !invalid(#[trigger] v[k]),
                e is None ==> occurrences(attrs.take(j as int), HandlerAttribute::Request)
                    + occurrences(attrs.take(j as int), HandlerAttribute::Reply)
                    + occurrences(attrs.take(j as int), HandlerAttribute::Notification) == 0,
                plan.request_handlers@ == keyed(
                    prefix.push((attrs.take(j as int), e)),
                    HandlerAttribute::Request,
                ),
                plan.reply_handlers@ == keyed(
                    prefix.push((attrs.take(j as int), e)),
                    HandlerAttribute::Reply,
                ),
                plan.notification_handlers@ == keyed(
                    prefix.push((attrs.take(j as int), e)),
                    HandlerAttribute::Notification,
                ),
                plan.subscriptions@ == keys_of(plan.notification_handlers@),
                plan.message_handlers@ == keyed(
                    prefix.push((attrs.take(j as int), e)),
                    HandlerAttribute::Message,
                ),
                plan.shutdown_handler == last_shutdown(prefix.push((attrs.take(j as int), e))),
            decreases m.attributes.len() - j,
        {
            let attribute = m.attributes[j];
            proof {
                lemma_plan_step(prefix, attrs, e, j as int, HandlerAttribute::Request);
                lemma_plan_step(prefix, attrs, e, j as int, HandlerAttribute::Reply);
                lemma_plan_step(prefix, attrs, e, j as int, HandlerAttribute::Notification);
                lemma_plan_step(prefix, attrs, e, j as int, HandlerAttribute::Message);
                lemma_occurrences_step(attrs, j as int, HandlerAttribute::Request);
                lemma_occurrences_step(attrs, j as int, HandlerAttribute::Reply);
                lemma_occurrences_step(attrs, j as int, HandlerAttribute::Notification);
            }
            match attribute {
                HandlerAttribute::Request | HandlerAttribute::Reply | HandlerAttribute::Notification => {
                    match m.event_type {
                        Some(t) => {
                            match attribute {
                                HandlerAttribute::Request => plan.request_handlers.push((t, i)),
                                HandlerAttribute::Reply => plan.reply_handlers.push((t, i)),
                                _ => {
                                    plan.subscriptions.push(t);
                                    plan.notification_handlers.push((t, i));
                                    proof {
                                        assert(plan.subscriptions@ == keys_of(
                                            plan.notification_handlers@,
                                        ));
                                    }
                                },
                            }
                        },
                        None => {
                            proof {
                                lemma_occurrences_prefix(attrs, j + 1, HandlerAttribute::Request);
                                lemma_occurrences_prefix(attrs, j + 1, HandlerAttribute::Reply);
                                lemma_occurrences_prefix(attrs, j + 1, HandlerAttribute::Notification);
                                assert(invalid(v[i as int]));
                            }
                            return Err(InvalidHandler { method: i });
                        },
                    }
                },
                HandlerAttribute::Message => {
                    match m.event_type {
                        Some(t) => plan.message_handlers.push((t, i)),
                        None => {},
                    }
                },
                HandlerAttribute::Shutdown => {
                    plan.shutdown_handler = Some(i);
                },
            }
            j += 1;
        }
        proof {
            assert(attrs.take(j as int) == attrs);
            assert(v.take(i + 1) == prefix.push(v[i as int]));
            if e is None {
                assert(!invalid(v[i as int]));
            }
        }
        i += 1;
    }
    proof {
        assert(v.take(i as int) == v);
    }
    Ok(plan)
}

} // verus!
