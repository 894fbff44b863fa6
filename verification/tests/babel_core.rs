use babel::builder::{BabelBuilder, BabelError, ProtocolHandlers, ProtocolInit};
use babel::dispatch::{Handlers, LoopState, Step};
use babel::event::{BabelMessage, Event, NotificationEvent, ReplyEvent, RequestEvent};
use babel::handle::ProtocolHandle;
use babel::ids::{MessageId, ProtocolId};
use babel::router::{Babel, Route};
use log::LevelFilter;

type TestEvent = Event<&'static str, &'static str, &'static str>;

struct Proto {
    id: ProtocolId,
    subscriptions: Vec<u64>,
}

impl ProtocolInit for Proto {
    fn id(&self) -> ProtocolId {
        self.id
    }
}

impl ProtocolHandlers for Proto {
    fn get_subscriptions(&self) -> Vec<u64> {
        self.subscriptions.clone()
    }
}

fn proto(id: u16, subscriptions: Vec<u64>) -> Proto {
    Proto { id: ProtocolId(id), subscriptions }
}

fn request(source: u16, destination: u16) -> TestEvent {
    Event::Request(RequestEvent {
        source: ProtocolId(source),
        destination: ProtocolId(destination),
        ipc: "req",
    })
}

fn reply(source: u16, destination: u16) -> TestEvent {
    Event::Reply(ReplyEvent {
        source: ProtocolId(source),
        destination: ProtocolId(destination),
        ipc: "rep",
    })
}

fn notification(source: u16) -> TestEvent {
    Event::Notification(NotificationEvent { source: ProtocolId(source), notification: "note" })
}

/// A router with protocols 102, 201 and 301; 201 subscribes to types 7 and 9,
/// 301 to type 7 twice.
fn three_protocol_router() -> Babel<char> {
    let builder = BabelBuilder::new()
        .register_protocol(proto(102, vec![]))
        .unwrap()
        .register_protocol(proto(201, vec![7, 9]))
        .unwrap()
        .register_protocol(proto(301, vec![7, 7]))
        .unwrap();
    let runtimes = vec![(ProtocolId(102), 'a'), (ProtocolId(201), 'b'), (ProtocolId(301), 'c')];
    let (babel, _, _) = builder.start(runtimes);
    babel
}

#[test]
fn protocol_id_text_is_decimal() {
    assert_eq!(ProtocolId(0).to_text(), "0");
    assert_eq!(ProtocolId(7).to_text(), "7");
    assert_eq!(ProtocolId(42).to_text(), "42");
    assert_eq!(ProtocolId(301).to_text(), "301");
    assert_eq!(ProtocolId(10).to_text(), "10");
    assert_eq!(ProtocolId(65535).to_text(), "65535");
}

#[test]
fn ids_compare_by_number() {
    assert_eq!(ProtocolId(3), ProtocolId(3));
    assert_ne!(ProtocolId(3), ProtocolId(4));
    assert_eq!(MessageId(1), MessageId(1));
    assert_ne!(MessageId(1), MessageId(2));
}

#[test]
fn new_builder_is_empty() {
    let builder: BabelBuilder<Proto> = BabelBuilder::new();
    assert_eq!(builder.len(), 0);
    assert!(builder.protocol_ids().is_empty());
}

#[test]
fn registration_keeps_order() {
    let builder = BabelBuilder::new()
        .register_protocol(proto(301, vec![]))
        .unwrap()
        .register_protocol(proto(201, vec![]))
        .unwrap()
        .register_protocol(proto(102, vec![]))
        .unwrap();
    assert_eq!(builder.len(), 3);
    assert_eq!(builder.protocol_ids(), vec![ProtocolId(301), ProtocolId(201), ProtocolId(102)]);
}

#[test]
fn registering_a_taken_id_conflicts() {
    let builder = BabelBuilder::new().register_protocol(proto(201, vec![])).unwrap();
    match builder.register_protocol(proto(201, vec![5])) {
        Err(e) => assert_eq!(e, BabelError::ProtocolIdConflict(ProtocolId(201))),
        Ok(_) => panic!("a second protocol with id 201 was accepted"),
    }
}

#[test]
fn registering_with_explicit_id() {
    let builder: BabelBuilder<&str> = BabelBuilder::new();
    let builder = builder.register_protocol_with_id(ProtocolId(1), "one").unwrap();
    let builder = builder.register_protocol_with_id(ProtocolId(2), "two").unwrap();
    assert_eq!(builder.protocol_ids(), vec![ProtocolId(1), ProtocolId(2)]);
    let refused = builder.register_protocol_with_id(ProtocolId(1), "again");
    assert!(matches!(refused, Err(BabelError::ProtocolIdConflict(ProtocolId(1)))));
}

#[test]
fn logging_level_is_kept_through_start() {
    let builder = BabelBuilder::new()
        .register_protocol(proto(5, vec![]))
        .unwrap()
        .with_logging(LevelFilter::Trace);
    assert_eq!(builder.protocol_ids(), vec![ProtocolId(5)]);
    let (babel, protocols, level) = builder.start(vec![(ProtocolId(5), ())]);
    assert_eq!(level, Some(LevelFilter::Trace));
    assert_eq!(protocols.len(), 1);
    assert_eq!(protocols[0].0, ProtocolId(5));
    assert!(babel.is_registered(ProtocolId(5)));
}

#[test]
fn no_logging_unless_asked() {
    let builder = BabelBuilder::new().register_protocol(proto(5, vec![])).unwrap();
    let (_, _, level) = builder.start(vec![(ProtocolId(5), ())]);
    assert_eq!(level, None);
}

#[test]
fn later_logging_level_wins() {
    let builder: BabelBuilder<Proto> =
        BabelBuilder::new().with_logging(LevelFilter::Info).with_logging(LevelFilter::Warn);
    let (_, _, level) = builder.start(Vec::<(ProtocolId, ())>::new());
    assert_eq!(level, Some(LevelFilter::Warn));
}

#[test]
fn start_hands_back_protocols_in_order() {
    let builder = BabelBuilder::new()
        .register_protocol(proto(9, vec![1]))
        .unwrap()
        .register_protocol(proto(3, vec![2]))
        .unwrap();
    let (babel, protocols, _) = builder.start(vec![(ProtocolId(9), 90u32), (ProtocolId(3), 30u32)]);
    let ids: Vec<ProtocolId> = protocols.iter().map(|(id, _)| *id).collect();
    assert_eq!(ids, vec![ProtocolId(9), ProtocolId(3)]);
    assert_eq!(protocols[0].1.subscriptions, vec![1]);
    assert_eq!(babel.runtime(ProtocolId(9)), Some(&90));
    assert_eq!(babel.runtime(ProtocolId(3)), Some(&30));
    assert_eq!(babel.runtime(ProtocolId(4)), None);
}

#[test]
fn requests_and_replies_go_to_registered_destinations() {
    let babel = three_protocol_router();
    assert!(matches!(babel.route(&request(102, 201), 0), Route::Deliver(ProtocolId(201))));
    assert!(matches!(babel.route(&reply(201, 102), 0), Route::Deliver(ProtocolId(102))));
    assert!(matches!(babel.route(&request(102, 102), 0), Route::Deliver(ProtocolId(102))));
}

#[test]
fn requests_to_unknown_protocols_are_dropped() {
    let babel = three_protocol_router();
    assert!(matches!(babel.route(&request(102, 999), 0), Route::Unregistered(ProtocolId(999))));
    assert!(matches!(babel.route(&reply(102, 4), 7), Route::Unregistered(ProtocolId(4))));
}

#[test]
fn notifications_reach_each_subscription() {
    let babel = three_protocol_router();
    match babel.route(&notification(102), 7) {
        Route::Broadcast(to) => {
            assert_eq!(to, vec![ProtocolId(201), ProtocolId(301), ProtocolId(301)])
        }
        other => panic!("unexpected route {:?}", other),
    }
    match babel.route(&notification(301), 9) {
        Route::Broadcast(to) => assert_eq!(to, vec![ProtocolId(201)]),
        other => panic!("unexpected route {:?}", other),
    }
}

#[test]
fn notifications_without_subscribers_go_nowhere() {
    let babel = three_protocol_router();
    match babel.route(&notification(201), 8) {
        Route::Broadcast(to) => assert!(to.is_empty()),
        other => panic!("unexpected route {:?}", other),
    }
    assert!(babel.notification_subscribers(123).is_empty());
}

#[test]
fn network_messages_are_not_forwarded() {
    let babel = three_protocol_router();
    let event: TestEvent = Event::Message("gossip");
    assert!(matches!(babel.route(&event, 7), Route::Discard));
}

#[test]
fn shutdown_reaches_every_protocol_once() {
    let babel = three_protocol_router();
    assert_eq!(babel.shutdown(), vec![ProtocolId(102), ProtocolId(201), ProtocolId(301)]);
}

#[test]
fn router_built_directly() {
    let babel = Babel::new(
        vec![(ProtocolId(1), "x"), (ProtocolId(2), "y")],
        vec![vec![4, 5, 4], vec![5]],
    );
    assert_eq!(babel.notification_subscribers(4), vec![ProtocolId(1), ProtocolId(1)]);
    assert_eq!(babel.notification_subscribers(5), vec![ProtocolId(1), ProtocolId(2)]);
    assert_eq!(babel.notification_subscribers(6), vec![]);
    assert!(babel.is_registered(ProtocolId(2)));
    assert!(!babel.is_registered(ProtocolId(3)));
}

#[test]
fn handle_stamps_its_own_id() {
    let handle = ProtocolHandle::new(ProtocolId(201));
    assert_eq!(handle.protocol_id(), ProtocolId(201));
    let e: TestEvent = handle.send_request(ProtocolId(301), "hello");
    match e {
        Event::Request(r) => {
            assert_eq!(r.source, ProtocolId(201));
            assert_eq!(r.destination, ProtocolId(301));
            assert_eq!(r.ipc, "hello");
        }
        _ => panic!("not a request"),
    }
    let e: TestEvent = handle.send_reply(ProtocolId(102), "bye");
    match e {
        Event::Reply(r) => {
            assert_eq!(r.source, ProtocolId(201));
            assert_eq!(r.destination, ProtocolId(102));
            assert_eq!(r.ipc, "bye");
        }
        _ => panic!("not a reply"),
    }
    let e: TestEvent = handle.notify("news");
    match e {
        Event::Notification(n) => {
            assert_eq!(n.source, ProtocolId(201));
            assert_eq!(n.notification, "news");
        }
        _ => panic!("not a notification"),
    }
}

fn sample_handlers() -> Handlers<&'static str, &'static str, &'static str> {
    let mut h = Handlers::new();
    h.request_handlers.insert(1, "on_hello");
    h.reply_handlers.insert(2, "on_goodbye");
    h.notification_handlers.insert(3, "on_deliver");
    h.message_handlers.insert(4, "on_gossip");
    h
}

#[test]
fn each_kind_goes_to_its_own_table() {
    let h = sample_handlers();
    assert!(matches!(h.step(&request(1, 2), 1), Step::Handle(&"on_hello")));
    assert!(matches!(h.step(&reply(1, 2), 2), Step::Handle(&"on_goodbye")));
    assert!(matches!(h.step(&notification(1), 3), Step::Handle(&"on_deliver")));
    let m: TestEvent = Event::Message("gossip");
    assert!(matches!(h.step(&m, 4), Step::HandleMessage(&"on_gossip")));
}

#[test]
fn events_without_handler_are_dropped() {
    let h = sample_handlers();
    assert!(matches!(h.step(&request(1, 2), 2), Step::Unhandled(2)));
    assert!(matches!(h.step(&reply(1, 2), 1), Step::Unhandled(1)));
    assert!(matches!(h.step(&notification(1), 4), Step::Unhandled(4)));
    let m: TestEvent = Event::Message("gossip");
    assert!(matches!(h.step(&m, 3), Step::Unhandled(3)));
}

#[test]
fn shutdown_stops_with_or_without_handler() {
    let mut h = sample_handlers();
    let stop: TestEvent = Event::Shutdown;
    assert!(matches!(h.step(&stop, 0), Step::Stop(None)));
    h.shutdown_handler = Some("on_shutdown");
    assert!(matches!(h.step(&stop, 0), Step::Stop(Some(&"on_shutdown"))));
}

#[test]
fn babel_message_holds_its_frame() {
    let m = BabelMessage {
        id: MessageId(2),
        inner_message_bytes: vec![1u8, 2, 3].into_boxed_slice(),
        source: ProtocolId(102),
        destiny: ProtocolId(201),
    };
    assert_eq!(m.id, MessageId(2));
    assert_eq!(&*m.inner_message_bytes, &[1u8, 2, 3]);
    assert_eq!(m.source, ProtocolId(102));
    assert_eq!(m.destiny, ProtocolId(201));
}

#[test]
fn request_from_handle_reaches_registered_protocol() {
    let babel = three_protocol_router();
    let handle = ProtocolHandle::new(ProtocolId(102));
    let to_gossip: TestEvent = handle.send_request(ProtocolId(201), "broadcast");
    assert!(matches!(babel.route(&to_gossip, 0), Route::Deliver(ProtocolId(201))));
    let to_nobody: TestEvent = handle.send_request(ProtocolId(7), "lost");
    assert!(matches!(babel.route(&to_nobody, 0), Route::Unregistered(ProtocolId(7))));
    match to_gossip {
        Event::Request(r) => assert_eq!(r.source, ProtocolId(102)),
        _ => panic!("not a request"),
    }
}

#[test]
fn unregistered_protocol_gets_no_notification() {
    let babel = three_protocol_router();
    for t in [7u64, 9, 8] {
        assert!(!babel.notification_subscribers(t).contains(&ProtocolId(999)));
        assert!(!babel.notification_subscribers(t).contains(&ProtocolId(102)));
    }
}

#[test]
fn conflict_error_text_names_the_id() {
    assert_eq!(
        BabelError::ProtocolIdConflict(ProtocolId(301)).message(),
        "ProtocolId conflict: 301"
    );
    assert_eq!(BabelError::ProtocolIdConflict(ProtocolId(0)).message(), "ProtocolId conflict: 0");
}

#[test]
fn chat_app_registered_twice_conflicts() {
    let builder = BabelBuilder::new().register_protocol(proto(301, vec![7])).unwrap();
    let refused = builder.register_protocol(proto(301, vec![7]));
    match refused {
        Err(e) => {
            assert_eq!(e, BabelError::ProtocolIdConflict(ProtocolId(301)));
            assert!(e.message().starts_with("ProtocolId conflict"));
        }
        Ok(_) => panic!("a second protocol with id 301 was accepted"),
    }
}

#[test]
fn registration_chain_with_distinct_ids_keeps_all() {
    let ids = [102u16, 201, 301, 5, 7];
    let mut builder = BabelBuilder::new().with_logging(LevelFilter::Debug);
    for id in ids {
        builder = builder.register_protocol(proto(id, vec![])).unwrap();
    }
    assert_eq!(builder.len(), ids.len());
    let expected: Vec<ProtocolId> = ids.iter().map(|&i| ProtocolId(i)).collect();
    assert_eq!(builder.protocol_ids(), expected);
}

#[test]
fn registration_chain_with_repeated_id_fails() {
    let ids = [102u16, 201, 102];
    let mut builder = Some(BabelBuilder::new());
    let mut failed_at = None;
    for (k, id) in ids.iter().enumerate() {
        match builder.take().unwrap().register_protocol(proto(*id, vec![])) {
            Ok(b) => builder = Some(b),
            Err(e) => {
                assert_eq!(e, BabelError::ProtocolIdConflict(ProtocolId(102)));
                failed_at = Some(k);
                break;
            }
        }
    }
    assert_eq!(failed_at, Some(2));
}

#[test]
fn nothing_is_handled_after_shutdown() {
    let mut h = sample_handlers();
    h.shutdown_handler = Some("on_shutdown");
    let events: Vec<TestEvent> = vec![request(1, 2), Event::Shutdown, request(1, 2), notification(3)];
    let keys = [1u64, 0, 1, 3];
    let mut state = LoopState::Running;
    let mut taken = Vec::new();
    for (event, key) in events.iter().zip(keys) {
        let (next, step) = h.receive(state, event, key);
        taken.push(match step {
            Step::Handle(name) => name.to_string(),
            Step::Stop(Some(name)) => format!("stop {}", name),
            Step::Ignore => "ignored".to_string(),
            _ => "other".to_string(),
        });
        state = next;
    }
    assert_eq!(taken, vec!["on_hello", "stop on_shutdown", "ignored", "ignored"]);
    assert_eq!(state, LoopState::Stopped);
}

#[test]
fn running_state_kept_until_shutdown() {
    let h = sample_handlers();
    let (next, step) = h.receive(LoopState::Running, &reply(1, 2), 2);
    assert_eq!(next, LoopState::Running);
    assert!(matches!(step, Step::Handle(&"on_goodbye")));
    let stop: TestEvent = Event::Shutdown;
    let (next, step) = h.receive(LoopState::Running, &stop, 0);
    assert_eq!(next, LoopState::Stopped);
    assert!(matches!(step, Step::Stop(None)));
}

#[test]
fn registered_protocol_found_by_id() {
    let builder = BabelBuilder::new()
        .register_protocol(proto(102, vec![1]))
        .unwrap()
        .register_protocol(proto(201, vec![2]))
        .unwrap();
    assert_eq!(builder.protocol(ProtocolId(201)).map(|p| p.subscriptions.clone()), Some(vec![2]));
    assert!(builder.protocol(ProtocolId(301)).is_none());
}

#[test]
fn registrations_commute() {
    let ab = BabelBuilder::new()
        .register_protocol(proto(1, vec![]))
        .unwrap()
        .register_protocol(proto(2, vec![]))
        .unwrap();
    let ba = BabelBuilder::new()
        .register_protocol(proto(2, vec![]))
        .unwrap()
        .register_protocol(proto(1, vec![]))
        .unwrap();
    let mut x = ab.protocol_ids();
    let mut y = ba.protocol_ids();
    x.sort_by_key(|p| p.0);
    y.sort_by_key(|p| p.0);
    assert_eq!(x, y);
}
