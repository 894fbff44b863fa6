use babel::plan::HandlerAttribute::{Message, Notification, Reply, Request, Shutdown};
use babel::plan::{plan_handlers, HandlerAttribute, HandlerMethod, InvalidHandler};

fn method(attributes: Vec<HandlerAttribute>, event_type: Option<u64>) -> HandlerMethod {
    HandlerMethod { attributes, event_type }
}

#[test]
fn tables_follow_source_order() {
    let methods = vec![
        method(vec![Request], Some(10)),
        method(vec![Notification], Some(20)),
        method(vec![], Some(99)),
        method(vec![Reply, Request], Some(30)),
        method(vec![Message], Some(40)),
        method(vec![Notification], Some(50)),
        method(vec![Shutdown], None),
    ];
    let plan = plan_handlers(&methods).unwrap();
    assert_eq!(plan.request_handlers, vec![(10, 0), (30, 3)]);
    assert_eq!(plan.reply_handlers, vec![(30, 3)]);
    assert_eq!(plan.notification_handlers, vec![(20, 1), (50, 5)]);
    assert_eq!(plan.subscriptions, vec![20, 50]);
    assert_eq!(plan.message_handlers, vec![(40, 4)]);
    assert_eq!(plan.shutdown_handler, Some(6));
}

#[test]
fn last_shutdown_handler_wins() {
    let methods = vec![
        method(vec![Shutdown], None),
        method(vec![Request], Some(1)),
        method(vec![Shutdown], Some(2)),
    ];
    let plan = plan_handlers(&methods).unwrap();
    assert_eq!(plan.shutdown_handler, Some(2));
}

#[test]
fn no_methods_no_handlers() {
    let plan = plan_handlers(&vec![]).unwrap();
    assert!(plan.request_handlers.is_empty());
    assert!(plan.subscriptions.is_empty());
    assert_eq!(plan.shutdown_handler, None);
}

#[test]
fn message_handler_without_reference_is_skipped() {
    let methods = vec![method(vec![Message], None), method(vec![Message], Some(3))];
    let plan = plan_handlers(&methods).unwrap();
    assert_eq!(plan.message_handlers, vec![(3, 1)]);
}

#[test]
fn ipc_handler_without_reference_is_refused() {
    let methods = vec![
        method(vec![Request], Some(1)),
        method(vec![Message], None),
        method(vec![Notification], None),
        method(vec![Reply], None),
    ];
    assert_eq!(plan_handlers(&methods).err(), Some(InvalidHandler { method: 2 }));
    let methods = vec![method(vec![Shutdown, Reply], None)];
    assert_eq!(plan_handlers(&methods).err(), Some(InvalidHandler { method: 0 }));
}

#[test]
fn repeated_notification_attribute_subscribes_twice() {
    let methods = vec![method(vec![Notification, Notification], Some(8))];
    let plan = plan_handlers(&methods).unwrap();
    assert_eq!(plan.subscriptions, vec![8, 8]);
    assert_eq!(plan.notification_handlers, vec![(8, 0), (8, 0)]);
}
