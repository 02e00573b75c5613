use std::cell::RefCell;
use std::rc::Rc;

use ul::registry::{CallbackRegistry, Notification, NotificationQueue};

#[test]
fn register_and_lookup() {
    let mut reg: CallbackRegistry<u32> = CallbackRegistry::new();
    let a = reg.register(10);
    let b = reg.register(20);
    assert_ne!(a, b);
    assert_eq!(reg.lookup(a), Some(&10));
    assert_eq!(reg.lookup(b), Some(&20));
    assert_eq!(reg.handles_used(), 2);
}

#[test]
fn stale_handle_is_a_checked_failure() {
    let mut reg: CallbackRegistry<u32> = CallbackRegistry::new();
    let a = reg.register(10);
    // a handle that was never handed out
    assert_eq!(reg.lookup(a + 1), None);
    // a handle whose registration is gone
    assert!(reg.unregister(a));
    assert_eq!(reg.lookup(a), None);
    assert!(!reg.unregister(a));
    // the emptied slot is not reused
    let b = reg.register(30);
    assert_ne!(a, b);
    assert_eq!(reg.lookup(a), None);
    assert_eq!(reg.lookup(b), Some(&30));
}

#[test]
fn resize_notification_observed_exactly_once() {
    // a two-integer notification closure, as a window resize callback
    let observed: Rc<RefCell<Vec<(u32, u32)>>> = Rc::new(RefCell::new(Vec::new()));
    let sink = observed.clone();
    let mut reg: CallbackRegistry<Box<dyn Fn(u32, u32)>> = CallbackRegistry::new();
    let handle = reg.register(Box::new(move |w, h| sink.borrow_mut().push((w, h))));

    let mut queue = NotificationQueue::new();
    queue.push(Notification { handle, a: 800, b: 600 });

    // the driver pumps the queue until it is empty
    while let Some(n) = queue.take_next() {
        if let Some(cb) = reg.lookup(n.handle) {
            cb(n.a, n.b);
        }
    }

    assert_eq!(*observed.borrow(), vec![(800, 600)]);
    assert_eq!(queue.len(), 0);
}

#[test]
fn notifications_keep_arrival_order() {
    let observed: Rc<RefCell<Vec<(u64, u32, u32)>>> = Rc::new(RefCell::new(Vec::new()));
    let mut reg: CallbackRegistry<Box<dyn Fn(u64, u32, u32)>> = CallbackRegistry::new();
    let s1 = observed.clone();
    let first = reg.register(Box::new(move |h, a, b| s1.borrow_mut().push((h, a, b))));
    let s2 = observed.clone();
    let second = reg.register(Box::new(move |h, a, b| s2.borrow_mut().push((h, a, b))));

    let mut queue = NotificationQueue::new();
    queue.push(Notification { handle: first, a: 800, b: 600 });
    queue.push(Notification { handle: second, a: 0, b: 0 });
    queue.push(Notification { handle: first, a: 1024, b: 768 });

    while let Some(n) = queue.take_next() {
        if let Some(cb) = reg.lookup(n.handle) {
            cb(n.handle, n.a, n.b);
        }
    }

    assert_eq!(*observed.borrow(), vec![(first, 800, 600), (second, 0, 0), (first, 1024, 768)]);
}
