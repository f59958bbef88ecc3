use std::any::TypeId;
use std::sync::Arc;

use botkit::manager::{DaemonManager, Delivery, CHANNEL_CAPACITY};
use botkit::task::Msg;
use tokio::sync::mpsc::error::TryRecvError;
use tokio::sync::Mutex;

struct Foo;
struct Bar;

fn numbers(manager: &DaemonManager<()>) -> Vec<usize> {
    let mut numbers: Vec<usize> = manager.daemon_names().0.into_iter().map(|(id, _)| id).collect();
    numbers.sort();
    numbers
}

#[test]
fn shared() {
    let mut manager = DaemonManager::from(Arc::new(()));
    let (id, _rx) = manager.add_daemon::<Arc<Mutex<Foo>>>("ola");
    let (names, garbage) = manager.daemon_names();
    assert!(!garbage);
    assert_eq!(names.len(), 1);
    assert_eq!(names[0].0, id);
    assert_eq!(names[0].1.name(), "ola");
    assert_eq!(names[0].1.ty(), TypeId::of::<Arc<Mutex<Foo>>>());
}

#[test]
fn a_new_manager_has_no_daemons() {
    let manager = DaemonManager::spawn(Arc::new(42));
    assert!(manager.daemon_names().0.is_empty());
    assert_eq!(**manager.data(), 42);
    assert!(!manager.needs_gc());
}

#[test]
fn daemons_are_numbered_in_order() {
    let mut manager = DaemonManager::spawn(Arc::new(()));
    let (a, _a) = manager.add_daemon::<Foo>("a");
    let (b, _b) = manager.add_daemon::<Bar>("b");
    let (c, _c) = manager.add_daemon::<Foo>("c");
    assert_eq!((a, b, c), (0, 1, 2));
    assert_eq!(numbers(&manager), vec![0, 1, 2]);
    for (id, handle) in manager.daemon_names().0 {
        let expected = if id == 1 { TypeId::of::<Bar>() } else { TypeId::of::<Foo>() };
        assert_eq!(handle.ty(), expected);
        assert_eq!(handle.name(), ["a", "b", "c"][id]);
    }
}

#[test]
fn a_message_to_run_reaches_the_daemon() {
    let mut manager = DaemonManager::spawn(Arc::new(()));
    let (_, mut other) = manager.add_daemon::<Foo>("other");
    let (id, mut rx) = manager.add_daemon::<Foo>("foo");
    assert_eq!(rx.max_capacity(), CHANNEL_CAPACITY);
    assert_eq!(rx.max_capacity(), 10);
    let outgoing = manager.run_one(id).unwrap();
    assert_eq!(outgoing.msg, Msg::Run);
    outgoing.to.try_send(outgoing.msg).unwrap();
    assert_eq!(manager.run_one_sent(id, Delivery::Delivered), Ok(()));
    assert_eq!(rx.try_recv(), Ok(Msg::Run));
    assert_eq!(other.try_recv(), Err(TryRecvError::Empty));
    assert_eq!(numbers(&manager), vec![0, 1]);
}

#[test]
fn a_cancelled_daemon_is_dropped() {
    let mut manager = DaemonManager::spawn(Arc::new(()));
    let (id, mut rx) = manager.add_daemon::<Foo>("foo");
    let outgoing = manager.cancel(id).unwrap();
    assert_eq!(outgoing.msg, Msg::Cancel);
    outgoing.to.try_send(outgoing.msg).unwrap();
    assert_eq!(manager.cancel_sent(id, Delivery::Delivered), Ok(()));
    assert_eq!(rx.try_recv(), Ok(Msg::Cancel));
    assert!(manager.daemon_names().0.is_empty());
}

#[test]
fn to_cancel_twice_is_answered_with_the_number() {
    let mut manager = DaemonManager::spawn(Arc::new(()));
    let (id, _rx) = manager.add_daemon::<Foo>("foo");
    let (other, _other) = manager.add_daemon::<Foo>("other");
    assert!(manager.cancel(id).is_some());
    assert_eq!(manager.cancel_sent(id, Delivery::Delivered), Ok(()));
    assert!(manager.cancel(id).is_none());
    assert_eq!(manager.cancel_sent(id, Delivery::NotRunning), Err(id));
    assert_eq!(numbers(&manager), vec![other]);
}

#[test]
fn a_message_to_nobody_is_answered_with_the_number() {
    let mut manager = DaemonManager::spawn(Arc::new(()));
    assert!(manager.run_one(7).is_none());
    assert_eq!(manager.run_one_sent(7, Delivery::NotRunning), Err(7));
}

#[test]
fn a_refused_message_drops_the_daemon() {
    let mut manager = DaemonManager::spawn(Arc::new(()));
    let (id, rx) = manager.add_daemon::<Foo>("foo");
    let (other, _other) = manager.add_daemon::<Foo>("other");
    drop(rx);
    let outgoing = manager.run_one(id).unwrap();
    assert!(outgoing.to.try_send(outgoing.msg).is_err());
    assert_eq!(manager.run_one_sent(id, Delivery::Refused), Err(id));
    assert!(manager.run_one(id).is_none());
    assert!(manager.run_one(other).is_some());
}

#[test]
fn a_refused_cancellation_drops_the_daemon_too() {
    let mut manager = DaemonManager::spawn(Arc::new(()));
    let (id, rx) = manager.add_daemon::<Foo>("foo");
    drop(rx);
    assert!(manager.cancel(id).is_some());
    assert_eq!(manager.cancel_sent(id, Delivery::Refused), Err(id));
    assert!(manager.cancel(id).is_none());
}

#[test]
fn garbage_is_collected_when_a_daemon_asks_for_it() {
    let mut manager = DaemonManager::spawn(Arc::new(()));
    let (gone, rx) = manager.add_daemon::<Foo>("gone");
    let (here, _here) = manager.add_daemon::<Foo>("here");
    drop(rx);
    manager.gc();
    assert!(manager.run_one(gone).is_some());
    manager.daemon_gone();
    assert!(manager.needs_gc());
    manager.gc();
    assert!(!manager.needs_gc());
    assert!(manager.run_one(gone).is_none());
    assert!(manager.run_one(here).is_some());
}

#[test]
fn a_look_at_the_daemons_notices_garbage() {
    let mut manager = DaemonManager::spawn(Arc::new(()));
    let (_, rx) = manager.add_daemon::<Foo>("gone");
    let (here, _here) = manager.add_daemon::<Foo>("here");
    assert_eq!(numbers(&manager), vec![0, 1]);
    assert!(!manager.daemon_names().1);
    drop(rx);
    assert_eq!(numbers(&manager), vec![here]);
    assert!(manager.daemon_names().1);
    manager.daemon_gone();
    manager.gc();
    assert!(!manager.daemon_names().1);
    assert_eq!(numbers(&manager), vec![here]);
}

#[test]
fn all_daemons_can_be_run_at_once() {
    let mut manager = DaemonManager::spawn(Arc::new(()));
    let (a, mut rx_a) = manager.add_daemon::<Foo>("a");
    let (b, rx_b) = manager.add_daemon::<Foo>("b");
    let (c, mut rx_c) = manager.add_daemon::<Foo>("c");
    drop(rx_b);
    manager.daemon_gone();
    assert!(manager.needs_gc());
    let mut failed = Vec::new();
    for (id, outgoing) in manager.run_all() {
        assert_eq!(outgoing.msg, Msg::Run);
        if outgoing.to.try_send(outgoing.msg).is_err() {
            failed.push(id);
        }
    }
    assert_eq!(failed, vec![b]);
    manager.run_all_sent(&failed);
    assert!(!manager.needs_gc());
    assert_eq!(rx_a.try_recv(), Ok(Msg::Run));
    assert_eq!(rx_c.try_recv(), Ok(Msg::Run));
    assert_eq!(numbers(&manager), vec![a, c]);
}
