use std::any::TypeId;
use std::cell::Cell;
use std::ops::ControlFlow;

use botkit::pubsub::{Event, EventBus, Publication, Subscribers};

struct Joined;
struct Left;

impl Event for Joined {
    type Argument = String;
}

impl Event for Left {
    type Argument = u32;
}

fn all(list: &mut Subscribers<char>) -> String {
    let mut all = String::new();
    for i in 0..list.len() {
        all.push(*list.callback(i));
    }
    all
}

fn round(list: &mut Subscribers<char>, leave: &str) -> String {
    let mut round = Publication::new();
    let mut told = String::new();
    while let Some(i) = round.next(list) {
        let name = *list.callback(i);
        told.push(name);
        round.answered(if leave.contains(name) {
            ControlFlow::Break(())
        } else {
            ControlFlow::Continue(())
        });
    }
    list.finish(&round);
    told
}

fn list(names: &str) -> Subscribers<char> {
    let mut list = Subscribers::new();
    for name in names.chars() {
        list.push(name);
    }
    list
}

#[test]
fn subscribers_queue_up_by_event() {
    let mut bus: EventBus<Subscribers<char>> = EventBus::new();
    assert!(bus.subscribers(&TypeId::of::<Joined>()).is_none());
    bus.subscribe::<Joined>(Subscribers::new()).push('a');
    bus.subscribe::<Left>(Subscribers::new()).push('b');
    bus.subscribe_to(TypeId::of::<Joined>(), Subscribers::new()).push('c');
    assert_eq!(all(bus.subscribe::<Joined>(Subscribers::new())), "ac");
    assert_eq!(all(bus.subscribe::<Left>(Subscribers::new())), "b");
}

#[test]
fn the_argument_is_made_only_for_somebody() {
    let mut bus: EventBus<Subscribers<char>> = EventBus::default();
    let made = Cell::new(0);
    let arg = || {
        made.set(made.get() + 1);
        "mendess".to_string()
    };
    assert!(bus.publish_with::<Joined, _>(arg).is_none());
    assert_eq!(made.get(), 0);
    bus.subscribe::<Joined>(Subscribers::new()).push('a');
    let (list, told) = bus.publish_with::<Joined, _>(arg).unwrap();
    assert_eq!(list.len(), 1);
    assert_eq!(told, "mendess");
    assert_eq!(made.get(), 1);
}

#[test]
fn an_event_goes_to_its_own_list() {
    let mut bus: EventBus<Subscribers<char>> = EventBus::new();
    bus.subscribe::<Joined>(list("ab")).push('c');
    assert!(bus.publish::<Left>(5).is_none());
    let (list, told) = bus.publish::<Joined>("x".to_string()).unwrap();
    assert_eq!(list.len(), 3);
    assert_eq!(told, "x");
}

#[test]
fn everybody_is_told_in_order() {
    let mut subscribers = list("abcd");
    assert_eq!(round(&mut subscribers, ""), "abcd");
    assert_eq!(all(&mut subscribers), "abcd");
}

#[test]
fn whoever_breaks_leaves() {
    let mut subscribers = list("abcde");
    assert_eq!(round(&mut subscribers, "bd"), "abcde");
    assert_eq!(all(&mut subscribers), "ace");
    assert_eq!(round(&mut subscribers, "a"), "ace");
    assert_eq!(all(&mut subscribers), "ce");
}

#[test]
fn everybody_may_leave() {
    let mut subscribers = list("abc");
    round(&mut subscribers, "abc");
    assert_eq!(subscribers.len(), 0);
    assert_eq!(round(&mut subscribers, "abc"), "");
}

#[test]
fn whoever_was_not_asked_stays() {
    let mut subscribers = list("abc");
    let mut round = Publication::new();
    round.answered(ControlFlow::Break(()));
    subscribers.finish(&round);
    assert_eq!(all(&mut subscribers), "bc");
}

struct Renamed;

impl Event for Renamed {
    type Argument = String;
}

#[test]
fn events_with_the_same_argument_are_told_apart() {
    let mut bus: EventBus<Subscribers<char>> = EventBus::new();
    bus.subscribe::<Joined>(Subscribers::new()).push('f');
    bus.subscribe::<Renamed>(Subscribers::new()).push('g');
    assert_eq!(all(bus.subscribe::<Joined>(Subscribers::new())), "f");
    assert_eq!(all(bus.subscribe::<Renamed>(Subscribers::new())), "g");
    let (list, told) = bus.publish::<Joined>("x".to_string()).unwrap();
    assert_eq!((list.len(), told), (1, "x".to_string()));
}

#[test]
fn an_argument_for_nobody_is_never_made() {
    let mut bus: EventBus<Subscribers<char>> = EventBus::new();
    bus.subscribe::<Renamed>(Subscribers::new()).push('g');
    assert!(bus.publish_with::<Joined, _>(|| panic!("nobody is there")).is_none());
}
