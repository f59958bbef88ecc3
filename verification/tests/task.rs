use botkit::control_flow::ControlFlow;
use botkit::task::{Action, DaemonTask, Event, Msg};

const S: u128 = 1_000_000_000;

#[test]
fn a_plain_round_waits_for_the_interval_and_runs() {
    let mut task = DaemonTask::<false>::new(0);
    assert_eq!(task.action(), Action::AskInterval);
    task.step(Event::Interval { interval: 5 * S, now: S });
    assert_eq!(task.action(), Action::ReadClock);
    task.step(Event::Clock { now: S + 1 });
    assert_eq!(task.action(), Action::Receive { time_left: 5 * S - 1 });
    task.step(Event::TimedOut);
    assert_eq!(task.action(), Action::ReadClock);
    task.step(Event::Clock { now: 6 * S + 2 });
    assert_eq!(task.action(), Action::Run);
    task.step(Event::Ran { flow: ControlFlow::CONTINUE });
    assert_eq!(task.action(), Action::AskInterval);
}

#[test]
fn a_timer_that_fires_early_is_waited_for_again() {
    let mut task = DaemonTask::<true>::new(0);
    task.step(Event::Interval { interval: 5 * S, now: 0 });
    task.step(Event::Clock { now: 0 });
    task.step(Event::TimedOut);
    task.step(Event::Clock { now: 4 * S });
    assert_eq!(task.action(), Action::Receive { time_left: S });
    task.step(Event::TimedOut);
    task.step(Event::Clock { now: 5 * S });
    assert_eq!(task.action(), Action::Receive { time_left: 0 });
    task.step(Event::TimedOut);
    task.step(Event::Clock { now: 5 * S + 1 });
    assert_eq!(task.action(), Action::Run);
}

#[test]
fn compensation_takes_the_running_time_off() {
    let mut task = DaemonTask::<true>::new(0);
    task.step(Event::Interval { interval: 10 * S, now: 0 });
    task.step(Event::Clock { now: 0 });
    task.step(Event::TimedOut);
    task.step(Event::Clock { now: 10 * S + 1 });
    task.step(Event::Ran { flow: ControlFlow::Continue });
    task.step(Event::Interval { interval: 10 * S, now: 13 * S });
    task.step(Event::Clock { now: 13 * S });
    assert_eq!(task.action(), Action::Receive { time_left: 7 * S + 1 });
}

#[test]
fn without_compensation_the_running_time_does_not_count() {
    let mut task = DaemonTask::<false>::new(0);
    task.step(Event::Interval { interval: 10 * S, now: 0 });
    task.step(Event::Clock { now: 0 });
    task.step(Event::TimedOut);
    task.step(Event::Clock { now: 10 * S + 1 });
    task.step(Event::Ran { flow: ControlFlow::Continue });
    task.step(Event::Interval { interval: 10 * S, now: 13 * S });
    task.step(Event::Clock { now: 13 * S });
    assert_eq!(task.action(), Action::Receive { time_left: 10 * S });
}

/// Lets a round pass without a message and returns at what reading the daemon runs.
fn runs_at(task: &mut DaemonTask<true>, interval: u128, now: u128) -> u128 {
    task.step(Event::Interval { interval, now });
    task.step(Event::Clock { now });
    let Action::Receive { time_left } = task.action() else {
        panic!("the daemon does not listen");
    };
    let runs = now + time_left + 1;
    task.step(Event::TimedOut);
    task.step(Event::Clock { now: runs });
    assert_eq!(task.action(), Action::Run);
    task.step(Event::Ran { flow: ControlFlow::Continue });
    runs
}

#[test]
fn a_run_that_outlasts_the_interval_is_followed_by_the_next_at_once() {
    let mut task = DaemonTask::<true>::new(0);
    let first = runs_at(&mut task, 10 * S, 0);
    assert_eq!(first, 10 * S + 1);
    let second = runs_at(&mut task, 10 * S, first + 25 * S);
    assert_eq!(second, 35 * S + 2);
    let third = runs_at(&mut task, 10 * S, second + S);
    assert_eq!(third, 45 * S + 3);
}

#[test]
fn a_daemon_without_an_interval_still_listens() {
    let mut task = DaemonTask::<false>::new(0);
    for now in [10, 20, 30] {
        task.step(Event::Interval { interval: 0, now });
        task.step(Event::Clock { now: now + 1 });
        assert_eq!(task.action(), Action::Receive { time_left: 0 });
        task.step(Event::TimedOut);
        task.step(Event::Clock { now: now + 2 });
        assert_eq!(task.action(), Action::Run);
        task.step(Event::Ran { flow: ControlFlow::Continue });
    }
    task.step(Event::Interval { interval: 0, now: 40 });
    task.step(Event::Clock { now: 41 });
    task.step(Event::Message { msg: Msg::Cancel, now: 42 });
    assert_eq!(task.action(), Action::Stop { needs_gc: false });
}

#[test]
fn a_request_to_run_is_followed_at_once() {
    let mut task = DaemonTask::<false>::new(0);
    task.step(Event::Interval { interval: 5 * S, now: 0 });
    task.step(Event::Clock { now: 0 });
    task.step(Event::Message { msg: Msg::Run, now: S });
    assert_eq!(task.action(), Action::Run);
}

#[test]
fn the_time_before_a_requested_run_is_no_running_time() {
    let mut task = DaemonTask::<true>::new(0);
    task.step(Event::Interval { interval: 10 * S, now: 0 });
    task.step(Event::Clock { now: 0 });
    task.step(Event::Message { msg: Msg::Run, now: 4 * S });
    task.step(Event::Ran { flow: ControlFlow::Continue });
    task.step(Event::Interval { interval: 10 * S, now: 6 * S });
    task.step(Event::Clock { now: 6 * S });
    assert_eq!(task.action(), Action::Receive { time_left: 8 * S });
}

#[test]
fn a_cancelled_daemon_stops_for_good() {
    let mut task = DaemonTask::<false>::new(0);
    task.step(Event::Interval { interval: 5 * S, now: 0 });
    task.step(Event::Clock { now: 0 });
    task.step(Event::Message { msg: Msg::Cancel, now: S });
    assert_eq!(task.action(), Action::Stop { needs_gc: false });
    task.step(Event::Message { msg: Msg::Run, now: 2 * S });
    task.step(Event::Clock { now: 20 * S });
    assert_eq!(task.action(), Action::Stop { needs_gc: false });
}

#[test]
fn a_daemon_that_breaks_off_leaves_garbage() {
    let mut task = DaemonTask::<false>::new(0);
    task.step(Event::Interval { interval: 0, now: 0 });
    task.step(Event::Clock { now: 1 });
    task.step(Event::TimedOut);
    task.step(Event::Clock { now: 2 });
    assert_eq!(task.action(), Action::Run);
    task.step(Event::Ran { flow: ControlFlow::BREAK });
    assert_eq!(task.action(), Action::Stop { needs_gc: true });
}

#[test]
fn a_daemon_outlives_its_manager() {
    let mut task = DaemonTask::<true>::new(0);
    task.step(Event::Interval { interval: 10 * S, now: 0 });
    task.step(Event::Clock { now: 0 });
    task.step(Event::Disconnected { now: 4 * S });
    assert_eq!(task.action(), Action::Sleep { time_left: 6 * S });
    task.step(Event::Slept);
    task.step(Event::Clock { now: 10 * S + 1 });
    assert_eq!(task.action(), Action::Run);
    task.step(Event::Ran { flow: ControlFlow::Continue });
    task.step(Event::Interval { interval: 10 * S, now: 12 * S + 1 });
    task.step(Event::Clock { now: 12 * S + 1 });
    assert_eq!(task.action(), Action::Receive { time_left: 8 * S });
    task.step(Event::Disconnected { now: 12 * S + 1 });
    assert_eq!(task.action(), Action::Sleep { time_left: 8 * S });
}

#[test]
fn an_event_out_of_turn_changes_nothing() {
    let mut task = DaemonTask::<true>::new(7);
    let before = task;
    task.step(Event::Slept);
    task.step(Event::TimedOut);
    task.step(Event::Disconnected { now: 9 });
    task.step(Event::Ran { flow: ControlFlow::Break });
    assert_eq!(task, before);
}

#[test]
fn only_break_is_a_break() {
    assert!(ControlFlow::BREAK.is_break());
    assert!(!ControlFlow::CONTINUE.is_break());
}
