//! The life of one daemon, as a state machine.
//!
//! A daemon sleeps for an interval, runs, and starts over, until it is cancelled or asks to stop.
//! While it sleeps it listens on a channel. Each state of [`DaemonTask`] has one [`Action`], which
//! whoever drives the machine performs; what came of it goes back in as an [`Event`].
//!
//! Points in time are nanoseconds since some moment that the driver picks once, spans of time are
//! nanoseconds.

use vstd::prelude::*;

use crate::control_flow::ControlFlow;

verus! {

/// A message to a running daemon.
#[derive(Debug, Clone, Copy, PartialEq, Eq, PartialOrd, Ord, Hash, Structural)]
pub enum Msg {
    /// Run now, however much of the interval is left.
    Run,
    /// Stop for good.
    Cancel,
}

/// What the driver of a task has to do next.
#[derive(Debug, Clone, Copy, PartialEq, Eq, Structural)]
pub enum Action {
    /// Ask the daemon for its interval, then read the clock.
    AskInterval,
    /// Read the clock.
    ReadClock,
    /// Wait for a message, but not longer than `time_left`.
    Receive { time_left: u128 },
    /// Sleep for `time_left`, deaf to messages.
    Sleep { time_left: u128 },
    /// Run the daemon.
    Run,
    /// End the task. With `needs_gc`, let the manager know that a daemon is gone.
    Stop { needs_gc: bool },
}

/// What came of an [`Action`].
#[derive(Debug, Clone, Copy, PartialEq, Eq, Structural)]
pub enum Event {
    /// The daemon wants to sleep for `interval`; after it had said so the clock showed `now`.
    Interval { interval: u128, now: u128 },
    /// The clock shows `now`.
    Clock { now: u128 },
    /// A message came in at `now`.
    Message { msg: Msg, now: u128 },
    /// At `now`, nobody is left who could send a message.
    Disconnected { now: u128 },
    /// No message came within the time allowed.
    TimedOut,
    /// The sleep is over.
    Slept,
    /// The daemon has run.
    Ran { flow: ControlFlow },
}

/// Where a task is in its round. Under compensation, `last_run` is when the daemon's last run
/// began, or the start of the task before its first run.
#[derive(Debug, Clone, Copy, PartialEq, Eq, Structural)]
pub enum State {
    /// Between two rounds.
    Asking { last_run: u128 },
    /// Awake since a moment ago, about to see whether `interval` has passed since `since`.
    /// `listened` tells whether the task has listened for messages in this round.
    Checking { last_run: u128, interval: u128, since: u128, listened: bool },
    /// Listening for a message; `time_left` of the interval are still to go.
    Receiving { last_run: u128, interval: u128, since: u128, time_left: u128 },
    /// Sleeping, since nobody can send a message any more; `time_left` of the interval were still
    /// to go.
    Sleeping { last_run: u128, interval: u128, since: u128, time_left: u128 },
    /// The daemon runs.
    Running { last_run: u128 },
    /// The task is over.
    Stopped { needs_gc: bool },
}

/// `a` minus `b`, or nothing at all when `b` is more.
pub open spec fn less(a: u128, b: u128) -> u128 {
    if b <= a {
        (a - b) as u128
    } else {
        0
    }
}

/// How long to wait at `now` when the daemon asked for `interval`: with compensation the time
/// since `last_run` is taken off.
pub open spec fn waiting_time(compensate: bool, interval: u128, last_run: u128, now: u128) -> u128 {
    if compensate {
        less(interval, less(now, last_run))
    } else {
        interval
    }
}

/// The point from which running time counts in a run that begins at `now`. Only a task that
/// compensates keeps track of it.
pub open spec fn woken(compensate: bool, last_run: u128, now: u128) -> u128 {
    if compensate {
        now
    } else {
        last_run
    }
}

impl State {
    /// What the driver has to do in this state.
    pub open spec fn todo(self) -> Action {
        match self {
            State::Asking { .. } => Action::AskInterval,
            State::Checking { .. } => Action::ReadClock,
            State::Receiving { time_left, .. } => Action::Receive { time_left },
            State::Sleeping { time_left, .. } => Action::Sleep { time_left },
            State::Running { .. } => Action::Run,
            State::Stopped { needs_gc } => Action::Stop { needs_gc },
        }
    }

    /// The state after `event`. An event that no action of this state can bring changes nothing.
    pub open spec fn after(self, compensate: bool, event: Event) -> State {
        match (self, event) {
            (State::Asking { last_run }, Event::Interval { interval, now }) => State::Checking {
                last_run,
                interval: waiting_time(compensate, interval, last_run, now),
                since: now,
                listened: false,
            },
            (State::Checking { last_run, interval, since, listened }, Event::Clock { now }) => {
                if !listened || less(now, since) <= interval {
                    State::Receiving {
                        last_run,
                        interval,
                        since,
                        time_left: less(interval, less(now, since)),
                    }
                } else {
                    State::Running { last_run: woken(compensate, last_run, now) }
                }
            },
            (State::Receiving { .. }, Event::Message { msg: Msg::Cancel, .. }) => State::Stopped {
                needs_gc: false,
            },
            (
                State::Receiving { last_run, .. },
                Event::Message { msg: Msg::Run, now },
            ) => State::Running { last_run: woken(compensate, last_run, now) },
            (
                State::Receiving { last_run, interval, since, .. },
                Event::Disconnected { now },
            ) => State::Sleeping {
                last_run,
                interval,
                since,
                time_left: less(interval, less(now, since)),
            },
            (
                State::Receiving { last_run, interval, since, .. },
                Event::TimedOut,
            ) => State::Checking { last_run, interval, since, listened: true },
            (
                State::Sleeping { last_run, interval, since, .. },
                Event::Slept,
            ) => State::Checking { last_run, interval, since, listened: true },
            (State::Running { last_run }, Event::Ran { flow: ControlFlow::Continue }) =>
                State::Asking { last_run },
            (State::Running { .. }, Event::Ran { flow: ControlFlow::Break }) => State::Stopped {
                needs_gc: true,
            },
            _ => self,
        }
    }

    /// The state after a whole history of events.
    pub open spec fn after_all(self, compensate: bool, events: Seq<Event>) -> State
        decreases events.len(),
    {
        if events.len() == 0 {
            self
        } else {
            self.after_all(compensate, events.drop_last()).after(compensate, events.last())
        }
    }
}

/// One daemon's task. With `COMPENSATE`, the time that the daemon spends running is taken off the
/// interval that it asks for.
#[derive(Debug, Clone, Copy, PartialEq, Eq)]
pub struct DaemonTask<const COMPENSATE: bool> {
    state: State,
}

impl<const COMPENSATE: bool> DaemonTask<COMPENSATE> {
    /// The task's state.
    pub closed spec fn state(&self) -> State {
        self.state
    }

    /// A task that starts at `now`.
    pub fn new(now: u128) -> (r: Self)
        ensures
            r.state() == (State::Asking { last_run: now }),
    {
        DaemonTask { state: State::Asking { last_run: now } }
    }

    /// What to do next.
    pub fn action(&self) -> (r: Action)
        ensures
            r == self.state().todo(),
    {
        match self.state {
            State::Asking { .. } => Action::AskInterval,
            State::Checking { .. } => Action::ReadClock,
            State::Receiving { time_left, .. } => Action::Receive { time_left },
            State::Sleeping { time_left, .. } => Action::Sleep { time_left },
            State::Running { .. } => Action::Run,
            State::Stopped { needs_gc } => Action::Stop { needs_gc },
        }
    }

    /// Takes in what came of the last action.
    pub fn step(&mut self, event: Event)
        ensures
            final(self).state() == old(self).state().after(COMPENSATE, event),
    {
        self.state = match (self.state, event) {
            (State::Asking { last_run }, Event::Interval { interval, now }) => {
                let interval: u128 = if COMPENSATE {
                    interval.saturating_sub(now.saturating_sub(last_run))
                } else {
                    interval
                };
                State::Checking { last_run, interval, since: now, listened: false }
            },
            (State::Checking { last_run, interval, since, listened }, Event::Clock { now }) => {
                match interval.checked_sub(now.saturating_sub(since)) {
                    Some(time_left) => State::Receiving { last_run, interval, since, time_left },
                    None => if listened {
                        State::Running { last_run: if COMPENSATE { now } else { last_run } }
                    } else {
                        State::Receiving { last_run, interval, since, time_left: 0 }
                    },
                }
            },
            (State::Receiving { last_run, interval, since, .. }, event) => match event {
                Event::Message { msg: Msg::Cancel, .. } => State::Stopped { needs_gc: false },
                Event::Message { msg: Msg::Run, now } => State::Running {
                    last_run: if COMPENSATE { now } else { last_run },
                },
                Event::Disconnected { now } => State::Sleeping {
                    last_run,
                    interval,
                    since,
                    time_left: interval.saturating_sub(now.saturating_sub(since)),
                },
                Event::TimedOut => State::Checking { last_run, interval, since, listened: true },
                _ => self.state,
            },
            (State::Sleeping { last_run, interval, since, .. }, Event::Slept) => {
                State::Checking { last_run, interval, since, listened: true }
            },
            (State::Running { last_run }, Event::Ran { flow }) => if flow.is_break() {
                State::Stopped { needs_gc: true }
            } else {
                State::Asking { last_run }
            },
            (state, _) => state,
        };
    }
}

/// The reading of the clock that an event carries.
pub open spec fn reading(event: Event) -> Option<u128> {
    match event {
        Event::Interval { now, .. } => Some(now),
        Event::Clock { now } => Some(now),
        Event::Message { now, .. } => Some(now),
        Event::Disconnected { now } => Some(now),
        Event::TimedOut | Event::Slept | Event::Ran { .. } => None,
    }
}

/// Whether the readings in `events` never go back, and none is before `start`.
pub open spec fn clock_goes_on(start: u128, events: Seq<Event>) -> bool {
    &&& forall|i: int| 0 <= i < events.len() ==> match #[trigger] reading(events[i]) {
        Some(now) => start <= now,
        None => true,
    }
    &&& forall|i: int, j: int|
        0 <= i < j < events.len() ==> match (#[trigger] reading(events[i]), #[trigger] reading(
            events[j],
        )) {
            (Some(earlier), Some(later)) => earlier <= later,
            _ => true,
        }
}

/// Whether every point in time that `state` remembers is at most `now`.
pub open spec fn remembers_nothing_after(state: State, now: u128) -> bool {
    match state {
        State::Asking { last_run } | State::Running { last_run } => last_run <= now,
        State::Checking { last_run, since, .. }
        | State::Receiving { last_run, since, .. }
        | State::Sleeping { last_run, since, .. } => last_run <= now && since <= now,
        State::Stopped { .. } => true,
    }
}

/// Whether `state` belongs to the wait of a round that began at `since` and lasts `interval`.
pub open spec fn waits(state: State, wait: u128, from: u128) -> bool {
    match state {
        State::Checking { interval, since, .. }
        | State::Receiving { interval, since, .. }
        | State::Sleeping { interval, since, .. } => interval == wait && since == from,
        _ => false,
    }
}

/// A task that is over stays over, whatever happens.
pub proof fn law_stopped_stays_stopped(compensate: bool, needs_gc: bool, events: Seq<Event>)
    ensures
        (State::Stopped { needs_gc }).after_all(compensate, events) == (State::Stopped {
            needs_gc,
        }),
    decreases events.len(),
{
    if events.len() > 0 {
        law_stopped_stays_stopped(compensate, needs_gc, events.drop_last());
    }
}

/// A daemon that is told to cancel while it listens never runs again, whatever happens after
/// that, and the manager is not bothered about it.
pub proof fn law_cancel_is_final(
    compensate: bool,
    listening: State,
    now: u128,
    later: Seq<Event>,
)
    requires
        listening is Receiving,
    ensures
        listening.after(compensate, Event::Message { msg: Msg::Cancel, now }).after_all(
            compensate,
            later,
        ).todo() == (Action::Stop { needs_gc: false }),
{
    law_stopped_stays_stopped(compensate, false, later);
}

/// A daemon that is told to run while it listens runs next, however much of its interval is left.
pub proof fn law_run_means_now(compensate: bool, listening: State, now: u128)
    requires
        listening is Receiving,
    ensures
        listening.after(compensate, Event::Message { msg: Msg::Run, now }).todo() == Action::Run,
{
}

/// Whether a task in `state` has listened for messages in its round.
pub open spec fn has_listened(state: State) -> bool {
    match state {
        State::Receiving { .. } | State::Sleeping { .. } | State::Running { .. } => true,
        State::Checking { listened, .. } => listened,
        State::Asking { .. } | State::Stopped { .. } => false,
    }
}

/// A daemon listens for messages before each run, however short its interval: no history leads from
/// between two rounds to a run without the task having listened on the way, in the round of that
/// run. After the first `i` of the events it listens, and from there on the round goes on.
pub proof fn law_listens_before_running(
    compensate: bool,
    last_run: u128,
    events: Seq<Event>,
) -> (i: int)
    requires
        (State::Asking { last_run }).after_all(compensate, events) is Running,
    ensures
        0 <= i < events.len(),
        (State::Asking { last_run }).after_all(compensate, events.take(i)) is Receiving,
        forall|j: int|
            i <= j <= events.len() ==> !((State::Asking { last_run }).after_all(
                compensate,
                #[trigger] events.take(j),
            ) is Asking),
{
    let i = lemma_has_listened(compensate, last_run, events);
    assert(events.take(events.len() as int) =~= events);
    i
}

/// A task that has listened in its round did so at some point of the round.
proof fn lemma_has_listened(compensate: bool, last_run: u128, events: Seq<Event>) -> (i: int)
    ensures
        has_listened((State::Asking { last_run }).after_all(compensate, events)) ==> {
            &&& 0 <= i <= events.len()
            &&& (State::Asking { last_run }).after_all(compensate, events.take(i)) is Receiving
            &&& forall|j: int|
                i <= j <= events.len() ==> !((State::Asking { last_run }).after_all(
                    compensate,
                    #[trigger] events.take(j),
                ) is Asking)
        },
    decreases events.len(),
{
    let start = State::Asking { last_run };
    let n = events.len() as int;
    assert(events.take(n) =~= events);
    if n == 0 {
        0
    } else {
        let before = events.drop_last();
        let i = lemma_has_listened(compensate, last_run, before);
        if has_listened(start.after_all(compensate, before)) {
            assert(before.take(i) =~= events.take(i));
            assert forall|j: int|
                i <= j <= n && has_listened(start.after_all(compensate, events)) implies !(
            start.after_all(compensate, #[trigger] events.take(j)) is Asking) by {
                if j < n {
                    assert(before.take(j) =~= events.take(j));
                }
            }
            i
        } else {
            n
        }
    }
}

/// Under compensation, running time is counted from the moment at which the run begins.
pub proof fn law_running_time_counts_from_the_start(state: State, event: Event)
    requires
        !(state is Running),
        state.after(true, event) is Running,
    ensures
        reading(event) matches Some(now) && state.after(true, event) == (State::Running {
            last_run: now,
        }),
{
}

/// To lose the channel does not lengthen the wait: the task sleeps until the interval is over, or
/// not at all if it is over already.
pub proof fn law_losing_the_channel_keeps_the_interval(
    compensate: bool,
    listening: State,
    now: u128,
)
    requires
        listening matches State::Receiving { since, .. } && since <= now,
    ensures
        listening.after(compensate, Event::Disconnected { now }).todo() matches Action::Sleep {
            time_left,
        } && now + time_left == if listening->Receiving_since + listening->Receiving_interval
            <= now {
            now as int
        } else {
            listening->Receiving_since + listening->Receiving_interval
        },
{
}

/// A daemon goes on until it breaks off or is cancelled: a task that is over got there by one of
/// the two, and the manager is told of it exactly when the daemon broke off.
pub proof fn law_only_break_and_cancel_stop(
    compensate: bool,
    start: u128,
    events: Seq<Event>,
) -> (i: int)
    requires
        (State::Asking { last_run: start }).after_all(compensate, events) is Stopped,
    ensures
        0 <= i < events.len(),
        (State::Asking { last_run: start }).after_all(compensate, events) == (State::Stopped {
            needs_gc: true,
        }) ==> events[i] == (Event::Ran { flow: ControlFlow::Break }) && (State::Asking {
            last_run: start,
        }).after_all(compensate, events.take(i)) is Running,
        (State::Asking { last_run: start }).after_all(compensate, events) == (State::Stopped {
            needs_gc: false,
        }) ==> (events[i] matches Event::Message { msg: Msg::Cancel, .. }) && (State::Asking {
            last_run: start,
        }).after_all(compensate, events.take(i)) is Receiving,
    decreases events.len(),
{
    let before = events.drop_last();
    if (State::Asking { last_run: start }).after_all(compensate, before) is Stopped {
        let i = law_only_break_and_cancel_stop(compensate, start, before);
        assert(before.take(i) =~= events.take(i));
        i
    } else {
        assert(events.take(events.len() - 1) =~= before);
        events.len() - 1
    }
}

/// A daemon that is not told to run waits out its interval: when it runs, the clock has shown a
/// time more than the waiting time after the wait began.
pub proof fn law_waits_out_the_interval(
    compensate: bool,
    last_run: u128,
    interval: u128,
    now: u128,
    events: Seq<Event>,
) -> (i: int)
    requires
        forall|i: int|
            0 <= i < events.len() ==> !(#[trigger] events[i] matches Event::Message {
                msg: Msg::Run,
                ..
            }),
        (State::Asking { last_run }).after(
            compensate,
            Event::Interval { interval, now },
        ).after_all(compensate, events) is Running,
    ensures
        0 <= i < events.len(),
        events[i] matches Event::Clock { now: t } && t > now + waiting_time(
            compensate,
            interval,
            last_run,
            now,
        ),
{
    let first = (State::Asking { last_run }).after(compensate, Event::Interval { interval, now });
    lemma_run_ends_the_wait(
        compensate,
        first,
        waiting_time(compensate, interval, last_run, now),
        now,
        events,
    )
}

/// The first state of a round that is no longer waiting comes of a reading after the wait's end,
/// or of a cancellation.
proof fn lemma_run_ends_the_wait(
    compensate: bool,
    first: State,
    wait: u128,
    from: u128,
    events: Seq<Event>,
) -> (i: int)
    requires
        waits(first, wait, from),
        forall|i: int|
            0 <= i < events.len() ==> !(#[trigger] events[i] matches Event::Message {
                msg: Msg::Run,
                ..
            }),
    ensures
        waits(first.after_all(compensate, events), wait, from) || first.after_all(
            compensate,
            events,
        ) == (State::Stopped { needs_gc: false }) || {
            &&& 0 <= i < events.len()
            &&& events[i] matches Event::Clock { now: t }
            &&& t > from + wait
        },
    decreases events.len(),
{
    if events.len() == 0 {
        0
    } else {
        let before = events.drop_last();
        let i = lemma_run_ends_the_wait(compensate, first, wait, from, before);
        assert(events.last() == events[events.len() - 1]);
        if waits(first.after_all(compensate, before), wait, from) || first.after_all(
            compensate,
            before,
        ) == (State::Stopped { needs_gc: false }) {
            events.len() - 1
        } else {
            i
        }
    }
}

/// With compensation, runs are an interval apart however long they take: of the interval that the
/// daemon asks for after a run that began at `began`, only the time since then is taken off, so that
/// the wait which begins at `now` ends an interval after `began`, or at once if that is over already.
pub proof fn law_compensation_keeps_the_pace(began: u128, interval: u128, now: u128)
    requires
        began <= now,
    ensures
        ({
            let wait = waiting_time(true, interval, began, now);
            &&& (State::Running { last_run: began }).after(
                true,
                Event::Ran { flow: ControlFlow::Continue },
            ).after(true, Event::Interval { interval, now }) == (State::Checking {
                last_run: began,
                interval: wait,
                since: now,
                listened: false,
            })
            &&& now + wait == if began + interval <= now {
                now as int
            } else {
                began + interval
            }
        }),
{
}

/// Under a clock that never goes back, a task never remembers a time that is still to come.
pub proof fn law_no_memory_of_the_future(
    compensate: bool,
    start: u128,
    events: Seq<Event>,
    now: u128,
)
    requires
        clock_goes_on(start, events.push(Event::Clock { now })),
    ensures
        remembers_nothing_after(
            (State::Asking { last_run: start }).after_all(compensate, events),
            now,
        ),
    decreases events.len(),
{
    let all = events.push(Event::Clock { now });
    assert(reading(all[events.len() as int]) == Some(now));
    if events.len() > 0 {
        let before = events.drop_last();
        let until = before.push(Event::Clock { now });
        assert forall|i: int| 0 <= i < until.len() implies match #[trigger] reading(until[i]) {
            Some(t) => start <= t,
            None => true,
        } by {
            assert(until[i] == if i < before.len() {
                all[i]
            } else {
                all[events.len() as int]
            });
        }
        assert forall|i: int, j: int| 0 <= i < j < until.len() implies match (
            #[trigger] reading(until[i]),
            #[trigger] reading(until[j]),
        ) {
            (Some(earlier), Some(later)) => earlier <= later,
            _ => true,
        } by {
            let k = if j < before.len() {
                j
            } else {
                events.len() as int
            };
            assert(until[i] == all[i]);
            assert(until[j] == all[k]);
        }
        law_no_memory_of_the_future(compensate, start, before, now);
        assert(events.last() == all[events.len() - 1]);
        assert(reading(events.last()) == reading(all[events.len() - 1]));
    }
}

/// A daemon that does not compensate and is not told to run waits for the very interval that it
/// asked for: when it runs, the clock has shown a time more than `interval` after `now`, when it had
/// asked.
pub proof fn law_never_runs_early(
    last_run: u128,
    interval: u128,
    now: u128,
    events: Seq<Event>,
) -> (i: int)
    requires
        forall|i: int|
            0 <= i < events.len() ==> !(#[trigger] events[i] matches Event::Message {
                msg: Msg::Run,
                ..
            }),
        (State::Asking { last_run }).after(
            false,
            Event::Interval { interval, now },
        ).after_all(false, events) is Running,
    ensures
        0 <= i < events.len(),
        events[i] matches Event::Clock { now: t } && t > now + interval,
{
    law_waits_out_the_interval(false, last_run, interval, now, events)
}

/// A daemon that compensates and is not told to run does not run before an interval has passed since
/// `last_run`, and not before the wait began.
pub proof fn law_never_runs_early_with_compensation(
    last_run: u128,
    interval: u128,
    now: u128,
    events: Seq<Event>,
) -> (i: int)
    requires
        last_run <= now,
        forall|i: int|
            0 <= i < events.len() ==> !(#[trigger] events[i] matches Event::Message {
                msg: Msg::Run,
                ..
            }),
        (State::Asking { last_run }).after(
            true,
            Event::Interval { interval, now },
        ).after_all(true, events) is Running,
    ensures
        0 <= i < events.len(),
        events[i] matches Event::Clock { now: t } && t > now && t > last_run + interval,
{
    law_waits_out_the_interval(true, last_run, interval, now, events)
}

/// Within a round, a daemon listens exactly until its wait is over, and runs as soon as the clock
/// shows that it is.
///
/// The wait that begins at `now` is over at `due`: an interval after `now`, or, with compensation, an
/// interval after `last_run`, but not before `now`. Whatever happened in the round so far, a reading
/// of the clock at `t` makes the daemon run if `t` is past `due` and the daemon has listened in this
/// round, and otherwise makes it listen for what is left until `due`. If the channel is lost at `t`,
/// it sleeps for what is left until `due`.
pub proof fn law_listens_until_the_wait_is_over(
    compensate: bool,
    last_run: u128,
    interval: u128,
    now: u128,
    events: Seq<Event>,
    t: u128,
)
    requires
        last_run <= now <= t,
        forall|i: int|
            0 <= i < events.len() ==> !(#[trigger] events[i] is Ran) && !(events[i] is Interval),
    ensures
        ({
            let first = (State::Asking { last_run }).after(
                compensate,
                Event::Interval { interval, now },
            );
            let s = first.after_all(compensate, events);
            let due: int = if !compensate {
                now + interval
            } else if last_run + interval > now {
                last_run + interval
            } else {
                now as int
            };
            let left: int = if t < due {
                due - t
            } else {
                0
            };
            let listened = exists|i: int|
                0 <= i <= events.len() && first.after_all(
                    compensate,
                    #[trigger] events.take(i),
                ) is Receiving;
            &&& s.todo() != Action::AskInterval
            &&& s.todo() is ReadClock ==> s.after(compensate, Event::Clock { now: t }).todo()
                == if t > due && listened {
                Action::Run
            } else {
                Action::Receive { time_left: left as u128 }
            }
            &&& s.todo() is Receive ==> s.after(
                compensate,
                Event::Disconnected { now: t },
            ).todo() == (Action::Sleep { time_left: left as u128 })
        }),
{
    let first = (State::Asking { last_run }).after(compensate, Event::Interval { interval, now });
    lemma_in_a_round(
        compensate,
        first,
        waiting_time(compensate, interval, last_run, now),
        now,
        events,
    );
}

/// Where a task can be in a round, and whether it has listened in it.
proof fn lemma_in_a_round(
    compensate: bool,
    first: State,
    wait: u128,
    from: u128,
    events: Seq<Event>,
)
    requires
        waits(first, wait, from),
        first matches State::Checking { listened: false, .. },
        forall|i: int|
            0 <= i < events.len() ==> !(#[trigger] events[i] is Ran) && !(events[i] is Interval),
    ensures
        ({
            let s = first.after_all(compensate, events);
            let ever = exists|i: int|
                0 <= i <= events.len() && first.after_all(
                    compensate,
                    #[trigger] events.take(i),
                ) is Receiving;
            &&& waits(s, wait, from) || s is Running || s is Stopped
            &&& s matches State::Checking { listened, .. } ==> listened == ever
            &&& s is Receiving ==> ever
            &&& s is Sleeping ==> ever
        }),
    decreases events.len(),
{
    let n = events.len() as int;
    assert(events.take(n) =~= events);
    if n > 0 {
        let before = events.drop_last();
        assert(events.last() == events[n - 1]);
        lemma_in_a_round(compensate, first, wait, from, before);
        assert forall|i: int| 0 <= i < n implies #[trigger] events.take(i) =~= before.take(i) by {
        }
        assert forall|i: int| 0 <= i < n implies #[trigger] before.take(i) =~= events.take(i) by {
        }
    }
}

/// What happened makes the daemon go on to the next thing to do, in every state: after an answer the
/// clock is read, unless the answer says to run or to stop; a run is followed by the next round or
/// by the end. Anything that is not an answer to what was to be done changes nothing.
pub proof fn law_one_thing_follows_another(compensate: bool, s: State, event: Event)
    ensures
        ({
            let after = s.after(compensate, event);
            match (s.todo(), event) {
                (Action::AskInterval, Event::Interval { .. }) => after.todo() is ReadClock,
                (Action::ReadClock, Event::Clock { .. }) => after.todo() is Receive
                    || after.todo() is Run,
                (Action::Receive { .. }, Event::Message { msg: Msg::Run, .. }) => after.todo()
                    is Run,
                (Action::Receive { .. }, Event::Message { msg: Msg::Cancel, .. }) => after.todo()
                    == (Action::Stop { needs_gc: false }),
                (Action::Receive { .. }, Event::TimedOut) => after.todo() is ReadClock,
                (Action::Receive { .. }, Event::Disconnected { .. }) => after.todo() is Sleep,
                (Action::Sleep { .. }, Event::Slept) => after.todo() is ReadClock,
                (Action::Run, Event::Ran { flow: ControlFlow::Continue }) => after.todo()
                    is AskInterval,
                (Action::Run, Event::Ran { flow: ControlFlow::Break }) => after.todo() == (
                Action::Stop { needs_gc: true }),
                _ => after == s,
            }
        }),
{
}

/// Two runs are an interval apart. A run begins at `began`, when `event` makes the daemon run; the
/// daemon then asks for `interval`, at `now`, and the clock shows `t`. With compensation the daemon
/// listens until an interval after `began`, however long the run took; without, until an interval
/// after `now`.
pub proof fn law_runs_are_an_interval_apart(
    compensate: bool,
    s: State,
    event: Event,
    began: u128,
    interval: u128,
    now: u128,
    t: u128,
)
    requires
        !(s is Running),
        s.after(compensate, event) is Running,
        event == (Event::Clock { now: began }) || event == (Event::Message {
            msg: Msg::Run,
            now: began,
        }),
        began <= now <= t,
    ensures
        s.after(compensate, event).after(
            compensate,
            Event::Ran { flow: ControlFlow::Continue },
        ).after(compensate, Event::Interval { interval, now }).after(
            compensate,
            Event::Clock { now: t },
        ).todo() matches Action::Receive { time_left } && time_left == {
            let due: int = if !compensate {
                now + interval
            } else if began + interval > now {
                began + interval
            } else {
                now as int
            };
            if t < due {
                due - t
            } else {
                0
            }
        },
{
}

/// Only a reading of the clock or a message to run makes a daemon run.
pub proof fn law_what_makes_a_daemon_run(compensate: bool, s: State, event: Event)
    requires
        !(s is Running),
        s.after(compensate, event) is Running,
    ensures
        event is Clock || (event matches Event::Message { msg: Msg::Run, .. }),
{
}

/// A new task begins with a round, in which running time counts from its start.
pub proof fn law_a_new_task_waits_first<const COMPENSATE: bool>(
    start: u128,
    task: DaemonTask<COMPENSATE>,
    interval: u128,
    now: u128,
    t: u128,
)
    requires
        call_ensures(DaemonTask::<COMPENSATE>::new, (start,), task),
        start <= now <= t,
    ensures
        task.state().todo() is AskInterval,
        task.state().after(COMPENSATE, Event::Interval { interval, now }).after(
            COMPENSATE,
            Event::Clock { now: t },
        ).todo() matches Action::Receive { time_left } && time_left == {
            let due: int = if !COMPENSATE {
                now + interval
            } else if start + interval > now {
                start + interval
            } else {
                now as int
            };
            if t < due {
                due - t
            } else {
                0
            }
        },
{
}

/// Whether two states differ in nothing but when the last run began.
spec fn alike(a: State, b: State) -> bool {
    match (a, b) {
        (State::Asking { .. }, State::Asking { .. }) => true,
        (
            State::Checking { interval, since, listened, .. },
            State::Checking { interval: i, since: s, listened: l, .. },
        ) => interval == i && since == s && listened == l,
        (
            State::Receiving { interval, since, time_left, .. },
            State::Receiving { interval: i, since: s, time_left: t, .. },
        ) => interval == i && since == s && time_left == t,
        (
            State::Sleeping { interval, since, time_left, .. },
            State::Sleeping { interval: i, since: s, time_left: t, .. },
        ) => interval == i && since == s && time_left == t,
        (State::Running { .. }, State::Running { .. }) => true,
        (State::Stopped { needs_gc }, State::Stopped { needs_gc: n }) => needs_gc == n,
        _ => false,
    }
}

/// Without compensation, when a daemon ran before makes no difference to what its task does.
pub proof fn law_without_compensation_the_past_does_not_count(
    a: u128,
    b: u128,
    events: Seq<Event>,
)
    ensures
        (State::Asking { last_run: a }).after_all(false, events).todo() == (State::Asking {
            last_run: b,
        }).after_all(false, events).todo(),
{
    lemma_alike(a, b, events);
}

/// Without compensation, tasks that began at different times stay alike.
proof fn lemma_alike(a: u128, b: u128, events: Seq<Event>)
    ensures
        alike(
            (State::Asking { last_run: a }).after_all(false, events),
            (State::Asking { last_run: b }).after_all(false, events),
        ),
    decreases events.len(),
{
    if events.len() > 0 {
        lemma_alike(a, b, events.drop_last());
    }
}

/// A task does what was said above of its states: what is to be done, and what an event leads to,
/// are what [`DaemonTask::action`] says and [`DaemonTask::step`] does.
pub proof fn law_a_task_follows_its_states<const COMPENSATE: bool>(
    task: &mut DaemonTask<COMPENSATE>,
    event: Event,
    action: Action,
)
    requires
        call_ensures(DaemonTask::<COMPENSATE>::action, (&mut_ref_current(task),), action),
        call_ensures(DaemonTask::<COMPENSATE>::step, (task, event), ()),
    ensures
        action == mut_ref_current(task).state().todo(),
        mut_ref_future(task).state() == mut_ref_current(task).state().after(COMPENSATE, event),
{
}

/// A clock that goes back neither shortens nor lengthens a wait: where it shows a time before the one
/// at which the wait began, all of the wait is left; and with compensation, where the wait begins
/// before `last_run`, nothing is taken off.
pub proof fn law_a_clock_that_goes_back(
    compensate: bool,
    last_run: u128,
    interval: u128,
    now: u128,
    events: Seq<Event>,
    t: u128,
)
    requires
        t <= now,
        forall|i: int|
            0 <= i < events.len() ==> !(#[trigger] events[i] is Ran) && !(events[i] is Interval),
    ensures
        ({
            let s = (State::Asking { last_run }).after(
                compensate,
                Event::Interval { interval, now },
            ).after_all(compensate, events);
            let wait: int = if !compensate || now <= last_run {
                interval as int
            } else if last_run + interval > now {
                last_run + interval - now
            } else {
                0
            };
            &&& s.todo() is ReadClock ==> s.after(compensate, Event::Clock { now: t }).todo() == (
            Action::Receive { time_left: wait as u128 })
            &&& s.todo() is Receive ==> s.after(
                compensate,
                Event::Disconnected { now: t },
            ).todo() == (Action::Sleep { time_left: wait as u128 })
        }),
{
    let first = (State::Asking { last_run }).after(compensate, Event::Interval { interval, now });
    lemma_in_a_round(
        compensate,
        first,
        waiting_time(compensate, interval, last_run, now),
        now,
        events,
    );
}

} // verus!
