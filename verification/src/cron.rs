//! Cron jobs: daemons that run once a day, at a fixed time, and never end of their own accord.
//!
//! All times are UTC. A point in time is a [`DateTime`], a span of time is in nanoseconds.

use vstd::prelude::*;

use std::future::Future;
use std::marker::PhantomData;

use crate::control_flow::ControlFlow;

verus! {

/// Nanoseconds in a second.
pub const SECOND: u128 = 1_000_000_000;

/// Seconds in a day.
pub const SECONDS_PER_DAY: u32 = 86_400;

/// Nanoseconds in a day.
pub const DAY: u128 = 86_400_000_000_000;

/// The first day that the calendar knows.
pub const FIRST_DAY: i32 = -95_746_129;

/// The last day that the calendar knows.
pub const LAST_DAY: i32 = 95_745_399;

/// A date and a time of day.
#[derive(Debug, Clone, Copy, PartialEq, Eq, Structural)]
pub struct DateTime {
    /// The day, counted from January 1 of the year 1, which is day 1.
    pub day: i32,
    /// Seconds since midnight.
    pub secs: u32,
    /// Nanoseconds since the start of the second. From a full second on, they are in the leap
    /// second that follows it.
    pub nanos: u32,
}

impl DateTime {
    /// Whether this is a time that there is. Leap seconds come at the end of a minute.
    pub open spec fn wf(self) -> bool {
        &&& FIRST_DAY <= self.day <= LAST_DAY
        &&& self.secs < SECONDS_PER_DAY
        &&& self.nanos < 2 * SECOND
        &&& self.nanos >= SECOND ==> self.secs % 60 == 59
    }

    /// Whether this is within a leap second.
    pub open spec fn leap(self) -> bool {
        self.nanos >= SECOND
    }

    /// Whether `self` is later than `other`.
    pub open spec fn later_than(self, other: DateTime) -> bool {
        ||| self.day > other.day
        ||| self.day == other.day && self.secs > other.secs
        ||| self.day == other.day && self.secs == other.secs && self.nanos > other.nanos
    }

    /// Nanoseconds since the midnight before day 0.
    pub open spec fn instant(self) -> int {
        self.day * DAY + self.secs * SECOND + self.nanos
    }

    /// Nanoseconds from `other` to `self`, negative if `other` is later. A leap second counts where
    /// the later time of day comes after it, whatever the dates.
    pub open spec fn minus(self, other: DateTime) -> int {
        self.instant() - other.instant() + if self.secs > other.secs && other.leap() {
            SECOND as int
        } else if self.secs < other.secs && self.leap() {
            -SECOND
        } else {
            0
        }
    }

    /// Whether `self` is later than `other`.
    pub fn is_later_than(&self, other: &DateTime) -> (r: bool)
        ensures
            r == self.later_than(*other),
    {
        self.day > other.day || (self.day == other.day && (self.secs > other.secs || (self.secs
            == other.secs && self.nanos > other.nanos)))
    }
}

/// `chrono::Utc::now`: what the clock shows. Of the answer no more is claimed than that it is a
/// time there is, not before 1970 and not within a leap second. chrono panics where the machine's
/// clock is set to a time before 1970, or to one past the end of the calendar.
#[verifier::external_body]
fn utc_now() -> (r: DateTime)
    ensures
        r.wf(),
        !r.leap(),
        r.day >= 719_163,
{
    let now = chrono::Utc::now().naive_utc();
    DateTime {
        day: chrono::Datelike::num_days_from_ce(&now),
        secs: chrono::Timelike::num_seconds_from_midnight(&now),
        nanos: chrono::Timelike::nanosecond(&now),
    }
}

/// Whether the clock may have shown `now` when it was read: whether [`utc_now`] may have returned
/// it.
pub closed spec fn clock_showed(now: DateTime) -> bool {
    call_ensures(utc_now, (), now)
}

/// Whether an hour, a minute and a second make up a time of day.
pub open spec fn valid_time(hour: u32, minute: u32, second: u32) -> bool {
    hour < 24 && minute < 60 && second < 60
}

/// The seconds from midnight to a time of day.
pub open spec fn seconds_from_midnight(hour: u32, minute: u32, second: u32) -> int {
    hour * 3600 + minute * 60 + second
}

/// `chrono::NaiveTime::from_hms_opt`: the seconds from midnight to a time of day, or nothing if
/// there is no such time.
#[verifier::external_body]
fn from_hms_opt(hour: u32, minute: u32, second: u32) -> (r: Option<u32>)
    ensures
        r is Some == valid_time(hour, minute, second),
        r matches Some(secs) ==> secs == seconds_from_midnight(hour, minute, second),
{
    chrono::NaiveTime::from_hms_opt(hour, minute, second).map(
        |time| chrono::Timelike::num_seconds_from_midnight(&time),
    )
}

/// `chrono::NaiveDate::succ_opt`: the day after, or nothing after the last day.
#[verifier::external_body]
fn succ_opt(day: i32) -> (r: Option<i32>)
    requires
        FIRST_DAY <= day <= LAST_DAY,
    ensures
        r is Some == (day < LAST_DAY),
        r matches Some(next) ==> next == day + 1,
{
    chrono::NaiveDate::from_num_days_from_ce_opt(day).unwrap().succ_opt().map(
        |date| chrono::Datelike::num_days_from_ce(&date),
    )
}

/// `chrono::NaiveDateTime`'s `-` followed by `chrono::TimeDelta::to_std`: the nanoseconds from
/// `from` to `to`, or nothing if they are negative.
#[verifier::external_body]
fn nanos_between(from: &DateTime, to: &DateTime) -> (r: Option<u128>)
    requires
        from.wf(),
        to.wf(),
    ensures
        r is Some == (to.minus(*from) >= 0),
        r matches Some(nanos) ==> nanos == to.minus(*from),
{
    let naive = |t: &DateTime| chrono::NaiveDateTime::new(
        chrono::NaiveDate::from_num_days_from_ce_opt(t.day).unwrap(),
        chrono::NaiveTime::from_num_seconds_from_midnight_opt(t.secs, t.nanos).unwrap(),
    );
    (naive(to) - naive(from)).to_std().ok().map(|duration| duration.as_nanos())
}

/// The time of day `secs` on the day of `now`, or on the day after if that is past.
pub open spec fn next_at(now: DateTime, secs: int) -> DateTime {
    let today = DateTime { day: now.day, secs: secs as u32, nanos: 0 };
    if now.later_than(today) {
        DateTime { day: (now.day + 1) as i32, ..today }
    } else {
        today
    }
}

/// The nanoseconds from `now` to the next time that it is `secs` seconds past midnight.
pub open spec fn nanos_until(now: DateTime, secs: int) -> nat {
    let nanos = next_at(now, secs).minus(now);
    if nanos >= 0 {
        nanos as nat
    } else {
        0
    }
}

/// How long to wait at `now` until it is `secs` seconds past midnight, or nothing if the calendar
/// ends before that.
pub open spec fn wait_at(now: DateTime, secs: int) -> Option<u128> {
    if next_at(now, secs).day <= LAST_DAY {
        Some(nanos_until(now, secs) as u128)
    } else {
        None
    }
}

/// A cron job: a daemon that runs every day at hour `H`, minute `M` and second `S`.
///
/// - `F`: the routine to run.
/// - `Fut`: the future that the routine returns.
/// - `T`: the data that the routine is given.
#[verifier::reject_recursive_types(Fut)]
#[verifier::reject_recursive_types(T)]
pub struct Cron<F, Fut, T, const H: u32, const M: u32, const S: u32> where
    F: FnMut(&T) -> Fut,
    Fut: Future<Output = ControlFlow>,
 {
    name: String,
    run: F,
    _marker: PhantomData<T>,
}

impl<F, Fut, T, const H: u32, const M: u32, const S: u32> Cron<F, Fut, T, H, M, S> where
    F: FnMut(&T) -> Fut,
    Fut: Future<Output = ControlFlow>,
 {
    /// The job's name.
    pub closed spec fn spec_name(&self) -> Seq<char> {
        self.name@
    }

    /// The routine to run.
    pub closed spec fn spec_run(&self) -> F {
        self.run
    }

    /// A job that runs `run`, under the name that `name` is converted to.
    pub fn new<N: Into<String>>(name: N, run: F) -> (r: Self)
        ensures
            exists|text: String| #[trigger]
                call_ensures(N::into, (name,), text) && r.spec_name() == text@,
            r.spec_run() == run,
    {
        Cron { name: name.into(), run, _marker: PhantomData }
    }

    /// The job's name.
    pub fn name(&self) -> (r: String)
        ensures
            r@ == self.spec_name(),
    {
        self.name.clone()
    }

    /// Starts the routine on `data`: the future that it returns is one run of the job.
    pub fn run(&mut self, data: &T) -> (r: Fut)
        requires
            call_requires(old(self).spec_run(), (data,)),
        ensures
            call_ensures(old(self).spec_run(), (data,), r),
            final(self).spec_name() == old(self).spec_name(),
    {
        (self.run)(data)
    }

    /// What the job answers at the end of a run, where its routine answered `flow`: a job goes on
    /// whatever the routine says.
    pub fn ran(&self, flow: ControlFlow) -> (r: ControlFlow)
        ensures
            r is Continue,
    {
        match flow {
            ControlFlow::Continue | ControlFlow::Break => ControlFlow::Continue,
        }
    }

    /// How long to wait at `now` until the job is due, or nothing if the calendar ends before that.
    pub fn interval_at(&self, now: &DateTime) -> (r: Option<u128>)
        requires
            valid_time(H, M, S),
            now.wf(),
        ensures
            r == wait_at(*now, seconds_from_midnight(H, M, S)),
    {
        let secs: u32 = from_hms_opt(H, M, S).unwrap();
        let mut target = DateTime { day: now.day, secs, nanos: 0 };
        if now.is_later_than(&target) {
            match succ_opt(target.day) {
                Some(day) => {
                    target.day = day;
                },
                None => {
                    return None;
                },
            }
        }
        match nanos_between(now, &target) {
            Some(nanos) => Some(nanos),
            None => Some(0),
        }
    }

    /// How long to wait from now on until the job is due, or nothing if the calendar ends before
    /// that.
    pub fn interval(&self) -> (r: Option<u128>)
        requires
            valid_time(H, M, S),
        ensures
            exists|now: DateTime| #[trigger]
                clock_showed(now) && now.wf() && !now.leap() && r == wait_at(
                    now,
                    seconds_from_midnight(H, M, S),
                ),
    {
        let now = utc_now();
        assert(clock_showed(now));
        self.interval_at(&now)
    }
}

/// A job never waits for a whole day.
pub proof fn law_waits_less_than_a_day(now: DateTime, hour: u32, minute: u32, second: u32)
    requires
        now.wf(),
        valid_time(hour, minute, second),
    ensures
        nanos_until(now, seconds_from_midnight(hour, minute, second)) < DAY,
{
}

/// A job runs at its time of day, and does not miss a day: outside of leap seconds, the wait that
/// starts at `now` ends the first time that the time of day comes round.
pub proof fn law_ends_at_the_time_of_day(
    now: DateTime,
    hour: u32,
    minute: u32,
    second: u32,
    t: int,
)
    requires
        now.wf(),
        !now.leap(),
        valid_time(hour, minute, second),
    ensures
        ({
            let secs = seconds_from_midnight(hour, minute, second);
            let due = now.instant() + nanos_until(now, secs);
            &&& due % (DAY as int) == secs * SECOND
            &&& now.instant() <= t < due ==> t % (DAY as int) != secs * SECOND
        }),
{
    let secs = seconds_from_midnight(hour, minute, second);
    let due = now.instant() + nanos_until(now, secs);
    let target = next_at(now, secs);
    assert(0 <= secs < SECONDS_PER_DAY);
    lemma_wait_outside_of_leap_seconds(now, secs);
    lemma_once_a_day(target.day as int, secs * SECOND, t);
}

/// Outside of leap seconds, the wait ends at the next time that it is `secs` seconds past midnight,
/// and lasts less than a day.
proof fn lemma_wait_outside_of_leap_seconds(now: DateTime, secs: int)
    requires
        now.wf(),
        !now.leap(),
        0 <= secs < SECONDS_PER_DAY,
    ensures
        now.instant() + nanos_until(now, secs) == next_at(now, secs).day * DAY + secs * SECOND,
        nanos_until(now, secs) < DAY,
{
    let target = next_at(now, secs);
    assert(target.secs == secs && target.nanos == 0);
    assert(target.instant() == target.day * DAY + secs * SECOND);
    assert(target.minus(now) == target.instant() - now.instant());
    if now.later_than(DateTime { day: now.day, secs: secs as u32, nanos: 0 }) {
        assert(target.day == now.day + 1);
        assert(target.day * DAY == now.day * DAY + DAY);
        assert(secs * SECOND < now.secs * SECOND + now.nanos);
    } else {
        assert(target.day == now.day);
        assert(secs * SECOND >= now.secs * SECOND + now.nanos);
    }
}

/// A time of day comes once a day.
proof fn lemma_once_a_day(day: int, time: int, t: int)
    requires
        0 <= time < DAY,
    ensures
        (day * DAY + time) % (DAY as int) == time,
        day * DAY + time - DAY < t < day * DAY + time ==> t % (DAY as int) != time,
{
    let due = day * DAY + time;
    vstd::arithmetic::div_mod::lemma_fundamental_div_mod_converse(due, DAY as int, day, time);
    vstd::arithmetic::div_mod::lemma_fundamental_div_mod(t, DAY as int);
}

/// A job never ends of its own accord: a task whose daemon answers every run with `Continue`, as
/// [`Cron::ran`] does, is over only if it was cancelled.
pub proof fn law_only_cancellation_ends_a_job(
    compensate: bool,
    start: u128,
    events: Seq<crate::task::Event>,
)
    requires
        forall|i: int|
            0 <= i < events.len() ==> (#[trigger] events[i] matches crate::task::Event::Ran { flow }
                ==> flow is Continue),
        (crate::task::State::Asking { last_run: start }).after_all(
            compensate,
            events,
        ) is Stopped,
    ensures
        exists|i: int|
            0 <= i < events.len() && (#[trigger] events[i] matches crate::task::Event::Message {
                msg: crate::task::Msg::Cancel,
                ..
            }),
{
    let i = crate::task::law_only_break_and_cancel_stop(compensate, start, events);
    assert(events[i] matches crate::task::Event::Ran { flow } ==> flow is Continue);
}

/// What [`Cron::interval_at`] returns is the time until the job's time of day comes round, to the
/// nanosecond: outside of leap seconds, counting nanoseconds from midnight, the wait ends `H` hours,
/// `M` minutes and `S` seconds into a day, and at no moment before that is it that time of day.
pub proof fn law_interval_at_ends_at_the_time_of_day<
    F,
    Fut,
    T,
    const H: u32,
    const M: u32,
    const S: u32,
>(job: Cron<F, Fut, T, H, M, S>, now: DateTime, r: Option<u128>, t: int) where
    F: FnMut(&T) -> Fut,
    Fut: Future<Output = ControlFlow>,

    requires
        H < 24,
        M < 60,
        S < 60,
        now.wf(),
        now.nanos < 1_000_000_000,
        call_ensures(Cron::<F, Fut, T, H, M, S>::interval_at, (&job, &now), r),
    ensures
        ({
            let day: int = 86_400_000_000_000;
            let start = now.day * 86_400_000_000_000 + now.secs * 1_000_000_000 + now.nanos;
            let time = (H * 3600 + M * 60 + S) * 1_000_000_000;
            r matches Some(nanos) ==> {
                &&& (start + nanos) % day == time
                &&& start <= t < start + nanos ==> t % day != time
            }
        }),
{
    law_ends_at_the_time_of_day(now, H, M, S, t);
}

/// There is no time to wait for exactly if it is the calendar's last day and the job's time of day
/// is past, within leap seconds too.
pub proof fn law_only_the_end_of_the_calendar_has_no_wait<
    F,
    Fut,
    T,
    const H: u32,
    const M: u32,
    const S: u32,
>(job: Cron<F, Fut, T, H, M, S>, now: DateTime, r: Option<u128>) where
    F: FnMut(&T) -> Fut,
    Fut: Future<Output = ControlFlow>,

    requires
        H < 24,
        M < 60,
        S < 60,
        now.wf(),
        call_ensures(Cron::<F, Fut, T, H, M, S>::interval_at, (&job, &now), r),
    ensures
        r is None <==> now.day == 95_745_399 && now.secs * 1_000_000_000 + now.nanos > (H * 3600 + M
            * 60 + S) * 1_000_000_000 && now.secs >= H * 3600 + M * 60 + S,
{
}

/// A leap second is waited through where the job is due later that day. Where it is due on the day
/// after, the leap second does not count, and a wait that it would make negative is none.
pub proof fn law_leap_seconds_count_on_the_same_day<
    F,
    Fut,
    T,
    const H: u32,
    const M: u32,
    const S: u32,
>(job: Cron<F, Fut, T, H, M, S>, now: DateTime, r: Option<u128>) where
    F: FnMut(&T) -> Fut,
    Fut: Future<Output = ControlFlow>,

    requires
        H < 24,
        M < 60,
        S < 60,
        now.wf(),
        now.nanos >= 1_000_000_000,
        call_ensures(Cron::<F, Fut, T, H, M, S>::interval_at, (&job, &now), r),
    ensures
        ({
            let secs = H * 3600 + M * 60 + S;
            let apart = (secs - now.secs) * 1_000_000_000 - now.nanos;
            r matches Some(nanos) ==> nanos == if secs > now.secs {
                apart + 1_000_000_000
            } else if apart + 86_400_000_000_000 > 0 {
                apart + 86_400_000_000_000
            } else {
                0
            }
        }),
{
}

/// The later it gets on the way to a job's time of day, the shorter the wait, by just as much: two
/// waits at times of one day end at the same moment, unless the job is due between the two.
pub proof fn law_waits_end_together<F, Fut, T, const H: u32, const M: u32, const S: u32>(
    job: Cron<F, Fut, T, H, M, S>,
    earlier: DateTime,
    later: DateTime,
    a: u128,
    b: u128,
) where F: FnMut(&T) -> Fut, Fut: Future<Output = ControlFlow>,
    requires
        H < 24,
        M < 60,
        S < 60,
        earlier.wf(),
        later.wf(),
        earlier.nanos < 1_000_000_000,
        later.nanos < 1_000_000_000,
        earlier.day == later.day,
        call_ensures(Cron::<F, Fut, T, H, M, S>::interval_at, (&job, &earlier), Some(a)),
        call_ensures(Cron::<F, Fut, T, H, M, S>::interval_at, (&job, &later), Some(b)),
        earlier.secs * 1_000_000_000 + earlier.nanos <= later.secs * 1_000_000_000 + later.nanos,
    ensures
        ({
            let start = earlier.secs * 1_000_000_000 + earlier.nanos;
            let end = later.secs * 1_000_000_000 + later.nanos;
            if end <= start + a {
                start + a == end + b
            } else {
                start + a + 86_400_000_000_000 == end + b
            }
        }),
{
}

/// What [`Cron::interval`] returns is the time from what the clock showed until the job's time of day
/// comes round, to the nanosecond.
pub proof fn law_interval_ends_at_the_time_of_day<
    F,
    Fut,
    T,
    const H: u32,
    const M: u32,
    const S: u32,
>(job: Cron<F, Fut, T, H, M, S>, r: Option<u128>) -> (now: DateTime) where
    F: FnMut(&T) -> Fut,
    Fut: Future<Output = ControlFlow>,

    requires
        H < 24,
        M < 60,
        S < 60,
        call_ensures(Cron::<F, Fut, T, H, M, S>::interval, (&job,), r),
    ensures
        clock_showed(now),
        ({
            let day: int = 86_400_000_000_000;
            let start = now.day * 86_400_000_000_000 + now.secs * 1_000_000_000 + now.nanos;
            let time = (H * 3600 + M * 60 + S) * 1_000_000_000;
            match r {
                Some(nanos) => (start + nanos) % day == time && nanos < day,
                None => now.day == 95_745_399 && start % day > time,
            }
        }),
{
    let secs = seconds_from_midnight(H, M, S);
    let now = choose|now: DateTime| #[trigger]
        clock_showed(now) && now.wf() && !now.leap() && r == wait_at(now, secs);
    law_ends_at_the_time_of_day(now, H, M, S, 0);
    law_waits_less_than_a_day(now, H, M, S);
    vstd::arithmetic::div_mod::lemma_fundamental_div_mod_converse(
        now.day * 86_400_000_000_000 + now.secs * 1_000_000_000 + now.nanos,
        86_400_000_000_000,
        now.day as int,
        now.secs * 1_000_000_000 + now.nanos,
    );
    now
}

/// Of two times outside of leap seconds, the one with more nanoseconds before it is the later one.
pub proof fn law_later_means_more_nanoseconds(a: DateTime, b: DateTime, r: bool)
    requires
        a.wf(),
        b.wf(),
        a.nanos < 1_000_000_000,
        b.nanos < 1_000_000_000,
        call_ensures(DateTime::is_later_than, (&a, &b), r),
    ensures
        r <==> a.day * 86_400_000_000_000 + a.secs * 1_000_000_000 + a.nanos > b.day
            * 86_400_000_000_000 + b.secs * 1_000_000_000 + b.nanos,
{
}

/// Of two different times just one is the later one, leap seconds or not, and to be later carries
/// over. A leap second is later than the second before it, and not than the one after it.
pub proof fn law_times_are_in_order(a: DateTime, b: DateTime, c: DateTime)
    requires
        a.wf(),
        b.wf(),
        c.wf(),
    ensures
        a.later_than(b) || b.later_than(a) || a == b,
        !(a.later_than(b) && b.later_than(a)),
        a.later_than(b) && b.later_than(c) ==> a.later_than(c),
        a.day == b.day && a.secs == b.secs ==> (a.later_than(b) <==> a.nanos > b.nanos),
        a.day == b.day && a.secs > b.secs ==> a.later_than(b),
        a.day > b.day ==> a.later_than(b),
{
}

/// Whatever its routine answers, a job goes on.
pub proof fn law_jobs_go_on<F, Fut, T, const H: u32, const M: u32, const S: u32>(
    job: Cron<F, Fut, T, H, M, S>,
    flow: ControlFlow,
    r: ControlFlow,
) where F: FnMut(&T) -> Fut, Fut: Future<Output = ControlFlow>,
    requires
        call_ensures(Cron::<F, Fut, T, H, M, S>::ran, (&job, flow), r),
    ensures
        r is Continue,
{
}

/// A job keeps the name that it was made with, and runs the routine that it was made with.
pub proof fn law_jobs_are_as_they_were_made<F, Fut, T, const H: u32, const M: u32, const S: u32>(
    name: &str,
    run: F,
    job: Cron<F, Fut, T, H, M, S>,
    r: String,
) where F: FnMut(&T) -> Fut, Fut: Future<Output = ControlFlow>,
    requires
        call_ensures(Cron::<F, Fut, T, H, M, S>::new::<&str>, (name, run), job),
        call_ensures(Cron::<F, Fut, T, H, M, S>::name, (&job,), r),
    ensures
        r@ == name@,
        job.spec_run() == run,
{
}

/// The times that there are: every second of every day that the calendar knows, and a leap second at
/// the end of every minute.
pub proof fn law_the_times_there_are(time: DateTime)
    ensures
        time.wf() <==> -95_746_129 <= time.day <= 95_745_399 && time.secs < 86_400 && (time.nanos
            < 1_000_000_000 || (time.nanos < 2_000_000_000 && time.secs % 60 == 59)),
{
}

/// What the clock may have shown is what it was read to be, and nothing else.
proof fn lemma_the_clock_is_read(now: DateTime)
    ensures
        clock_showed(now) <==> call_ensures(utc_now, (), now),
{
}

/// The clock shows times from 1970 on, and none within a leap second.
pub proof fn law_what_the_clock_shows(now: DateTime)
    requires
        clock_showed(now),
    ensures
        719_163 <= now.day <= 95_745_399,
        now.secs < 86_400,
        now.nanos < 1_000_000_000,
{
    lemma_the_clock_is_read(now);
}

} // verus!
