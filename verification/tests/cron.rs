use std::future::{ready, Ready};

use botkit::control_flow::ControlFlow;
use botkit::cron::{Cron, DateTime, DAY, FIRST_DAY, LAST_DAY, SECOND};
use chrono::{Datelike, NaiveDate};

type Routine = fn(&u8) -> Ready<ControlFlow>;
type Job<const H: u32, const M: u32, const S: u32> = Cron<Routine, Ready<ControlFlow>, u8, H, M, S>;
type Nine = Job<9, 0, 0>;

fn go_on(_: &u8) -> Ready<ControlFlow> {
    ready(ControlFlow::CONTINUE)
}

fn stop_at_seven(data: &u8) -> Ready<ControlFlow> {
    ready(if *data == 7 { ControlFlow::BREAK } else { ControlFlow::CONTINUE })
}

const NINE: u32 = 9 * 3600;

fn at(day: i32, secs: u32, nanos: u32) -> DateTime {
    DateTime { day, secs, nanos }
}

#[test]
fn the_calendar_ends_where_it_should() {
    assert_eq!(NaiveDate::MIN.num_days_from_ce(), FIRST_DAY);
    assert_eq!(NaiveDate::MAX.num_days_from_ce(), LAST_DAY);
    assert_eq!(NaiveDate::from_ymd_opt(1970, 1, 1).unwrap().num_days_from_ce(), 719_163);
}

#[test]
fn a_job_later_today_waits_until_then() {
    let job = Nine::new("hello", go_on);
    assert_eq!(job.interval_at(&at(738_000, NINE - 90, 250)), Some(90 * SECOND - 250));
}

#[test]
fn a_job_earlier_today_waits_until_tomorrow() {
    let job = Nine::new("hello", go_on);
    assert_eq!(job.interval_at(&at(738_000, NINE + 1, 0)), Some(DAY - SECOND));
    assert_eq!(job.interval_at(&at(738_000, NINE, 1)), Some(DAY - 1));
}

#[test]
fn a_job_that_is_due_does_not_wait() {
    let job = Nine::new("hello", go_on);
    assert_eq!(job.interval_at(&at(738_000, NINE, 0)), Some(0));
}

#[test]
fn minutes_and_seconds_count() {
    let job = Job::<23, 59, 58>::new("late", go_on);
    assert_eq!(job.interval_at(&at(738_000, 0, 0)), Some(DAY - 2 * SECOND));
}

#[test]
fn the_last_day_has_no_tomorrow() {
    let job = Nine::new("hello", go_on);
    assert_eq!(job.interval_at(&at(LAST_DAY, 0, 0)), Some(u128::from(NINE) * SECOND));
    assert_eq!(job.interval_at(&at(LAST_DAY, NINE, 0)), Some(0));
    assert_eq!(job.interval_at(&at(LAST_DAY, NINE, 1)), None);
    assert_eq!(job.interval_at(&at(LAST_DAY, 86_399, 0)), None);
    assert_eq!(job.interval_at(&at(LAST_DAY - 1, NINE + 1, 0)), Some(DAY - SECOND));
}

#[test]
fn a_leap_second_counts_before_a_later_time_of_day() {
    let job = Nine::new("hello", go_on);
    assert_eq!(job.interval_at(&at(738_000, NINE - 1, 1_500_000_000)), Some(SECOND / 2));
}

#[test]
fn a_leap_second_before_midnight_does_not_make_the_wait_negative() {
    let job = Job::<0, 0, 0>::new("midnight".to_string(), go_on);
    assert_eq!(job.interval_at(&at(738_000, 86_399, 1_500_000_000)), Some(0));
}

#[test]
fn the_clock_is_read() {
    let job = Nine::new("hello", go_on);
    assert!(job.interval().unwrap() < DAY);
    let now = chrono::Utc::now().naive_utc().time();
    let soon = chrono::NaiveTime::from_hms_opt(9, 0, 0).unwrap();
    let left = (soon - now).num_seconds().rem_euclid(86_400);
    let waits = (job.interval().unwrap() / SECOND) as i64;
    let apart = (left - waits).rem_euclid(86_400);
    assert!(apart < 10 || apart > 86_390);
}

#[test]
fn a_job_has_a_name_and_a_routine() {
    let mut job = Nine::new("hello", stop_at_seven);
    assert_eq!(job.name(), "hello");
    assert_eq!(job.run(&7).into_inner(), ControlFlow::Break);
    assert_eq!(job.run(&8).into_inner(), ControlFlow::Continue);
    assert_eq!(job.name(), "hello");
}

#[test]
fn a_job_never_ends() {
    let mut job = Nine::new("hello", stop_at_seven);
    let flow = job.run(&7).into_inner();
    assert!(flow.is_break());
    assert!(!job.ran(flow).is_break());
    assert!(!job.ran(ControlFlow::CONTINUE).is_break());
}

#[test]
fn a_routine_keeps_its_state_between_runs() {
    let mut count = 0;
    let routine = |data: &u8| {
        count += *data;
        ready(if count > 5 { ControlFlow::BREAK } else { ControlFlow::CONTINUE })
    };
    let mut job = Cron::<_, _, u8, 9, 0, 0>::new("count".to_string(), routine);
    assert_eq!(job.run(&3).into_inner(), ControlFlow::Continue);
    assert_eq!(job.run(&3).into_inner(), ControlFlow::Break);
}

#[test]
fn times_are_compared_by_day_first() {
    assert!(at(2, 0, 0).is_later_than(&at(1, 86_399, 5)));
    assert!(!at(1, 86_399, 5).is_later_than(&at(2, 0, 0)));
    assert!(at(1, 5, 0).is_later_than(&at(1, 4, 9)));
    assert!(at(1, 5, 1).is_later_than(&at(1, 5, 0)));
    assert!(!at(1, 5, 1).is_later_than(&at(1, 5, 1)));
}
