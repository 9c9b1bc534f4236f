use alarm_server::scheduler::{next_fire, next_step, next_step_at, LoopStep, SchedulerEntry};
use alarm_server::time::{LocalDateTime, Weekday};

// Day numbers count from -9999-01-01, a Monday: day 4371587 is 1970-01-01.
const MONDAY: u32 = 4371591;
const TUESDAY: u32 = MONDAY + 1;

fn at(day: u32, hour: u8, minute: u8, second: u8) -> LocalDateTime {
    LocalDateTime { day, hour, minute, second }
}

fn one_shot(hours: u8, minutes: u8) -> SchedulerEntry {
    SchedulerEntry { hours, minutes, days: vec![] }
}

fn instant(t: &LocalDateTime) -> u64 {
    t.day as u64 * 86400 + t.hour as u64 * 3600 + t.minute as u64 * 60 + t.second as u64
}

#[test]
fn weekday_of_day_numbers() {
    assert_eq!(at(0, 0, 0, 0).weekday(), Weekday::Monday);
    assert_eq!(at(4371587, 0, 0, 0).weekday(), Weekday::Thursday);
    assert_eq!(at(MONDAY, 0, 0, 0).weekday(), Weekday::Monday);
    assert_eq!(at(TUESDAY, 0, 0, 0).weekday(), Weekday::Tuesday);
    assert_eq!(at(MONDAY + 6, 0, 0, 0).weekday(), Weekday::Sunday);
}

#[test]
fn weekday_index_round_trip() {
    for i in 0u8..7 {
        assert_eq!(Weekday::from_index(i).unwrap().index(), i);
    }
    assert_eq!(Weekday::from_index(7), None);
}

#[test]
fn one_shot_later_today() {
    let now = at(TUESDAY, 8, 0, 0);
    assert_eq!(next_fire(&now, &one_shot(9, 30)), at(TUESDAY, 9, 30, 0));
}

#[test]
fn one_shot_passed_goes_to_tomorrow() {
    let now = at(TUESDAY, 10, 0, 0);
    assert_eq!(next_fire(&now, &one_shot(9, 30)), at(TUESDAY + 1, 9, 30, 0));
}

#[test]
fn one_shot_at_this_very_minute_goes_to_tomorrow() {
    let now = at(TUESDAY, 9, 30, 0);
    assert_eq!(next_fire(&now, &one_shot(9, 30)), at(TUESDAY + 1, 9, 30, 0));
    let now = at(TUESDAY, 9, 29, 59);
    assert_eq!(next_fire(&now, &one_shot(9, 30)), at(TUESDAY, 9, 30, 0));
}

#[test]
fn monday_from_tuesday() {
    let s = SchedulerEntry { hours: 7, minutes: 0, days: vec![Weekday::Monday] };
    assert_eq!(next_fire(&at(TUESDAY, 12, 0, 0), &s), at(MONDAY + 7, 7, 0, 0));
}

#[test]
fn monday_before_time_is_today() {
    let s = SchedulerEntry { hours: 7, minutes: 0, days: vec![Weekday::Monday] };
    assert_eq!(next_fire(&at(MONDAY, 6, 59, 0), &s), at(MONDAY, 7, 0, 0));
}

#[test]
fn monday_after_time_is_next_week() {
    let s = SchedulerEntry { hours: 7, minutes: 0, days: vec![Weekday::Monday] };
    assert_eq!(next_fire(&at(MONDAY, 7, 0, 1), &s), at(MONDAY + 7, 7, 0, 0));
}

#[test]
fn recurring_takes_earliest_day() {
    let s = SchedulerEntry {
        hours: 7,
        minutes: 0,
        days: vec![Weekday::Friday, Weekday::Tuesday, Weekday::Monday],
    };
    // Monday after the time: Tuesday is next, not Monday a week on.
    assert_eq!(next_fire(&at(MONDAY, 8, 0, 0), &s), at(MONDAY + 1, 7, 0, 0));
    // Saturday: Monday is next.
    assert_eq!(next_fire(&at(MONDAY + 5, 8, 0, 0), &s), at(MONDAY + 7, 7, 0, 0));
}

#[test]
fn next_fire_is_always_later() {
    let schedules = [
        one_shot(0, 0),
        one_shot(23, 59),
        SchedulerEntry { hours: 0, minutes: 0, days: vec![Weekday::Sunday] },
        SchedulerEntry { hours: 23, minutes: 59, days: vec![Weekday::Wednesday, Weekday::Thursday] },
    ];
    for s in schedules.iter() {
        for day in MONDAY..MONDAY + 7 {
            for (h, m, sec) in [(0, 0, 0), (12, 0, 0), (23, 59, 59)] {
                let now = at(day, h, m, sec);
                let t = next_fire(&now, s);
                assert!(instant(&t) > instant(&now));
                assert!(t.day <= day + 7);
            }
        }
    }
}

#[test]
fn loop_steps() {
    let now = at(TUESDAY, 12, 0, 0);
    assert_eq!(next_step_at(&one_shot(12, 2), &now, false), LoopStep::SleepUntil(at(TUESDAY, 12, 2, 0)));
    assert_eq!(next_step_at(&one_shot(12, 2), &at(TUESDAY, 12, 2, 0), true), LoopStep::Exhausted);
    let weekly = SchedulerEntry { hours: 12, minutes: 2, days: vec![Weekday::Tuesday] };
    assert_eq!(
        next_step_at(&weekly, &at(TUESDAY, 12, 2, 0), true),
        LoopStep::SleepUntil(at(TUESDAY + 7, 12, 2, 0))
    );
}

#[test]
fn loop_step_from_clock() {
    match next_step(&one_shot(6, 45), false) {
        LoopStep::SleepUntil(t) => {
            assert_eq!((t.hour, t.minute, t.second), (6, 45, 0));
            // the clock reads a date after 1970
            assert!(t.day > 4371587);
        }
        LoopStep::Exhausted => panic!("a one-shot alarm that has not fired is not used up"),
    }
    assert_eq!(next_step(&one_shot(6, 45), true), LoopStep::Exhausted);
}
