use alarm_server::alarm::{alarms_to_arm, AlarmEntry, AlarmId, AlarmMessage, AudioAction, AudioController};
use alarm_server::cron::CreateCronError;
use alarm_server::db::DbEntry;
use alarm_server::scheduler::{next_step_at, LoopStep};
use alarm_server::time::{LocalDateTime, Weekday};

fn entry(hours: u8, minutes: u8, days: Vec<u8>, is_enabled: bool) -> AlarmEntry {
    AlarmEntry { hours, minutes, days, is_enabled }
}

#[test]
fn alarm_id_into_i64() {
    assert_eq!(i64::from(AlarmId(17)), 17);
}

#[test]
fn to_schedule_converts_days() {
    let s = entry(6, 15, vec![0, 4, 6], true).to_schedule().unwrap();
    assert_eq!((s.hours, s.minutes), (6, 15));
    assert_eq!(s.days, vec![Weekday::Monday, Weekday::Friday, Weekday::Sunday]);
}

#[test]
fn to_schedule_rejects() {
    assert_eq!(entry(6, 60, vec![], true).to_schedule().unwrap_err(), CreateCronError::IncorrectMinute);
    assert_eq!(entry(24, 0, vec![], true).to_schedule().unwrap_err(), CreateCronError::IncorrectHour);
    assert_eq!(entry(6, 0, vec![2, 7], true).to_schedule().unwrap_err(), CreateCronError::IncorrectDay);
}

#[test]
fn exhausted_turns_off() {
    let e = entry(6, 15, vec![], true).exhausted();
    assert!(!e.is_enabled);
    assert_eq!((e.hours, e.minutes, e.days.len()), (6, 15, 0));
}

#[test]
fn restart_arms_only_enabled_recurring() {
    let stored = vec![
        DbEntry { id: 1, value: entry(7, 0, vec![0, 1, 2, 3, 4], true) },
        DbEntry { id: 2, value: entry(6, 30, vec![], false) },
        DbEntry { id: 3, value: entry(9, 0, vec![5], false) },
    ];
    let armed = alarms_to_arm(&stored);
    assert_eq!(armed, vec![0]);
    assert_eq!(stored[armed[0]].id, 1);
}

#[test]
fn restart_skips_out_of_range() {
    let stored = vec![
        DbEntry { id: 1, value: entry(25, 0, vec![], true) },
        DbEntry { id: 4, value: entry(5, 0, vec![], true) },
        DbEntry { id: 9, value: entry(5, 0, vec![8], true) },
        DbEntry { id: 12, value: entry(5, 5, vec![3], true) },
    ];
    assert_eq!(alarms_to_arm(&stored), vec![1, 3]);
    assert_eq!(alarms_to_arm(&vec![]), Vec::<usize>::new());
}

#[test]
fn two_starts_play_once() {
    let mut c = AudioController::new();
    assert!(!c.is_playing());
    assert_eq!(c.handle(AlarmMessage::Start), AudioAction::Play);
    assert_eq!(c.handle(AlarmMessage::Start), AudioAction::Nothing);
    assert!(c.is_playing());
}

#[test]
fn stop_halts_then_is_noop() {
    let mut c = AudioController::new();
    assert_eq!(c.handle(AlarmMessage::Stop), AudioAction::Nothing);
    assert_eq!(c.handle(AlarmMessage::Start), AudioAction::Play);
    assert_eq!(c.handle(AlarmMessage::Stop), AudioAction::Halt);
    assert_eq!(c.handle(AlarmMessage::Stop), AudioAction::Nothing);
    assert!(!c.is_playing());
    assert_eq!(c.handle(AlarmMessage::Start), AudioAction::Play);
}

#[test]
fn one_shot_in_two_minutes_fires_once() {
    let added = entry(12, 2, vec![], true);
    let schedule = added.to_schedule().unwrap();
    let now = LocalDateTime { day: 4371600, hour: 12, minute: 0, second: 0 };
    let deadline = match next_step_at(&schedule, &now, false) {
        LoopStep::SleepUntil(t) => t,
        LoopStep::Exhausted => panic!("not fired yet"),
    };
    assert_eq!(deadline, LocalDateTime { day: 4371600, hour: 12, minute: 2, second: 0 });
    let mut audio = AudioController::new();
    let mut plays = 0;
    if audio.handle(AlarmMessage::Start) == AudioAction::Play {
        plays += 1;
    }
    assert_eq!(next_step_at(&schedule, &deadline, true), LoopStep::Exhausted);
    assert_eq!(plays, 1);
    let stored = added.exhausted();
    assert!(!stored.is_enabled);
}
