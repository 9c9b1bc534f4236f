use vstd::prelude::*;
use vstd::arithmetic::div_mod::{
    lemma_fundamental_div_mod,
    lemma_fundamental_div_mod_converse_mod,
    lemma_mod_pos_bound,
};
use crate::alarm::AlarmId;
use crate::time::{
    Weekday, LocalDateTime, weekday_of_day, seconds_of_day, local_now, SECONDS_PER_DAY, DAY_LIMIT,
};
use std::collections::HashMap;

verus! {

/// A schedule as the timer loop sees it: a time of day and the weekdays on
/// which it repeats. No weekday makes it a one-shot schedule.
#[derive(Clone, Debug)]
pub struct SchedulerEntry {
    pub hours: u8,
    pub minutes: u8,
    pub days: Vec<Weekday>,
}

impl SchedulerEntry {
    pub open spec fn wf(&self) -> bool {
        self.hours < 24 && self.minutes < 60
    }

    pub open spec fn is_one_shot(&self) -> bool {
        self.days@.len() == 0
    }

    /// The moment at `hours:minutes` on day `day`.
    pub open spec fn at_day(&self, day: int) -> int {
        day * SECONDS_PER_DAY as int + seconds_of_day(self.hours as int, self.minutes as int, 0)
    }

    /// Day `day` is one on which this recurring schedule fires.
    pub open spec fn fires_on(&self, day: int) -> bool {
        exists|i: int| 0 <= i < self.days@.len()
            && #[trigger] self.days@[i].index_spec() == weekday_of_day(day)
    }
}

/// Days from `now`'s day to the next firing on weekday `wd` at
/// `hours:minutes`: the coming day of that weekday, or a week later when it is
/// today and the time has already come.
pub open spec fn days_until_weekday(now: LocalDateTime, hours: int, minutes: int, wd: int) -> int {
    let delta = (wd + 7 - weekday_of_day(now.day as int)) % 7;
    if delta == 0 && seconds_of_day(hours, minutes, 0) <= now.time_of_day() {
        7
    } else {
        delta
    }
}

proof fn lemma_days_until_weekday(now: LocalDateTime, s: SchedulerEntry, wd: int, d: int)
    requires
        now.wf(),
        s.wf(),
        0 <= wd < 7,
    ensures
        ({
            let k = days_until_weekday(now, s.hours as int, s.minutes as int, wd);
            &&& 0 <= k <= 7
            &&& weekday_of_day(now.day + k) == wd
            &&& s.at_day(now.day + k) > now.instant()
            &&& (d >= now.day && weekday_of_day(d) == wd && s.at_day(d) > now.instant())
                ==> now.day + k <= d
        }),
{
    let x = now.day as int;
    let r = x % 7;
    let q = x / 7;
    lemma_fundamental_div_mod(x, 7);
    lemma_mod_pos_bound(x, 7);
    let delta = (wd + 7 - r) % 7;
    let q1: int = if wd >= r {
        lemma_fundamental_div_mod_converse_mod(wd + 7 - r, 7, 1, wd - r);
        q
    } else {
        lemma_fundamental_div_mod_converse_mod(wd + 7 - r, 7, 0, wd + 7 - r);
        q + 1
    };
    assert(x + delta == q1 * 7 + wd);
    lemma_fundamental_div_mod_converse_mod(x + delta, 7, q1, wd);
    if d >= x && weekday_of_day(d) == wd && s.at_day(d) > now.instant() {
        let k = d - x;
        lemma_fundamental_div_mod(x + k, 7);
        if k < 7 {
            let q2 = (x + k) / 7;
            assert(k - delta == 7 * (q2 - q1));
            assert(k == delta);
        }
    }
}

/// The next moment, strictly after `now`, at which `schedule` fires: at its
/// time of day, today or tomorrow for a one-shot schedule, and on the earliest
/// listed weekday still ahead for a recurring one.
pub fn next_fire(now: &LocalDateTime, schedule: &SchedulerEntry) -> (r: LocalDateTime)
    requires
        now.wf(),
        schedule.wf(),
        now.day + 7 <= u32::MAX,
    ensures
        r.instant() > now.instant(),
        is_next_fire(*now, *schedule, r),
{
    let target: u32 = schedule.hours as u32 * 3600 + schedule.minutes as u32 * 60;
    let current: u32 = now.hour as u32 * 3600 + now.minute as u32 * 60 + now.second as u32;
    let passed = target <= current;
    if schedule.days.len() == 0 {
        let day = if passed {
            now.day + 1
        } else {
            now.day
        };
        return LocalDateTime { day, hour: schedule.hours, minute: schedule.minutes, second: 0 };
    }
    let today: u32 = now.day % 7;
    let mut best: u32 = 8;
    let mut i: usize = 0;
    while i < schedule.days.len()
        invariant
            0 <= i <= schedule.days@.len(),
            today as int == weekday_of_day(now.day as int),
            passed == (seconds_of_day(schedule.hours as int, schedule.minutes as int, 0)
                <= now.time_of_day()),
            i == 0 ==> best == 8,
            i > 0 ==> exists|j: int|
                0 <= j < i && best as int == #[trigger] days_until_weekday(
                    *now,
                    schedule.hours as int,
                    schedule.minutes as int,
                    schedule.days@[j].index_spec(),
                ),
            forall|j: int|
                0 <= j < i ==> best as int <= #[trigger] days_until_weekday(
                    *now,
                    schedule.hours as int,
                    schedule.minutes as int,
                    schedule.days@[j].index_spec(),
                ),
        decreases schedule.days@.len() - i,
    {
        let ghost old_best = best;
        let wd: u32 = schedule.days[i].index() as u32;
        let delta: u32 = (wd + 7 - today) % 7;
        let ahead: u32 = if delta == 0 && passed {
            7
        } else {
            delta
        };
        assert(ahead as int == days_until_weekday(
            *now,
            schedule.hours as int,
            schedule.minutes as int,
            schedule.days@[i as int].index_spec(),
        ));
        if ahead < best {
            best = ahead;
        }
        i = i + 1;
        assert(best as int == days_until_weekday(
            *now,
            schedule.hours as int,
            schedule.minutes as int,
            schedule.days@[i - 1].index_spec(),
        ) || best == old_best);
    }
    let r = LocalDateTime {
        day: now.day + best,
        hour: schedule.hours,
        minute: schedule.minutes,
        second: 0,
    };
    proof {
        let j = choose|j: int|
            0 <= j < schedule.days@.len() && best as int == #[trigger] days_until_weekday(
                *now,
                schedule.hours as int,
                schedule.minutes as int,
                schedule.days@[j].index_spec(),
            );
        lemma_days_until_weekday(*now, *schedule, schedule.days@[j].index_spec(), 0);
        assert(schedule.days@[j].index_spec() == weekday_of_day(r.day as int));
        assert forall|d: int|
            d >= now.day && #[trigger] schedule.fires_on(d) && schedule.at_day(d) > now.instant()
                implies r.day <= d by {
            let m = choose|m: int|
                0 <= m < schedule.days@.len() && #[trigger] schedule.days@[m].index_spec()
                    == weekday_of_day(d);
            lemma_days_until_weekday(*now, *schedule, schedule.days@[m].index_spec(), d);
        }
    }
    r
}

/// What a timer loop does next.
#[derive(Clone, Copy, PartialEq, Eq, Structural, Debug)]
pub enum LoopStep {
    /// Sleep until this moment, then fire.
    SleepUntil(LocalDateTime),
    /// The schedule is used up: report it and end the loop.
    Exhausted,
}

/// The timer loop's next step at moment `now`, after a firing if `fired`: a
/// one-shot schedule is used up by its firing; otherwise the loop sleeps
/// until the schedule's next firing after `now`.
pub fn next_step_at(schedule: &SchedulerEntry, now: &LocalDateTime, fired: bool) -> (r: LoopStep)
    requires
        now.wf(),
        schedule.wf(),
        now.day + 7 <= u32::MAX,
    ensures
        (fired && schedule.is_one_shot()) <==> r == LoopStep::Exhausted,
        r matches LoopStep::SleepUntil(t) ==> is_next_fire(*now, *schedule, t),
{
    if fired && schedule.days.len() == 0 {
        LoopStep::Exhausted
    } else {
        LoopStep::SleepUntil(next_fire(now, schedule))
    }
}

/// The timer loop's next step now, on the host's local clock, after a firing
/// if `fired`.
pub fn next_step(schedule: &SchedulerEntry, fired: bool) -> (r: LoopStep)
    requires
        schedule.wf(),
    ensures
        (fired && schedule.is_one_shot()) <==> r == LoopStep::Exhausted,
        r matches LoopStep::SleepUntil(t) ==> exists|now: LocalDateTime|
            now.wf() && #[trigger] is_next_fire(now, *schedule, t),
{
    let now = local_now();
    next_step_at(schedule, &now, fired)
}

/// `t` is what `next_fire` returns for `now` and `schedule`: the earliest
/// moment after `now` at the schedule's time of day on a day it fires.
pub open spec fn is_next_fire(now: LocalDateTime, schedule: SchedulerEntry, t: LocalDateTime) -> bool {
    &&& t.wf()
    &&& t.hour == schedule.hours
    &&& t.minute == schedule.minutes
    &&& t.second == 0
    &&& t.instant() > now.instant()
    &&& now.day <= t.day <= now.day + 7
    &&& schedule.is_one_shot() ==> t.day == (if schedule.at_day(now.day as int) > now.instant() {
        now.day as int
    } else {
        now.day + 1
    })
    &&& !schedule.is_one_shot() ==> schedule.fires_on(t.day as int)
    &&& !schedule.is_one_shot() ==> forall|d: int|
        d >= now.day && #[trigger] schedule.fires_on(d) && schedule.at_day(d) > now.instant()
            ==> t.day <= d
}

/// Only one moment meets the description of the next firing.
pub proof fn lemma_next_fire_unique(
    now: LocalDateTime,
    schedule: SchedulerEntry,
    t1: LocalDateTime,
    t2: LocalDateTime,
)
    requires
        is_next_fire(now, schedule, t1),
        is_next_fire(now, schedule, t2),
    ensures
        t1 == t2,
{
    if !schedule.is_one_shot() {
        assert(schedule.fires_on(t1.day as int));
        assert(schedule.fires_on(t2.day as int));
    }
}

/// tokio's handle that cancels a spawned task, carried here unopened.
#[verifier::external_type_specification]
#[verifier::external_body]
pub struct ExAbortHandle(tokio::task::AbortHandle);

/// Relies on tokio's AbortHandle::abort, which asks the runtime to cancel the
/// task; nothing is promised of when the task stops.
pub assume_specification[ tokio::task::AbortHandle::abort ](h: &tokio::task::AbortHandle);

/// Error of the timer registry.
#[derive(Clone, Copy, PartialEq, Eq, Structural, Debug)]
pub enum SchedulerError {
    /// An alarm with this id already has a live timer.
    DuplicateKey,
}

impl SchedulerError {
    /// The message shown for this error.
    pub fn message(&self) -> (r: String)
        ensures
            r@ == "contains duplicate alarm key"@,
    {
        String::from_str("contains duplicate alarm key")
    }
}

/// The armed ids after registering `id` among `armed`: `None` when `id` is
/// already armed.
pub open spec fn register_outcome(armed: Set<i64>, id: i64) -> Option<Set<i64>> {
    if armed.contains(id) {
        None
    } else {
        Some(armed.insert(id))
    }
}

/// The armed ids after cancelling `id` among `armed`.
pub open spec fn cancel_outcome(armed: Set<i64>, id: i64) -> Set<i64> {
    armed.remove(id)
}

/// The registry of live timers: at most one per alarm id, each held by the
/// handle that cancels its task.
pub struct Scheduler {
    id_mapping: HashMap<i64, tokio::task::AbortHandle>,
}

impl Scheduler {
    /// The ids that have a live timer.
    pub closed spec fn armed(&self) -> Set<i64> {
        self.id_mapping@.dom()
    }

    pub fn new() -> (r: Scheduler)
        ensures
            r.armed() == Set::<i64>::empty(),
    {
        Scheduler { id_mapping: HashMap::new() }
    }

    /// Whether `id` has a live timer.
    pub fn is_armed(&self, id: AlarmId) -> (r: bool)
        ensures
            r == self.armed().contains(id.0),
    {
        broadcast use vstd::std_specs::hash::group_hash_axioms;

        self.id_mapping.contains_key(&id.0)
    }

    /// Registers the timer task behind `handle` for `id`. When `id` already
    /// has one, the new task is aborted and `DuplicateKey` returned.
    pub fn add_schedule(&mut self, id: AlarmId, handle: tokio::task::AbortHandle) -> (r: Result<
        (),
        SchedulerError,
    >)
        ensures
            r is Ok <==> !old(self).armed().contains(id.0),
            r is Err ==> r == Err::<(), SchedulerError>(SchedulerError::DuplicateKey),
            r is Ok ==> register_outcome(old(self).armed(), id.0) == Some(final(self).armed()),
            r is Err ==> register_outcome(old(self).armed(), id.0) is None && final(self).armed()
                == old(self).armed(),
    {
        broadcast use vstd::std_specs::hash::group_hash_axioms;

        if self.id_mapping.contains_key(&id.0) {
            handle.abort();
            return Err(SchedulerError::DuplicateKey);
        }
        self.id_mapping.insert(id.0, handle);
        Ok(())
    }

    /// Cancels the timer of `id`, if it has one: its task is aborted and
    /// forgotten. An unknown id is left alone.
    pub fn cancel_schedule(&mut self, id: AlarmId)
        ensures
            final(self).armed() == cancel_outcome(old(self).armed(), id.0),
    {
        broadcast use vstd::std_specs::hash::group_hash_axioms;

        if let Some(handle) = self.id_mapping.remove(&id.0) {
            handle.abort();
        }
    }
}

/// A schedule on Mondays alone fires, from a Tuesday, on the coming Monday;
/// from a Monday before its time, that same day; from a Monday at or after its
/// time, on the Monday a week later.
pub proof fn lemma_monday_only(now: LocalDateTime, schedule: SchedulerEntry, t: LocalDateTime)
    requires
        now.wf(),
        schedule.wf(),
        schedule.days@ == seq![Weekday::Monday],
        is_next_fire(now, schedule, t),
    ensures
        now.weekday_index() == 1 ==> t.day == now.day + 6,
        now.weekday_index() == 0 && schedule.at_day(now.day as int) > now.instant() ==> t.day
            == now.day,
        now.weekday_index() == 0 && schedule.at_day(now.day as int) <= now.instant() ==> t.day
            == now.day + 7,
{
    let x = now.day as int;
    lemma_fundamental_div_mod(x, 7);
    lemma_mod_pos_bound(x, 7);
    let q = x / 7;
    assert(schedule.fires_on(t.day as int));
    assert(schedule.days@[0].index_spec() == 0);
    assert(weekday_of_day(t.day as int) == 0);
    let k = t.day - x;
    lemma_fundamental_div_mod(t.day as int, 7);
    let q2 = (t.day as int) / 7;
    assert(t.day == 7 * q2);
    if x % 7 == 1 {
        lemma_fundamental_div_mod_converse_mod(x + 6, 7, q + 1, 0);
        assert(schedule.fires_on(x + 6));
        assert(t.day <= x + 6);
        assert(k == 7 * (q2 - q) - 1);
    }
    if x % 7 == 0 {
        assert(k == 7 * (q2 - q));
        if schedule.at_day(x) > now.instant() {
            assert(schedule.fires_on(x));
        } else {
            assert(t.day != x);
        }
    }
}

/// Registering an id a second time fails, while registering it after
/// cancelling it succeeds.
pub proof fn lemma_register_cancel(armed: Set<i64>, id: i64)
    ensures
        register_outcome(armed, id) matches Some(after) ==> register_outcome(after, id) is None,
        register_outcome(cancel_outcome(armed, id), id) == Some(armed.insert(id)),
{
    if !armed.contains(id) {
        assert(armed.insert(id).contains(id));
    }
    assert(armed.remove(id).insert(id) =~= armed.insert(id));
}

/// Cancelling an id that was never registered changes nothing.
pub proof fn lemma_cancel_unknown(armed: Set<i64>, id: i64)
    requires
        !armed.contains(id),
    ensures
        cancel_outcome(armed, id) == armed,
{
    assert(armed.remove(id) =~= armed);
}

} // verus!
