use vstd::prelude::*;

verus! {

/// Seconds in one civil day.
pub const SECONDS_PER_DAY: u32 = 86400;

/// A day of the week, Monday first.
#[derive(Clone, Copy, PartialEq, Eq, Structural, Debug, Hash)]
pub enum Weekday {
    Monday,
    Tuesday,
    Wednesday,
    Thursday,
    Friday,
    Saturday,
    Sunday,
}

impl Weekday {
    /// Position in the week: Monday is 0, Sunday is 6.
    pub open spec fn index_spec(self) -> int {
        match self {
            Weekday::Monday => 0,
            Weekday::Tuesday => 1,
            Weekday::Wednesday => 2,
            Weekday::Thursday => 3,
            Weekday::Friday => 4,
            Weekday::Saturday => 5,
            Weekday::Sunday => 6,
        }
    }

    pub fn index(&self) -> (r: u8)
        ensures
            r as int == self.index_spec(),
            r < 7,
    {
        match self {
            Weekday::Monday => 0,
            Weekday::Tuesday => 1,
            Weekday::Wednesday => 2,
            Weekday::Thursday => 3,
            Weekday::Friday => 4,
            Weekday::Saturday => 5,
            Weekday::Sunday => 6,
        }
    }

    /// The weekday at position `i` (Monday is 0); none past Sunday.
    pub fn from_index(i: u8) -> (r: Option<Weekday>)
        ensures
            r is Some <==> i < 7,
            r is Some ==> r->0.index_spec() == i as int,
    {
        match i {
            0 => Some(Weekday::Monday),
            1 => Some(Weekday::Tuesday),
            2 => Some(Weekday::Wednesday),
            3 => Some(Weekday::Thursday),
            4 => Some(Weekday::Friday),
            5 => Some(Weekday::Saturday),
            6 => Some(Weekday::Sunday),
            _ => None,
        }
    }
}

/// Weekday index of a day number. Day 0 is the first day of the civil
/// calendar's range, -9999-01-01, a Monday.
pub open spec fn weekday_of_day(day: int) -> int {
    day % 7
}

/// Seconds since midnight of a time of day.
pub open spec fn seconds_of_day(hour: int, minute: int, second: int) -> int {
    hour * 3600 + minute * 60 + second
}

/// A moment on the host's local civil clock, to the second: a day number
/// (days since -9999-01-01) and a time of day.
#[derive(Clone, Copy, PartialEq, Eq, Structural, Debug)]
pub struct LocalDateTime {
    pub day: u32,
    pub hour: u8,
    pub minute: u8,
    pub second: u8,
}

impl LocalDateTime {
    pub open spec fn wf(self) -> bool {
        &&& self.hour < 24
        &&& self.minute < 60
        &&& self.second < 60
    }

    pub open spec fn time_of_day(self) -> int {
        seconds_of_day(self.hour as int, self.minute as int, self.second as int)
    }

    /// Seconds since the start of day 0.
    pub open spec fn instant(self) -> int {
        self.day * SECONDS_PER_DAY as int + self.time_of_day()
    }

    pub open spec fn weekday_index(self) -> int {
        weekday_of_day(self.day as int)
    }

    /// The day of the week of this moment.
    pub fn weekday(&self) -> (r: Weekday)
        ensures
            r.index_spec() == self.weekday_index(),
    {
        let i: u8 = (self.day % 7) as u8;
        match Weekday::from_index(i) {
            Some(w) => w,
            None => Weekday::Monday,
        }
    }
}

/// Day numbers of the dates jiff can represent (-9999-01-01 to 9999-12-31)
/// lie below this bound.
pub const DAY_LIMIT: u32 = 7400000;

/// Relies on jiff::Zoned::now for the current moment on the host's local
/// clock, and on subtracting jiff::civil::Date::MIN (the first date jiff can
/// represent) from its date for the day number. jiff gives hours in 0..=23,
/// minutes and seconds in 0..=59, and dates from -9999-01-01 to 9999-12-31.
#[verifier::external_body]
pub(crate) fn local_now() -> (r: LocalDateTime)
    ensures
        r.wf(),
        r.day < DAY_LIMIT,
{
    let now = jiff::Zoned::now().datetime();
    LocalDateTime {
        day: (now.date() - jiff::civil::Date::MIN).get_days() as u32,
        hour: now.hour() as u8,
        minute: now.minute() as u8,
        second: now.second() as u8,
    }
}

} // verus!
