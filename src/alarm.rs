use vstd::prelude::*;
use crate::cron::{CreateCronError, check_schedule, schedule_check};
use crate::db::DbEntry;
use crate::scheduler::SchedulerEntry;
use crate::time::Weekday;

verus! {

/// Key of a stored alarm, given by the store when the alarm is created.
#[derive(Clone, Copy, PartialEq, Eq, Structural, Hash, Debug)]
pub struct AlarmId(pub i64);

impl From<AlarmId> for i64 {
    fn from(value: AlarmId) -> (r: i64)
        ensures
            r == value.0,
    {
        value.0
    }
}

impl vstd::std_specs::convert::FromSpecImpl<AlarmId> for i64 {
    open spec fn obeys_from_spec() -> bool {
        true
    }

    open spec fn from_spec(v: AlarmId) -> i64 {
        v.0
    }
}

/// A stored alarm: a time of day, the weekdays it repeats on (Monday is 0;
/// none for a one-shot alarm), and whether it is on.
#[derive(Debug, Clone)]
pub struct AlarmEntry {
    pub hours: u8,
    pub minutes: u8,
    pub days: Vec<u8>,
    pub is_enabled: bool,
}

impl AlarmEntry {
    /// The values are in range.
    pub open spec fn is_valid(&self) -> bool {
        schedule_check(self.hours, self.minutes, self.days@) is Ok
    }

    /// The alarm gets a timer: it is on and its values are in range.
    pub open spec fn should_arm(&self) -> bool {
        self.is_enabled && self.is_valid()
    }

    /// The schedule of this alarm, or the first bound its values break.
    pub fn to_schedule(&self) -> (r: Result<SchedulerEntry, CreateCronError>)
        ensures
            r is Ok <==> self.is_valid(),
            r is Err ==> r->Err_0 == schedule_check(self.hours, self.minutes, self.days@)->Err_0,
            r matches Ok(s) ==> {
                &&& s.wf()
                &&& s.hours == self.hours
                &&& s.minutes == self.minutes
                &&& s.days@.len() == self.days@.len()
                &&& forall|k: int|
                    0 <= k < s.days@.len() ==> #[trigger] s.days@[k].index_spec() == self.days@[k]
            },
    {
        match check_schedule(self.hours, self.minutes, &self.days) {
            Err(e) => {
                return Err(e);
            },
            Ok(()) => {},
        }
        let mut days: Vec<Weekday> = Vec::new();
        let mut i: usize = 0;
        while i < self.days.len()
            invariant
                0 <= i <= self.days@.len(),
                self.is_valid(),
                days@.len() == i,
                forall|k: int| 0 <= k < i ==> #[trigger] days@[k].index_spec() == self.days@[k],
            decreases self.days@.len() - i,
        {
            assert(!(self.days@[i as int] >= 7));
            match Weekday::from_index(self.days[i]) {
                Some(w) => days.push(w),
                None => {
                    return Err(CreateCronError::IncorrectDay);
                },
            }
            i = i + 1;
        }
        Ok(SchedulerEntry { hours: self.hours, minutes: self.minutes, days })
    }

    /// This alarm turned off, as it is stored once a one-shot alarm has fired.
    pub fn exhausted(self) -> (r: AlarmEntry)
        ensures
            !r.is_enabled,
            r.hours == self.hours,
            r.minutes == self.minutes,
            r.days@ == self.days@,
    {
        AlarmEntry { is_enabled: false, ..self }
    }
}

/// Positions, in order, of the stored alarms that get a timer when the
/// process starts: those that are on and whose values are in range.
pub fn alarms_to_arm(entries: &Vec<DbEntry<AlarmEntry>>) -> (r: Vec<usize>)
    ensures
        forall|j: int| 0 <= j < r@.len() ==> #[trigger] r@[j] < entries@.len(),
        forall|j: int| 0 <= j < r@.len() ==> entries@[#[trigger] r@[j] as int].value.should_arm(),
        forall|j: int, l: int| 0 <= j < l < r@.len() ==> #[trigger] r@[j] < #[trigger] r@[l],
        forall|i: int|
            0 <= i < entries@.len() && #[trigger] entries@[i].value.should_arm() ==> exists|j: int|
                0 <= j < r@.len() && #[trigger] r@[j] == i,
{
    let mut r: Vec<usize> = Vec::new();
    let mut i: usize = 0;
    while i < entries.len()
        invariant
            0 <= i <= entries@.len(),
            forall|j: int| 0 <= j < r@.len() ==> #[trigger] r@[j] < i,
            forall|j: int| 0 <= j < r@.len() ==> entries@[#[trigger] r@[j] as int].value.should_arm(),
            forall|j: int, l: int| 0 <= j < l < r@.len() ==> #[trigger] r@[j] < #[trigger] r@[l],
            forall|k: int|
                0 <= k < i && #[trigger] entries@[k].value.should_arm() ==> exists|j: int|
                    0 <= j < r@.len() && #[trigger] r@[j] == k,
        decreases entries@.len() - i,
    {
        let e = &entries[i].value;
        let valid = check_schedule(e.hours, e.minutes, &e.days).is_ok();
        let ghost old_r = r@;
        if e.is_enabled && valid {
            r.push(i);
            assert(r@[r@.len() - 1] == i);
        }
        proof {
            assert forall|k: int|
                0 <= k < i + 1 && #[trigger] entries@[k].value.should_arm() implies exists|j: int|
                    0 <= j < r@.len() && #[trigger] r@[j] == k by {
                if k < i {
                    let j = choose|j: int| 0 <= j < old_r.len() && #[trigger] old_r[j] == k;
                    assert(r@[j] == k);
                } else {
                    assert(r@[r@.len() - 1] == k);
                }
            }
        }
        i = i + 1;
    }
    r
}

/// A command to the audio alert.
#[derive(Clone, Copy, PartialEq, Eq, Structural, Debug)]
pub enum AlarmMessage {
    Start,
    Stop,
}

/// What the audio device is to do for a command.
#[derive(Clone, Copy, PartialEq, Eq, Structural, Debug)]
pub enum AudioAction {
    /// Start the looped alert sound.
    Play,
    /// Stop the sound.
    Halt,
    /// Leave the device as it is.
    Nothing,
}

/// Streams playing, and the device's action, after `message` when `streams`
/// were playing.
pub open spec fn audio_step(streams: nat, message: AlarmMessage) -> (nat, AudioAction) {
    match message {
        AlarmMessage::Start => if streams == 0 {
            (1, AudioAction::Play)
        } else {
            (streams, AudioAction::Nothing)
        },
        AlarmMessage::Stop => if streams == 0 {
            (0, AudioAction::Nothing)
        } else {
            (0, AudioAction::Halt)
        },
    }
}

/// The single owner of the sound device's state, fed commands in order.
pub struct AudioController {
    playing: bool,
}

impl AudioController {
    /// Streams the device is playing.
    pub closed spec fn active_streams(&self) -> nat {
        if self.playing {
            1
        } else {
            0
        }
    }

    pub fn new() -> (r: AudioController)
        ensures
            r.active_streams() == 0,
    {
        AudioController { playing: false }
    }

    pub fn is_playing(&self) -> (r: bool)
        ensures
            r == (self.active_streams() > 0),
            self.active_streams() <= 1,
    {
        self.playing
    }

    /// Takes the next command: a start while silent plays, a stop while
    /// playing halts, anything else leaves the device alone.
    pub fn handle(&mut self, message: AlarmMessage) -> (r: AudioAction)
        ensures
            (final(self).active_streams(), r) == audio_step(old(self).active_streams(), message),
            final(self).active_streams() <= 1,
    {
        match message {
            AlarmMessage::Start => {
                if self.playing {
                    AudioAction::Nothing
                } else {
                    self.playing = true;
                    AudioAction::Play
                }
            },
            AlarmMessage::Stop => {
                if self.playing {
                    self.playing = false;
                    AudioAction::Halt
                } else {
                    AudioAction::Nothing
                }
            },
        }
    }
}

/// Two starts with no stop between them leave exactly one stream playing,
/// and at most one of them starts the sound.
pub proof fn lemma_two_starts(streams: nat)
    requires
        streams <= 1,
    ensures
        ({
            let (s1, a1) = audio_step(streams, AlarmMessage::Start);
            let (s2, a2) = audio_step(s1, AlarmMessage::Start);
            &&& s2 == 1
            &&& !(a1 == AudioAction::Play && a2 == AudioAction::Play)
            &&& a2 != AudioAction::Play
        }),
{
}

} // verus!
