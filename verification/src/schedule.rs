//! The weekly trigger: which instant comes next, and what the loop that
//! waits for it does at each step.
//!
//! An instant is a whole number of seconds since 1970-01-01 00:00:00 UTC, a
//! Thursday. A local clock is given by the seconds it is ahead of UTC.

use vstd::prelude::*;

verus! {

pub const SECONDS_PER_DAY: i64 = 86_400;

pub const SECONDS_PER_WEEK: i64 = 604_800;

/// A day of the week.
#[derive(Clone, Copy, Debug, PartialEq, Eq, Structural)]
pub enum Weekday {
    Mon,
    Tue,
    Wed,
    Thu,
    Fri,
    Sat,
    Sun,
}

impl Weekday {
    /// The days from Monday to this day.
    pub open spec fn days_from_monday(self) -> int {
        match self {
            Weekday::Mon => 0,
            Weekday::Tue => 1,
            Weekday::Wed => 2,
            Weekday::Thu => 3,
            Weekday::Fri => 4,
            Weekday::Sat => 5,
            Weekday::Sun => 6,
        }
    }

    /// The days from Monday to this day.
    pub fn num_days_from_monday(self) -> (days: u32)
        ensures
            days == self.days_from_monday(),
    {
        match self {
            Weekday::Mon => 0,
            Weekday::Tue => 1,
            Weekday::Wed => 2,
            Weekday::Thu => 3,
            Weekday::Fri => 4,
            Weekday::Sat => 5,
            Weekday::Sun => 6,
        }
    }
}

/// The seconds from the latest local Monday 00:00:00 to `instant`.
pub open spec fn second_of_week(instant: int, utc_offset: int) -> int {
    (instant + utc_offset + 3 * 86_400) % 604_800
}

/// A time of the week by the local clock.
#[derive(Clone, Copy, Debug, PartialEq, Eq, Structural)]
pub struct WeeklyTarget {
    pub weekday: Weekday,
    pub hour: u32,
    pub minute: u32,
    pub second: u32,
}

impl WeeklyTarget {
    /// The local clock shows this weekday, hour, minute and second at
    /// `instant`. No instant is one of an hour past 23, or of a minute or
    /// second past 59.
    pub open spec fn falls_on(self, instant: int, utc_offset: int) -> bool {
        let seconds = second_of_week(instant, utc_offset);
        &&& seconds / 86_400 == self.weekday.days_from_monday()
        &&& seconds % 86_400 / 3_600 == self.hour
        &&& seconds % 3_600 / 60 == self.minute
        &&& seconds % 60 == self.second
    }

    /// `instant` is the first one at or after `from` on which this time of
    /// the week falls.
    pub open spec fn first_falls_on(self, from: int, utc_offset: int, instant: int) -> bool {
        &&& from <= instant
        &&& self.falls_on(instant, utc_offset)
        &&& forall|earlier: int|
            from <= earlier < instant ==> !#[trigger] self.falls_on(earlier, utc_offset)
    }

    /// The seconds from Monday 00:00:00 to this time of the week.
    pub open spec fn second_of_week(self) -> int {
        self.weekday.days_from_monday() * 86_400 + self.hour * 3_600 + self.minute * 60
            + self.second
    }

    /// The hour, minute and second are ones that a clock shows.
    pub open spec fn on_the_clock(self) -> bool {
        self.hour < 24 && self.minute < 60 && self.second < 60
    }
}

/// A time on the clock falls on exactly the instants whose second of the
/// week is the target's.
pub proof fn lemma_falls_on_its_second(target: WeeklyTarget, instant: int, utc_offset: int)
    requires
        target.on_the_clock(),
    ensures
        0 <= target.second_of_week() < 604_800,
        0 <= second_of_week(instant, utc_offset) < 604_800,
        target.falls_on(instant, utc_offset) <==> second_of_week(instant, utc_offset)
            == target.second_of_week(),
{
    let seconds = second_of_week(instant, utc_offset);
    let day = seconds / 86_400;
    let in_day = seconds % 86_400;
    let hour = in_day / 3_600;
    let in_hour = in_day % 3_600;
    assert(seconds == day * 86_400 + in_day);
    assert(in_day == hour * 3_600 + in_hour);
    assert(in_hour == seconds % 3_600) by {
        assert(seconds == (day * 24 + hour) * 3_600 + in_hour);
    }
    assert(in_hour % 60 == seconds % 60) by {
        assert(seconds == ((day * 24 + hour) * 60 + in_hour / 60) * 60 + in_hour % 60);
    }
}

/// The second of the week moves with the instant: `ahead` seconds later it
/// is `ahead` further on, less a week where that passes the week's end.
pub proof fn lemma_second_of_week_ahead(instant: int, utc_offset: int, ahead: int)
    requires
        0 <= ahead < 604_800,
    ensures
        second_of_week(instant + ahead, utc_offset) == if second_of_week(instant, utc_offset)
            + ahead < 604_800 {
            second_of_week(instant, utc_offset) + ahead
        } else {
            second_of_week(instant, utc_offset) + ahead - 604_800
        },
{
}

/// Only a time on the clock falls on any instant.
pub proof fn lemma_what_falls_is_on_the_clock(target: WeeklyTarget, instant: int, utc_offset: int)
    requires
        target.falls_on(instant, utc_offset),
    ensures
        target.on_the_clock(),
{
    let seconds = second_of_week(instant, utc_offset);
    assert(0 <= seconds < 604_800);
    assert(0 <= seconds % 86_400 < 86_400);
    assert(0 <= seconds % 3_600 < 3_600);
}

/// What falls on an instant falls on the instant a week later, and on none
/// in between.
pub proof fn lemma_weekly(target: WeeklyTarget, instant: int, utc_offset: int)
    requires
        target.falls_on(instant, utc_offset),
    ensures
        target.first_falls_on(instant, utc_offset, instant),
        target.first_falls_on(instant + 1, utc_offset, instant + 604_800),
{
    lemma_what_falls_is_on_the_clock(target, instant, utc_offset);
    lemma_falls_on_its_second(target, instant, utc_offset);
    lemma_falls_on_its_second(target, instant + 604_800, utc_offset);
    let aim = target.second_of_week();
    assert(second_of_week(instant + 604_800, utc_offset) == aim) by {
        assert(second_of_week(instant, utc_offset) == aim);
        assert((instant + 604_800 + utc_offset + 3 * 86_400) % 604_800 == (instant + utc_offset + 3
            * 86_400) % 604_800);
    }
    assert forall|earlier: int| instant + 1 <= earlier < instant + 604_800 implies !#[trigger]
    target.falls_on(earlier, utc_offset) by {
        lemma_falls_on_its_second(target, earlier, utc_offset);
        lemma_second_of_week_ahead(instant, utc_offset, earlier - instant);
        assert(second_of_week(earlier, utc_offset) != aim);
    }
}

/// There is at most one first instant.
pub proof fn lemma_first_is_unique(
    target: WeeklyTarget,
    from: int,
    utc_offset: int,
    one: int,
    other: int,
)
    requires
        target.first_falls_on(from, utc_offset, one),
        target.first_falls_on(from, utc_offset, other),
    ensures
        one == other,
{
}

/// The first instant at or after `now` on which `target` falls by the local
/// clock: `now` itself where it falls on `now`. There is none where the
/// target is a time that no clock shows, or where the instant would lie past
/// the last one that an `i64` holds.
pub fn next_occurrence(now: i64, target: WeeklyTarget, utc_offset: i32) -> (next: Option<i64>)
    ensures
        match next {
            Some(instant) => target.first_falls_on(now as int, utc_offset as int, instant as int),
            None => forall|instant: int|
                now <= instant <= i64::MAX ==> !#[trigger] target.falls_on(
                    instant,
                    utc_offset as int,
                ),
        },
{
    if target.hour >= 24 || target.minute >= 60 || target.second >= 60 {
        return None;
    }
    let aim: i64 = target.weekday.num_days_from_monday() as i64 * SECONDS_PER_DAY
        + target.hour as i64 * 3_600 + target.minute as i64 * 60 + target.second as i64;
    let here: i64 = seconds_into_week(now, utc_offset);
    let wait: i64 = if aim >= here {
        aim - here
    } else {
        aim - here + SECONDS_PER_WEEK
    };
    proof {
        lemma_falls_on_its_second(target, now as int, utc_offset as int);
        lemma_falls_on_its_second(target, now + wait, utc_offset as int);
        lemma_second_of_week_ahead(now as int, utc_offset as int, wait as int);
        assert forall|instant: int| now <= instant < now + wait implies !#[trigger] target.falls_on(
            instant,
            utc_offset as int,
        ) by {
            lemma_falls_on_its_second(target, instant, utc_offset as int);
            lemma_second_of_week_ahead(now as int, utc_offset as int, instant - now);
        }
    }
    if now > i64::MAX - wait {
        None
    } else {
        Some(now + wait)
    }
}

/// The seconds from the latest local Monday 00:00:00 to `instant`.
pub fn seconds_into_week(instant: i64, utc_offset: i32) -> (seconds: i64)
    ensures
        seconds == second_of_week(instant as int, utc_offset as int),
        0 <= seconds < 604_800,
{
    // A Monday 00:00:00 so far back that no instant lies before it.
    let origin: i128 = 604_800 * 0x1000_0000_0000;
    let local: i128 = instant as i128 + utc_offset as i128 + 3 * 86_400 + origin;
    (local % 604_800) as i64
}

/// What the loop around the clock has seen happen.
#[derive(Clone, Copy, Debug, PartialEq, Eq, Structural)]
pub enum ClockEvent {
    /// The loop has started.
    Started,
    /// A sleep has ended.
    Woke,
    /// The action has run to its end.
    Finished,
    /// The action has failed or panicked.
    Failed,
}

/// What the loop around the clock does next.
#[derive(Clone, Copy, Debug, PartialEq, Eq, Structural)]
pub enum ClockAction {
    /// Sleep until this instant, then report `Woke`.
    SleepUntil(i64),
    /// Run the action, then report `Finished` or `Failed`.
    Invoke,
    /// Stop: no instant is left to wait for.
    Halt,
}

/// The state of the loop that fires once a week.
#[derive(Clone, Copy, Debug, PartialEq, Eq, Structural)]
pub struct TriggerClock {
    /// The time of the week at which the action runs.
    pub target: WeeklyTarget,
    /// The instant that the loop waits for, while it waits.
    pub due: Option<i64>,
    /// The instant for which the action last ran.
    pub last_fired: Option<i64>,
}

impl TriggerClock {
    /// The first instant that the next firing may be for: `now`, or the
    /// second after the last firing's instant where that is later, so that
    /// no instant is fired for twice.
    pub open spec fn resumes_from(self, now: int) -> int {
        match self.last_fired {
            Some(fired) if fired + 1 > now => fired + 1,
            _ => now,
        }
    }

    /// A sleep has ended, and it was one for an instant.
    pub open spec fn wakes(self, event: ClockEvent) -> bool {
        event == ClockEvent::Woke && self.due is Some
    }

    /// A clock that has not fired and waits for nothing yet.
    pub fn new(target: WeeklyTarget) -> (clock: TriggerClock)
        ensures
            clock == (TriggerClock { target, due: None, last_fired: None }),
    {
        TriggerClock { target, due: None, last_fired: None }
    }

    /// Takes in what has happened and says what to do next, `now` being the
    /// current instant and `utc_offset` what the local clock is ahead of UTC
    /// at it.
    ///
    /// A sleep that has ended at or after the instant it was for leads to
    /// the action; one that has ended before it, to more sleep. Anything
    /// else leads to a sleep until the first instant of the target from
    /// `resumes_from(now)` on, found anew from `now`: at the start, and after
    /// the action, whether it has finished or failed.
    pub fn step(&mut self, event: ClockEvent, now: i64, utc_offset: i32) -> (action: ClockAction)
        ensures
            final(self).target == old(self).target,
            old(self).wakes(event) && now >= old(self).due->0 ==> action == ClockAction::Invoke
                && final(self).due is None && final(self).last_fired == old(self).due,
            old(self).wakes(event) && now < old(self).due->0 ==> action == ClockAction::SleepUntil(
                old(self).due->0,
            ) && *final(self) == *old(self),
            !old(self).wakes(event) ==> final(self).last_fired == old(self).last_fired && match action {
                ClockAction::SleepUntil(instant) => final(self).due == Some(instant)
                    && old(self).target.first_falls_on(
                    old(self).resumes_from(now as int),
                    utc_offset as int,
                    instant as int,
                ),
                ClockAction::Halt => final(self).due is None && forall|instant: int|
                    old(self).resumes_from(now as int) <= instant <= i64::MAX ==> !#[trigger] old(
                        self,
                    ).target.falls_on(instant, utc_offset as int),
                ClockAction::Invoke => false,
            },
    {
        if let ClockEvent::Woke = event {
            if let Some(due) = self.due {
                if now >= due {
                    self.last_fired = Some(due);
                    self.due = None;
                    return ClockAction::Invoke;
                } else {
                    return ClockAction::SleepUntil(due);
                }
            }
        }
        let from: i64 = match self.last_fired {
            Some(fired) if fired >= now => {
                if fired == i64::MAX {
                    self.due = None;
                    return ClockAction::Halt;
                }
                fired + 1
            },
            _ => now,
        };
        match next_occurrence(from, self.target, utc_offset) {
            Some(instant) => {
                self.due = Some(instant);
                ClockAction::SleepUntil(instant)
            },
            None => {
                self.due = None;
                ClockAction::Halt
            },
        }
    }
}

/// The instant that the clock sleeps for after a firing lies after the
/// firing's instant, at most a week after it where the loop has lost no
/// time, and the target falls on it: no firing is repeated within its week,
/// and none is left out.
pub proof fn lemma_next_firing_is_later(
    clock: TriggerClock,
    now: int,
    utc_offset: int,
    instant: int,
)
    requires
        clock.last_fired is Some,
        clock.target.falls_on(clock.last_fired->0 as int, utc_offset),
        clock.target.first_falls_on(clock.resumes_from(now), utc_offset, instant),
    ensures
        instant > clock.last_fired->0,
        instant >= now,
        now <= clock.last_fired->0 + 1 ==> instant == clock.last_fired->0 + 604_800,
{
    let fired = clock.last_fired->0 as int;
    if now <= fired + 1 {
        lemma_weekly(clock.target, fired, utc_offset);
        lemma_first_is_unique(clock.target, fired + 1, utc_offset, instant, fired + 604_800);
    }
}

} // verus!
