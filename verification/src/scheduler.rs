//! The decisions of the timers: when the next daily wallpaper is due, and
//! when the rest reminder comes up.
use vstd::prelude::*;
use crate::clock::local_time_of_day;

verus! {

/// Ten o'clock, in seconds after midnight.
pub open spec fn ten_am() -> int {
    36000
}

/// Whole seconds from the local time of day `secs` seconds and `nanos`
/// nanoseconds after midnight until the next ten o'clock (today's where it
/// is still ahead, else tomorrow's), but at least one minute.
pub open spec fn until_ten(secs: int, nanos: int) -> int {
    let target = if secs < ten_am() { ten_am() } else { ten_am() + 86400 };
    let whole = target - secs - if nanos > 0 { 1int } else { 0int };
    if whole > 60 { whole } else { 60 }
}

/// Seconds from the time of day `secs` (+ `nanos`) until the next ten
/// o'clock, at least 60 (see `until_ten`).
pub fn seconds_until_ten(secs: u32, nanos: u32) -> (r: u64)
    requires
        secs < 86400,
        nanos < 1_000_000_000,
    ensures
        r == until_ten(secs as int, nanos as int),
        60 <= r <= 86400,
{
    let target: u64 = if secs < 36000 { 36000 } else { 36000 + 86400 };
    let whole = target - secs as u64 - if nanos > 0 { 1 } else { 0 };
    if whole > 60 { whole } else { 60 }
}

/// Seconds from now until the next ten o'clock local time, at least 60.
pub fn seconds_until_next_10am() -> (r: u64)
    ensures
        exists|secs: int, nanos: int| 0 <= secs < 86400 && 0 <= nanos < 1_000_000_000 && r == until_ten(secs, nanos),
{
    let (secs, nanos) = local_time_of_day();
    seconds_until_ten(secs, nanos)
}

/// How far the rest monitor has come in one round of checks.
#[derive(Debug, Clone, Copy, PartialEq, Eq, Structural)]
pub enum RestPhase {
    /// Waiting for the reminder settings.
    Start,
    /// Waiting for the idle time.
    AwaitIdle { interval: u64, idle_reset: u64 },
    /// Waiting for how long the user has worked since the last rest.
    AwaitWork { interval: u64 },
    /// Waiting to learn whether a full-screen window is in front.
    AwaitFullscreen,
}

/// What the monitor learned.
#[derive(Debug, Clone, Copy, PartialEq, Eq, Structural)]
pub enum RestEvent {
    /// The reminder settings: switched on, work interval and idle time that
    /// counts as a rest (seconds), and whether the overlay is already up.
    Settings { enabled: bool, interval: u64, idle_reset: u64, showing: bool },
    /// The user's idle time in seconds, if it could be read.
    Idle { idle_seconds: Option<u64> },
    /// Seconds of work since the last rest.
    Work { work_seconds: u64 },
    /// Whether a full-screen window is in front.
    Fullscreen { on: bool },
}

/// What the monitor does next.
#[derive(Debug, Clone, Copy, PartialEq, Eq, Structural)]
pub enum RestAction {
    /// Nothing more this round; sleep until the next poll.
    Sleep,
    /// Read the idle time.
    ReadIdle,
    /// The user was idle long enough: restart the work clock, then sleep.
    ResetTimers,
    /// Read the time worked since the last rest.
    ReadWork,
    /// Check for a full-screen window.
    CheckFullscreen,
    /// Show the rest overlay, then sleep.
    ShowOverlay,
}

/// A round of checks begins: the settings came, the reminder is on and the
/// overlay is not up yet.
pub open spec fn round_begins(phase: RestPhase, event: RestEvent) -> bool {
    &&& phase is Start
    &&& event is Settings
    &&& event->enabled
    &&& !event->showing
}

/// The idle time could be read and reaches the idle reset: the user has
/// rested.
pub open spec fn idle_rested(phase: RestPhase, event: RestEvent) -> bool {
    &&& phase is AwaitIdle
    &&& event is Idle
    &&& event->idle_seconds matches Some(s) && s >= phase->idle_reset
}

/// The idle time could be read and is shorter than the idle reset: the user
/// is still at work.
pub open spec fn still_working(phase: RestPhase, event: RestEvent) -> bool {
    &&& phase is AwaitIdle
    &&& event is Idle
    &&& event->idle_seconds matches Some(s) && s < phase->idle_reset
}

/// The time worked since the last rest reaches the interval.
pub open spec fn work_over(phase: RestPhase, event: RestEvent) -> bool {
    &&& phase is AwaitWork
    &&& event is Work
    &&& event->work_seconds >= phase->AwaitWork_interval
}

/// The last check found no full-screen window in front.
pub open spec fn overlay_due(phase: RestPhase, event: RestEvent) -> bool {
    phase is AwaitFullscreen && event == (RestEvent::Fullscreen { on: false })
}

/// One step of the rest monitor, as the action it takes and the phase it
/// moves to: a round that begins reads the idle time, keeping the interval
/// and idle reset; a long enough idle time restarts the clocks; a shorter
/// one reads the time worked; work past the interval checks for a
/// full-screen window; with none in front the overlay comes up. Anything
/// else (the reminder off or already showing, an unreadable idle time, too
/// little work, a full-screen window, or an event out of turn) ends the
/// round.
pub open spec fn rest_next(phase: RestPhase, event: RestEvent) -> (RestPhase, RestAction) {
    if round_begins(phase, event) {
        (RestPhase::AwaitIdle { interval: event->interval, idle_reset: event->idle_reset }, RestAction::ReadIdle)
    } else if idle_rested(phase, event) {
        (RestPhase::Start, RestAction::ResetTimers)
    } else if still_working(phase, event) {
        (RestPhase::AwaitWork { interval: phase->AwaitIdle_interval }, RestAction::ReadWork)
    } else if work_over(phase, event) {
        (RestPhase::AwaitFullscreen, RestAction::CheckFullscreen)
    } else if overlay_due(phase, event) {
        (RestPhase::Start, RestAction::ShowOverlay)
    } else {
        (RestPhase::Start, RestAction::Sleep)
    }
}

/// One step of the rest monitor (see `rest_next`).
pub fn rest_step(phase: RestPhase, event: RestEvent) -> (r: (RestPhase, RestAction))
    ensures
        r == rest_next(phase, event),
        r.1 == RestAction::ReadIdle <==> round_begins(phase, event),
        r.1 == RestAction::ResetTimers <==> idle_rested(phase, event),
        r.1 == RestAction::ReadWork <==> still_working(phase, event),
        r.1 == RestAction::CheckFullscreen <==> work_over(phase, event),
        r.1 == RestAction::ShowOverlay <==> overlay_due(phase, event),
{
    match (phase, event) {
        (RestPhase::Start, RestEvent::Settings { enabled, interval, idle_reset, showing }) => {
            if !enabled || showing {
                (RestPhase::Start, RestAction::Sleep)
            } else {
                (RestPhase::AwaitIdle { interval, idle_reset }, RestAction::ReadIdle)
            }
        },
        (RestPhase::AwaitIdle { interval, idle_reset }, RestEvent::Idle { idle_seconds }) => match idle_seconds {
            None => (RestPhase::Start, RestAction::Sleep),
            Some(s) => if s >= idle_reset {
                (RestPhase::Start, RestAction::ResetTimers)
            } else {
                (RestPhase::AwaitWork { interval }, RestAction::ReadWork)
            },
        },
        (RestPhase::AwaitWork { interval }, RestEvent::Work { work_seconds }) => {
            if work_seconds >= interval {
                (RestPhase::AwaitFullscreen, RestAction::CheckFullscreen)
            } else {
                (RestPhase::Start, RestAction::Sleep)
            }
        },
        (RestPhase::AwaitFullscreen, RestEvent::Fullscreen { on }) => {
            if on {
                (RestPhase::Start, RestAction::Sleep)
            } else {
                (RestPhase::Start, RestAction::ShowOverlay)
            }
        },
        _ => (RestPhase::Start, RestAction::Sleep),
    }
}


/// The daily wallpaper comes at ten o'clock: waiting the computed time from
/// a moment more than a minute before ten lands on ten today, from ten on it
/// lands on ten tomorrow; in the last minute before ten the wait is one
/// minute. The wait is never shorter than a minute nor longer than a day.
pub proof fn law_next_update_at_ten(secs: int, nanos: int)
    requires
        0 <= secs < 86400,
        0 <= nanos < 1_000_000_000,
    ensures
        60 <= until_ten(secs, nanos) <= 86400,
        secs + 60 < ten_am() ==> secs + until_ten(secs, nanos) + (if nanos > 0 { 1int } else { 0int }) == ten_am(),
        secs >= ten_am() ==> secs + until_ten(secs, nanos) + (if nanos > 0 { 1int } else { 0int }) == ten_am() + 86400,
        ten_am() - 60 <= secs < ten_am() ==> until_ten(secs, nanos) == 60,
{
}

/// The rest overlay comes up only at the end of a full round of checks:
/// the reminder is on and not already showing, the idle time could be read
/// and is shorter than the idle reset, the time worked reaches the interval,
/// and no full-screen window is in front. A long enough idle time instead
/// restarts the clocks.
pub proof fn law_overlay_conditions(e1: RestEvent, e2: RestEvent, e3: RestEvent, e4: RestEvent)
    ensures
        ({
            let (p1, a1) = rest_next(RestPhase::Start, e1);
            let (p2, a2) = rest_next(p1, e2);
            let (p3, a3) = rest_next(p2, e3);
            let (p4, a4) = rest_next(p3, e4);
            &&& a1 != RestAction::ShowOverlay
            &&& a2 != RestAction::ShowOverlay
            &&& a3 != RestAction::ShowOverlay
            &&& a4 == RestAction::ShowOverlay ==> {
                &&& a1 == RestAction::ReadIdle
                &&& a2 == RestAction::ReadWork
                &&& a3 == RestAction::CheckFullscreen
                &&& e1 matches RestEvent::Settings { enabled, interval, idle_reset, showing }
                &&& enabled && !showing
                &&& e2 matches RestEvent::Idle { idle_seconds: Some(idle) }
                &&& idle < idle_reset
                &&& e3 matches RestEvent::Work { work_seconds }
                &&& work_seconds >= interval
                &&& e4 == RestEvent::Fullscreen { on: false }
            }
            &&& a2 == RestAction::ResetTimers ==> (e2 matches RestEvent::Idle { idle_seconds: Some(idle) } && e1 matches RestEvent::Settings { idle_reset, .. } && idle >= idle_reset)
        }),
{
}

/// Only the last check of a round can show the overlay.
pub proof fn law_overlay_only_after_fullscreen_check(phase: RestPhase, event: RestEvent)
    ensures
        rest_next(phase, event).1 == RestAction::ShowOverlay ==> phase == RestPhase::AwaitFullscreen && event == (RestEvent::Fullscreen { on: false }),
        rest_next(phase, event).1 == RestAction::CheckFullscreen ==> (phase matches RestPhase::AwaitWork { interval } && event matches RestEvent::Work { work_seconds } && work_seconds >= interval),
{
}

} // verus!
