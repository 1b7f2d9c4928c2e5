//! The dwell/cooldown state machine: from pointer samples to corner triggers.

use crate::config::{HCornerConfig, TableView};
use crate::corner::{in_region, Corner};
use vstd::prelude::*;

verus! {

/// Minimum time, in milliseconds, the pointer must rest before a corner may fire.
pub const DWELL_MS: u64 = 200;

/// Quiet period, in milliseconds, that follows every trigger.
pub const COOLDOWN_MS: u64 = 1000;

/// Pause, in milliseconds, between two polls of the pointer.
pub const POLL_MS: u64 = 50;

/// Pause, in milliseconds, before retrying a poll that produced no sample.
pub const RETRY_MS: u64 = 10;

/// One observation of the pointer: where it is, on what screen, and when
/// (milliseconds on a monotonic clock).
#[derive(Clone, Copy, Debug, PartialEq, Eq, Structural)]
pub struct PointerSample {
    pub x: i32,
    pub y: i32,
    pub screen_width: i32,
    pub screen_height: i32,
    pub observed_at: u64,
}

/// What the detector remembers between samples.
#[derive(Clone, Copy, Debug, PartialEq, Eq)]
pub struct DetectorState {
    pub last_x: i32,
    pub last_y: i32,
    pub last_move_time: u64,
    pub suppressed_until: Option<u64>,
}

/// How a sample relates to the state it meets.
#[derive(Clone, Copy, Debug, PartialEq, Eq, Structural)]
pub enum Phase {
    /// A trigger fired less than the cooldown ago; the sample is ignored.
    Suppressed,
    /// The pointer is not where it was last seen.
    Moving,
    /// The pointer rests where it was last seen.
    DwellPending,
}

/// The phase in which sample `p` meets state `s`.
pub open spec fn phase_of(s: DetectorState, p: PointerSample) -> Phase {
    if s.suppressed_until matches Some(until) && p.observed_at < until {
        Phase::Suppressed
    } else if p.x != s.last_x || p.y != s.last_y {
        Phase::Moving
    } else {
        Phase::DwellPending
    }
}

/// Time from `since` to `now`, zero if `now` is not later.
pub open spec fn elapsed(since: u64, now: u64) -> int {
    if now >= since {
        now - since
    } else {
        0
    }
}

/// Whether corner `c` both contains the pointer of `p` and is enabled in `table`.
pub open spec fn armed(table: TableView, c: Corner, p: PointerSample) -> bool {
    in_region(c, p.x as int, p.y as int, p.screen_width as int, p.screen_height as int)
        && table.slot(c).enabled
}

/// The corner that a rested pointer triggers: the first armed one in the order
/// top-left, top-right, bottom-left, bottom-right.
pub open spec fn firing_corner(table: TableView, p: PointerSample) -> Option<Corner> {
    if armed(table, Corner::TopLeft, p) {
        Some(Corner::TopLeft)
    } else if armed(table, Corner::TopRight, p) {
        Some(Corner::TopRight)
    } else if armed(table, Corner::BottomLeft, p) {
        Some(Corner::BottomLeft)
    } else if armed(table, Corner::BottomRight, p) {
        Some(Corner::BottomRight)
    } else {
        None
    }
}

/// The corner that sample `p` fires when it meets state `s`, if any.
pub open spec fn fires(s: DetectorState, table: TableView, p: PointerSample) -> Option<Corner> {
    if phase_of(s, p) == Phase::DwellPending && elapsed(s.last_move_time, p.observed_at)
        >= DWELL_MS {
        firing_corner(table, p)
    } else {
        None
    }
}

/// The state that follows `s` once sample `p` has been processed.
pub open spec fn next_state(s: DetectorState, table: TableView, p: PointerSample) -> DetectorState {
    match phase_of(s, p) {
        Phase::Suppressed => s,
        Phase::Moving => DetectorState {
            last_x: p.x,
            last_y: p.y,
            last_move_time: p.observed_at,
            suppressed_until: None,
        },
        Phase::DwellPending => if fires(s, table, p) is Some {
            DetectorState {
                last_x: s.last_x,
                last_y: s.last_y,
                last_move_time: (p.observed_at + COOLDOWN_MS) as u64,
                suppressed_until: Some((p.observed_at + COOLDOWN_MS) as u64),
            }
        } else {
            DetectorState {
                last_x: s.last_x,
                last_y: s.last_y,
                last_move_time: s.last_move_time,
                suppressed_until: None,
            }
        },
    }
}

/// The first armed corner for sample `p`.
pub fn find_firing_corner(table: &HCornerConfig, p: &PointerSample) -> (r: Option<Corner>)
    ensures
        r == firing_corner(table@, *p),
{
    if Corner::TopLeft.contains(p.x, p.y, p.screen_width, p.screen_height)
        && table.top_left.enabled {
        Some(Corner::TopLeft)
    } else if Corner::TopRight.contains(p.x, p.y, p.screen_width, p.screen_height)
        && table.top_right.enabled {
        Some(Corner::TopRight)
    } else if Corner::BottomLeft.contains(p.x, p.y, p.screen_width, p.screen_height)
        && table.bottom_left.enabled {
        Some(Corner::BottomLeft)
    } else if Corner::BottomRight.contains(p.x, p.y, p.screen_width, p.screen_height)
        && table.bottom_right.enabled {
        Some(Corner::BottomRight)
    } else {
        None
    }
}

impl DetectorState {
    /// While a cooldown is recorded, the dwell timer stands at its end.
    pub open spec fn wf(self) -> bool {
        self.suppressed_until matches Some(until) ==> self.last_move_time == until
    }

    /// The state before any sample: a last position that no pointer on the
    /// screen has, so that the first sample counts as movement.
    pub fn new(now: u64) -> (s: DetectorState)
        ensures
            s.last_x == -1,
            s.last_y == -1,
            s.last_move_time == now,
            s.suppressed_until is None,
            s.wf(),
    {
        DetectorState { last_x: -1, last_y: -1, last_move_time: now, suppressed_until: None }
    }

    /// The phase in which sample `p` meets this state.
    pub fn phase(&self, p: &PointerSample) -> (r: Phase)
        ensures
            r == phase_of(*self, *p),
    {
        let suppressed = match self.suppressed_until {
            Some(until) => p.observed_at < until,
            None => false,
        };
        if suppressed {
            Phase::Suppressed
        } else if p.x != self.last_x || p.y != self.last_y {
            Phase::Moving
        } else {
            Phase::DwellPending
        }
    }

    /// Processes one sample: updates the state and reports the corner whose
    /// command is to be launched now, if any.
    pub fn step(&mut self, table: &HCornerConfig, p: &PointerSample) -> (fired: Option<Corner>)
        requires
            p.observed_at + COOLDOWN_MS <= u64::MAX,
        ensures
            fired == fires(*old(self), table@, *p),
            *final(self) == next_state(*old(self), table@, *p),
            old(self).wf() ==> final(self).wf(),
    {
        match self.phase(p) {
            Phase::Suppressed => None,
            Phase::Moving => {
                self.last_x = p.x;
                self.last_y = p.y;
                self.last_move_time = p.observed_at;
                self.suppressed_until = None;
                None
            },
            Phase::DwellPending => {
                let rested = p.observed_at >= self.last_move_time && p.observed_at
                    - self.last_move_time >= DWELL_MS;
                let fired = if rested {
                    find_firing_corner(table, p)
                } else {
                    None
                };
                if fired.is_some() {
                    let until = p.observed_at + COOLDOWN_MS;
                    self.last_move_time = until;
                    self.suppressed_until = Some(until);
                } else {
                    self.suppressed_until = None;
                }
                fired
            },
        }
    }
}

/// What the monitoring loop is to do after one poll of the pointer.
#[derive(Clone, Copy, Debug, PartialEq, Eq)]
pub struct Tick<'a> {
    /// The corner that fired.
    pub fired: Option<Corner>,
    /// The command to launch now: the one configured for the corner that fired.
    pub launch: Option<&'a str>,
    /// How long to pause, in milliseconds, before the next poll.
    pub pause_ms: u64,
}

/// The command that the table selects for a trigger.
pub open spec fn command_for(table: TableView, fired: Option<Corner>) -> Option<Seq<char>> {
    match fired {
        Some(c) => Some(table.slot(c).command),
        None => None,
    }
}

/// Mathematical value of an optional command.
pub open spec fn command_view(launch: Option<&str>) -> Option<Seq<char>> {
    match launch {
        Some(command) => Some(command@),
        None => None,
    }
}

/// The pause that follows a poll: a short retry delay when the poll gave no
/// sample, the cooldown on top of the poll interval after a trigger, and the
/// poll interval otherwise.
pub open spec fn pause_after(sampled: bool, launched: bool) -> int {
    if !sampled {
        RETRY_MS as int
    } else if launched {
        COOLDOWN_MS + POLL_MS
    } else {
        POLL_MS as int
    }
}

/// One iteration of the monitoring loop. A failed poll (`None`) leaves the
/// state untouched and launches nothing; a sample goes through `step`, and a
/// trigger selects its command from the table.
pub fn tick<'a>(
    state: &mut DetectorState,
    table: &'a HCornerConfig,
    sample: Option<PointerSample>,
) -> (t: Tick<'a>)
    requires
        sample matches Some(p) ==> p.observed_at + COOLDOWN_MS <= u64::MAX,
    ensures
        match sample {
            Some(p) => t.fired == fires(*old(state), table@, p) && *final(state) == next_state(
                *old(state),
                table@,
                p,
            ),
            None => t.fired is None && *final(state) == *old(state),
        },
        command_view(t.launch) == command_for(table@, t.fired),
        t.pause_ms == pause_after(sample is Some, t.fired is Some),
{
    match sample {
        Some(p) => {
            match state.step(table, &p) {
                Some(c) => Tick {
                    fired: Some(c),
                    launch: Some(table.slot(c).command.as_str()),
                    pause_ms: COOLDOWN_MS + POLL_MS,
                },
                None => Tick { fired: None, launch: None, pause_ms: POLL_MS },
            }
        },
        None => Tick { fired: None, launch: None, pause_ms: RETRY_MS },
    }
}

} // verus!
