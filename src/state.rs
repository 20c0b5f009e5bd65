//! The competition clock: whether scoring runs, and how much time is left.
//! Instants are seconds since the Unix epoch; lengths are seconds.
use vstd::prelude::*;

verus! {

/// `x` held to the range of an `i64`.
pub open spec fn clamp_i64(x: int) -> int {
    if x < i64::MIN {
        i64::MIN as int
    } else if x > i64::MAX {
        i64::MAX as int
    } else {
        x
    }
}

fn clamp_to_i64(x: i128) -> (r: i64)
    ensures
        r == clamp_i64(x as int),
{
    if x < i64::MIN as i128 {
        i64::MIN
    } else if x > i64::MAX as i128 {
        i64::MAX
    } else {
        x as i64
    }
}

/// Whether the competition clock runs.
#[derive(Clone, Copy, Debug, PartialEq, Eq, Structural)]
pub enum EngineState {
    /// Never started.
    Uninitialized,
    /// Running since `time_started`, with `time_remaining_at_start` left then.
    Started { time_started: i64, time_remaining_at_start: i64 },
    /// Paused with `time_remaining` left.
    Stopped { time_remaining: i64 },
}

impl Default for EngineState {
    fn default() -> (r: Self)
        ensures
            r is Uninitialized,
    {
        EngineState::Uninitialized
    }
}

/// The competition clock.
#[derive(Clone, Copy, Debug, PartialEq, Eq, Structural)]
pub struct TimerInner {
    /// The length of the whole competition.
    pub competition_length: i64,
    pub engine_state: EngineState,
}

/// Time left at `now` when `remaining` was left at `started`.
pub open spec fn left_at(remaining: int, started: int, now: int) -> int {
    clamp_i64(remaining - (now - started))
}

impl TimerInner {
    /// A clock for a competition of the given length, not yet started.
    pub fn new(competition_length: i64) -> (r: Self)
        ensures
            r.competition_length == competition_length,
            r.engine_state is Uninitialized,
    {
        TimerInner { competition_length, engine_state: EngineState::Uninitialized }
    }

    /// Starts the clock at `now`, or restarts it where it was paused; a
    /// running clock is left as it is.
    pub fn start(&mut self, now: i64)
        ensures
            final(self).competition_length == old(self).competition_length,
            final(self).engine_state == match old(self).engine_state {
                EngineState::Uninitialized => EngineState::Started {
                    time_started: now,
                    time_remaining_at_start: old(self).competition_length,
                },
                EngineState::Stopped { time_remaining } => EngineState::Started {
                    time_started: now,
                    time_remaining_at_start: time_remaining,
                },
                EngineState::Started { .. } => old(self).engine_state,
            },
    {
        match self.engine_state {
            EngineState::Uninitialized => {
                self.engine_state = EngineState::Started {
                    time_started: now,
                    time_remaining_at_start: self.competition_length,
                };
            },
            EngineState::Stopped { time_remaining } => {
                self.engine_state = EngineState::Started {
                    time_started: now,
                    time_remaining_at_start: time_remaining,
                };
            },
            EngineState::Started { .. } => {},
        }
    }

    /// Pauses a running clock at `now`, keeping the time left; otherwise
    /// nothing changes.
    pub fn stop(&mut self, now: i64)
        ensures
            final(self).competition_length == old(self).competition_length,
            final(self).engine_state == match old(self).engine_state {
                EngineState::Started { time_started, time_remaining_at_start } => EngineState::Stopped {
                    time_remaining: left_at(
                        time_remaining_at_start as int,
                        time_started as int,
                        now as int,
                    ) as i64,
                },
                _ => old(self).engine_state,
            },
    {
        if let EngineState::Started { time_started, time_remaining_at_start } = self.engine_state {
            let left = clamp_to_i64(
                time_remaining_at_start as i128 - (now as i128 - time_started as i128),
            );
            self.engine_state = EngineState::Stopped { time_remaining: left };
        }
    }

    /// Puts the clock back to its state before the first start.
    pub fn reset(&mut self)
        ensures
            final(self).competition_length == old(self).competition_length,
            final(self).engine_state is Uninitialized,
    {
        self.engine_state = EngineState::Uninitialized;
    }

    /// The time left at `now`.
    pub fn time_remaining(&self, now: i64) -> (r: i64)
        ensures
            r == match self.engine_state {
                EngineState::Uninitialized => self.competition_length as int,
                EngineState::Started { time_started, time_remaining_at_start } => left_at(
                    time_remaining_at_start as int,
                    time_started as int,
                    now as int,
                ),
                EngineState::Stopped { time_remaining } => time_remaining as int,
            },
    {
        match self.engine_state {
            EngineState::Uninitialized => self.competition_length,
            EngineState::Started { time_started, time_remaining_at_start } => clamp_to_i64(
                time_remaining_at_start as i128 - (now as i128 - time_started as i128),
            ),
            EngineState::Stopped { time_remaining } => time_remaining,
        }
    }

    /// Whether scoring runs.
    pub fn is_scoring(&self) -> (r: bool)
        ensures
            r == self.engine_state is Started,
    {
        matches!(self.engine_state, EngineState::Started { .. })
    }
}

} // verus!
