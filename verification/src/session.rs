//! The course of a sampling session: which step follows which, and when the
//! session ends. The caller performs each step and reports how it went.

use vstd::prelude::*;
use crate::errors::ErrorKind;
use crate::number::{digits_number, parse_digits, unsigned_part};
use vstd::slice::slice_subrange;

verus! {

/// Seconds between two samples where none are asked for.
pub const DEFAULT_INTERVAL: u64 = 3;

/// Where a session stands.
#[derive(Clone, Copy, Debug, PartialEq, Eq, Structural)]
pub enum State {
    /// The cores are being counted and their first snapshots taken.
    Initializing,
    /// Samples are being taken.
    Running,
    /// No more samples are taken; the statistics are due. `errored` tells
    /// whether a failed sample ended the sampling.
    Draining { errored: bool },
    /// The session is over.
    Terminated,
}

/// What the caller reports after a step.
#[derive(Clone, Copy, Debug, PartialEq, Eq, Structural)]
pub enum Event {
    /// The cores were counted and their first snapshots taken.
    SetupDone,
    /// The setup failed.
    SetupFailed,
    /// The interval has passed; `cancelled` tells whether the session was
    /// asked to stop in the meantime.
    Woke { cancelled: bool },
    /// A sample was taken and recorded.
    Sampled,
    /// A sample could not be taken.
    SampleFailed,
    /// The statistics were computed and reported.
    Reported,
}

/// What the caller is to do next.
#[derive(Clone, Copy, Debug, PartialEq, Eq, Structural)]
pub enum Action {
    /// Wait one interval.
    Sleep,
    /// Take a sample and record it.
    Sample,
    /// Compute and report the statistics of the samples recorded.
    Summarize,
    /// Stop.
    Exit,
}

/// The state and the step that follow an event. After the setup the session
/// waits one interval before its first sample, since a utilization needs
/// two snapshots some time apart. A request to stop is honoured when the
/// session wakes, before the next sample; a sample that has begun is
/// finished. A failed sample ends the sampling. An event that the state does
/// not await ends the session.
pub open spec fn next(state: State, event: Event) -> (State, Action) {
    match (state, event) {
        (State::Initializing, Event::SetupDone) => (State::Running, Action::Sleep),
        (State::Running, Event::Woke { cancelled: false }) => (State::Running, Action::Sample),
        (State::Running, Event::Woke { cancelled: true }) => (
            State::Draining { errored: false },
            Action::Summarize,
        ),
        (State::Running, Event::Sampled) => (State::Running, Action::Sleep),
        (State::Running, Event::SampleFailed) => (
            State::Draining { errored: true },
            Action::Summarize,
        ),
        _ => (State::Terminated, Action::Exit),
    }
}

/// How far a session has come.
pub open spec fn progress(state: State) -> nat {
    match state {
        State::Initializing => 0,
        State::Running => 1,
        State::Draining { .. } => 2,
        State::Terminated => 3,
    }
}

/// Decides the state and the step that follow an event.
pub fn step(state: State, event: Event) -> (r: (State, Action))
    ensures
        r == next(state, event),
{
    match (state, event) {
        (State::Initializing, Event::SetupDone) => (State::Running, Action::Sleep),
        (State::Running, Event::Woke { cancelled }) => if cancelled {
            (State::Draining { errored: false }, Action::Summarize)
        } else {
            (State::Running, Action::Sample)
        },
        (State::Running, Event::Sampled) => (State::Running, Action::Sleep),
        (State::Running, Event::SampleFailed) => (
            State::Draining { errored: true },
            Action::Summarize,
        ),
        _ => (State::Terminated, Action::Exit),
    }
}

/// A session never goes back: each event leaves it where it is or further
/// on, a session that is over stays so, and the step is to stop exactly
/// when the session is over.
pub proof fn session_moves_forward(state: State, event: Event)
    ensures
        progress(next(state, event).0) >= progress(state),
        state == State::Terminated ==> next(state, event).0 == State::Terminated,
        next(state, event).1 == Action::Exit <==> next(state, event).0 == State::Terminated,
        next(state, event).1 == Action::Sample ==> state == State::Running && event == (
        Event::Woke { cancelled: false }),
{
}

/// The interval that an argument asks for: the default where there is no
/// argument or it is no number that fits in `u64`; an error where it is zero.
pub open spec fn interval_of(arg: Option<Seq<u8>>) -> Result<u64, ErrorKind> {
    match arg {
        None => Ok(DEFAULT_INTERVAL),
        Some(text) => match digits_number(unsigned_part(text)) {
            None => Ok(DEFAULT_INTERVAL),
            Some(seconds) => if seconds == 0 {
                Err(ErrorKind::ZeroInterval)
            } else {
                Ok(seconds)
            },
        },
    }
}

/// Chooses the sampling interval, in seconds, from the argument given for
/// it, if any.
pub fn interval_from(arg: Option<&[u8]>) -> (r: Result<u64, ErrorKind>)
    ensures
        r == interval_of(
            match arg {
                Some(text) => Some(text@),
                None => None,
            },
        ),
{
    match arg {
        None => Ok(DEFAULT_INTERVAL),
        Some(text) => {
            let start: usize = if text.len() > 0 && text[0] == 43u8 {
                1
            } else {
                0
            };
            let digits = slice_subrange(text, start, text.len());
            assert(digits@ =~= unsigned_part(text@));
            match parse_digits(digits) {
                None => Ok(DEFAULT_INTERVAL),
                Some(seconds) => if seconds == 0 {
                    Err(ErrorKind::ZeroInterval)
                } else {
                    Ok(seconds)
                },
            }
        },
    }
}

} // verus!
