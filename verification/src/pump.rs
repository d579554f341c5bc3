//! The decision core of the background reader pump. The pump itself
//! blocks on pseudo-terminal reads in a dedicated task and forwards
//! chunks over a bounded channel; what it decides at each turn is a
//! pure function of the read's outcome, stated here.

use vstd::prelude::*;

verus! {

/// What one read from the pty master yielded, as plain values.
#[derive(Debug, Clone, Copy, PartialEq, Eq, Structural)]
pub enum ReadOutcome {
    /// The read returned this many bytes; zero means end of file.
    Read(usize),
    /// The read would have blocked.
    WouldBlock,
    /// The read failed with any other error.
    Failed,
}

/// What the pump does next.
#[derive(Debug, Clone, Copy, PartialEq, Eq, Structural)]
pub enum PumpAction {
    /// Forward this many bytes to the channel, then continue.
    Forward(usize),
    /// Sleep briefly, then retry the read.
    Backoff,
    /// Exit the pump: the session ended or cannot be read further.
    Stop,
    /// Go straight to the next read.
    Continue,
}

/// Decides the pump's next step from one read outcome: data is
/// forwarded, end of file and read errors end the pump, and a read
/// that would block backs off and retries.
pub fn pump_step(outcome: ReadOutcome) -> (r: PumpAction)
    ensures
        r == (match outcome {
            ReadOutcome::Read(n) => if n == 0 { PumpAction::Stop } else { PumpAction::Forward(n) },
            ReadOutcome::WouldBlock => PumpAction::Backoff,
            ReadOutcome::Failed => PumpAction::Stop,
        }),
{
    match outcome {
        ReadOutcome::Read(n) => {
            if n == 0 {
                PumpAction::Stop
            } else {
                PumpAction::Forward(n)
            }
        },
        ReadOutcome::WouldBlock => PumpAction::Backoff,
        ReadOutcome::Failed => PumpAction::Stop,
    }
}

/// Decides what follows a forward: the pump continues while the
/// receiving side is still there and stops once it is gone.
pub fn after_forward(receiver_alive: bool) -> (r: PumpAction)
    ensures
        r == (if receiver_alive { PumpAction::Continue } else { PumpAction::Stop }),
{
    if receiver_alive {
        PumpAction::Continue
    } else {
        PumpAction::Stop
    }
}

/// The default geometry a new pty is opened with: rows, columns and
/// pixel sizes.
pub fn default_geometry() -> (r: (u16, u16, u16, u16))
    ensures
        r == (24u16, 80u16, 0u16, 0u16),
{
    (24, 80, 0, 0)
}

} // verus!
