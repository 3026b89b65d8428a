//! The display controller's decisions: which backend to render on, and what
//! a poll tick must redo. The loop around them only sleeps, performs I/O and
//! feeds the outcomes back in.

use vstd::prelude::*;
use crate::state::DisplayState;

verus! {

/// Where the controller stands: probing for a hardware surface, rendering on
/// one, or rendering plain text to the terminal.
#[derive(Clone, Copy, Debug, PartialEq, Eq, Structural)]
pub enum Backend {
    ProbingHardware,
    RenderingHardware,
    RenderingTerminal,
}

/// What the outside world reported: the device node is absent, bringing the
/// hardware surface up failed (probe, mapping or a sync), or it is up with
/// its first frame flushed.
#[derive(Clone, Copy, Debug, PartialEq, Eq, Structural)]
pub enum BackendEvent {
    DeviceAbsent,
    HardwareFailed,
    HardwareReady,
}

/// The backend transition: any hardware failure falls back to the terminal
/// and is never fatal; a terminal tick that finds a working device moves to
/// hardware; the hardware state leaves only on a failure.
pub open spec fn next_backend_spec(current: Backend, ev: BackendEvent) -> Backend {
    match current {
        Backend::ProbingHardware => if ev is HardwareReady {
            Backend::RenderingHardware
        } else {
            Backend::RenderingTerminal
        },
        Backend::RenderingTerminal => if ev is HardwareReady {
            Backend::RenderingHardware
        } else {
            Backend::RenderingTerminal
        },
        Backend::RenderingHardware => if ev is HardwareFailed {
            Backend::RenderingTerminal
        } else {
            Backend::RenderingHardware
        },
    }
}

/// Advance the backend state machine on an outside event.
pub fn next_backend(current: Backend, ev: BackendEvent) -> (next: Backend)
    ensures
        next == next_backend_spec(current, ev),
        !(next is ProbingHardware),
{
    match current {
        Backend::ProbingHardware => {
            if let BackendEvent::HardwareReady = ev {
                Backend::RenderingHardware
            } else {
                Backend::RenderingTerminal
            }
        },
        Backend::RenderingTerminal => {
            if let BackendEvent::HardwareReady = ev {
                Backend::RenderingHardware
            } else {
                Backend::RenderingTerminal
            }
        },
        Backend::RenderingHardware => {
            if let BackendEvent::HardwareFailed = ev {
                Backend::RenderingTerminal
            } else {
                Backend::RenderingHardware
            }
        },
    }
}

/// What one poll tick decided: whether anything changed since the last
/// rendered snapshot, and whether the QR symbol must be re-encoded.
#[derive(Clone, Copy, Debug, PartialEq, Eq, Structural)]
pub struct TickDecision {
    pub redraw: bool,
    pub reencode: bool,
}

/// Compare a fresh snapshot against the last rendered one: redraw exactly
/// when some field changed, re-encode the QR symbol exactly when the login
/// payload changed. Re-encoding implies redrawing.
pub fn decide_tick(last: &DisplayState, new: &DisplayState) -> (d: TickDecision)
    ensures
        d.redraw == !new.state_eq(*last),
        d.reencode == (new.login_json@ != last.login_json@),
        d.reencode ==> d.redraw,
{
    let redraw = new.has_changed(last);
    let reencode = !crate::ansi::str_eq(new.login_json.as_str(), last.login_json.as_str());
    TickDecision { redraw, reencode }
}

/// An unchanged snapshot never causes a redraw, and a redraw without a
/// payload change never re-encodes: the diff-before-redraw contract.
pub proof fn lemma_tick_skips_unchanged(last: DisplayState, new: DisplayState, d: TickDecision)
    requires
        d.redraw == !new.state_eq(last),
        d.reencode == (new.login_json@ != last.login_json@),
    ensures
        new.state_eq(last) ==> !d.redraw && !d.reencode,
        !d.redraw ==> !d.reencode,
{
}

} // verus!
