//! The pure decision logic of the channel listeners: what each listener
//! answers, broadcasts and does for every event it can receive.

use vstd::prelude::*;

use crate::handlers::shell::Cell;
use crate::messages::Shutdown;

pub mod control;
pub mod shell;
pub mod stream;

verus! {

/// What a listener's loop does next after an event.
#[derive(Debug, Clone, Copy, PartialEq, Eq, Structural)]
pub enum LoopDirective {
    Exit,
    Reset,
    Proceed,
}

/// How every listener reacts to the shutdown signal: stop on a plain
/// shutdown, reset and keep serving on a restart.
pub fn shutdown_directive(s: Shutdown) -> (r: LoopDirective)
    ensures
        r == (if s.restart {
            LoopDirective::Reset
        } else {
            LoopDirective::Exit
        }),
{
    if s.restart {
        LoopDirective::Reset
    } else {
        LoopDirective::Exit
    }
}

/// The Heartbeat listener's whole behaviour: every received frame list
/// goes back unchanged, byte for byte.
pub fn heartbeat_echo(frames: Vec<Vec<u8>>) -> (r: Vec<Vec<u8>>)
    ensures
        r == frames,
{
    frames
}

/// How the Shell listener applies the shutdown signal: a plain
/// shutdown stops the loop; a restart resets the cell tracker to its
/// initial counters (the engine state is reset alongside by the
/// caller) and keeps serving.
pub fn apply_shutdown(cell: &mut Cell, s: Shutdown) -> (r: LoopDirective)
    ensures
        s.restart ==> r == LoopDirective::Reset && final(cell).execution_counter == 1
            && final(cell).retry_counter == 1,
        !s.restart ==> r == LoopDirective::Exit && *final(cell) == *old(cell),
{
    if s.restart {
        let fresh = Cell::new();
        *cell = fresh;
        LoopDirective::Reset
    } else {
        LoopDirective::Exit
    }
}

} // verus!
