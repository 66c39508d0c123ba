//! How the simulation worker is driven: a flag, shared with the file watcher
//! and with whoever stops the simulation, tells the worker what to do next.

use vstd::prelude::*;

verus! {

/// The worker steps the simulation.
pub const FLAG_RUN: u8 = 0;

/// The worker waits to be woken, then reloads the model if a new one is
/// there.
pub const FLAG_PAUSE: u8 = 1;

/// The worker stops and hands its buffers back.
pub const FLAG_HALT: u8 = 2;

/// What the worker does in one turn of its loop.
#[derive(PartialEq, Eq, Structural, Clone, Copy)]
pub enum SimAction {
    /// Publish the user inputs, step the simulation on them and publish its
    /// output.
    Step,
    /// Wait for a wake-up, then reload the model if the watcher left one.
    AwaitReload,
    /// Leave the loop.
    Halt,
}

/// The action the flag calls for: run steps, pause awaits a reload, and
/// every other value halts.
pub open spec fn action_of(flag: u8) -> SimAction {
    if flag == FLAG_RUN {
        SimAction::Step
    } else if flag == FLAG_PAUSE {
        SimAction::AwaitReload
    } else {
        SimAction::Halt
    }
}

/// The action for the flag the worker has just read.
pub fn action_for_flag(flag: u8) -> (action: SimAction)
    ensures
        action == action_of(flag),
{
    if flag == FLAG_RUN {
        SimAction::Step
    } else if flag == FLAG_PAUSE {
        SimAction::AwaitReload
    } else {
        SimAction::Halt
    }
}

/// The values the flag is ever given: run (at the start), pause (after a
/// model loaded) and halt (when the simulation is stopped).
pub open spec fn is_worker_flag(flag: u8) -> bool {
    flag == FLAG_RUN || flag == FLAG_PAUSE || flag == FLAG_HALT
}

/// The flag after the watcher tried to load a changed model.
pub open spec fn flag_after_load(flag: u8, loaded: bool) -> u8 {
    if loaded {
        FLAG_PAUSE
    } else {
        flag
    }
}

/// Whether the worker goes on after a turn with this action.
pub open spec fn goes_on(action: SimAction, succeeded: bool) -> bool {
    action != SimAction::Halt && succeeded
}

/// The flag after the watcher tried to load a changed model: a model that
/// loaded pauses the worker so that it reloads; a failed load changes
/// nothing.
pub fn flag_after_model_load(flag: u8, loaded: bool) -> (next: u8)
    ensures
        next == flag_after_load(flag, loaded),
        loaded ==> next == FLAG_PAUSE,
        !loaded ==> next == flag,
{
    if loaded {
        FLAG_PAUSE
    } else {
        flag
    }
}

/// Whether the worker goes on after a turn: a step or a reload that failed
/// ends the loop, as does a halt; anything else goes on.
pub fn continues_after(action: SimAction, succeeded: bool) -> (go_on: bool)
    ensures
        go_on == goes_on(action, succeeded),
{
    match action {
        SimAction::Halt => false,
        _ => succeeded,
    }
}

/// The worker's turns: the flag only ever holds run, pause or halt, whatever
/// the watcher's loads do; the worker steps only while the flag says run, so
/// it never steps while paused, and while paused it awaits a reload; any
/// other value ends the loop, and so does a step or a reload that failed.
pub proof fn lemma_worker_turns(flag: u8, loaded: bool, succeeded: bool)
    ensures
        is_worker_flag(flag) ==> is_worker_flag(flag_after_load(flag, loaded)),
        is_worker_flag(FLAG_RUN) && is_worker_flag(FLAG_HALT),
        (action_of(flag) == SimAction::Step) <==> flag == FLAG_RUN,
        flag == FLAG_PAUSE ==> action_of(flag) == SimAction::AwaitReload,
        flag != FLAG_RUN && flag != FLAG_PAUSE ==> !goes_on(action_of(flag), succeeded),
        !succeeded ==> !goes_on(action_of(flag), succeeded),
        flag == FLAG_RUN && succeeded ==> goes_on(action_of(flag), succeeded),
        flag == FLAG_PAUSE && succeeded ==> goes_on(action_of(flag), succeeded),
{
}

} // verus!
