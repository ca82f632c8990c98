//! The launch state machine: the decision core of `start`.
//!
//! Discovering the child's port takes a spawn and then an unbounded-looking
//! sequence of file reads. All the outside work (creating the handshake
//! file, forking, sleeping, reading) happens in unverified glue; every
//! decision about what an event means happens here. The glue holds a
//! `LaunchState`, performs the action the state calls for, and hands the
//! resulting `LaunchEvent` to `step`, which is verified to follow
//! `step_spec` exactly.
//!
//! A poll budget is threaded through the states so that a child that never
//! writes a complete record cannot block the caller forever: each read of a
//! still-incomplete record spends one unit, and an incomplete read with an
//! exhausted budget fails with `TimedOut`.

use vstd::prelude::*;

use crate::record::record_complete;
use crate::record::scan_record;
use crate::record::scan_spec;
use crate::record::ScanOutcome;

verus! {

/// A request to launch one child worker: the command naming the executable
/// to spawn. The spawner passes the handshake file's path to this command
/// through the `--port-filename` argument.
pub struct Launcher {
    pub command: String,
}

/// Why a launch failed, each distinct from every legitimate port.
#[derive(Clone, Copy, Debug, PartialEq, Eq, Structural)]
pub enum LaunchError {
    /// The child process could not be spawned; never retried.
    SpawnFailed,
    /// The handshake file could not be read mid-poll; never retried.
    ReadFailed,
    /// The record completed without any `sock` line: a protocol violation
    /// by the child, treated as terminal rather than as "still writing".
    MissingSock,
    /// The record completed but its first `sock` value is not a
    /// nonnegative integer that fits in an `i32`.
    BadPortValue,
    /// The poll budget ran out before a complete record appeared.
    TimedOut,
}

/// Where a launch stands. The number carried by `Spawning` and `Polling` is
/// the remaining poll budget.
#[derive(Clone, Copy, Debug, PartialEq, Eq, Structural)]
pub enum LaunchState {
    /// The child has not been spawned yet.
    Spawning(u32),
    /// The child is running and the handshake file is being polled.
    Polling(u32),
    /// The port is resolved: the launch succeeded.
    Done(i32),
    /// The launch failed; the error says why.
    Failed(LaunchError),
}

/// What the outside world reported back: the result of a spawn attempt or
/// of one full read of the handshake file.
pub enum LaunchEvent {
    /// The child process was spawned.
    SpawnOk,
    /// The spawn failed.
    SpawnErr,
    /// One full read of the handshake file returned these bytes.
    ReadOk(Vec<u8>),
    /// A read of the handshake file failed.
    ReadErr,
}

/// The transition relation of the launch. `Done` and `Failed` are
/// absorbing; an event that does not belong to the current state leaves it
/// unchanged.
pub open spec fn step_spec(state: LaunchState, event: LaunchEvent) -> LaunchState {
    match (state, event) {
        (LaunchState::Spawning(k), LaunchEvent::SpawnOk) => LaunchState::Polling(k),
        (LaunchState::Spawning(_), LaunchEvent::SpawnErr) => LaunchState::Failed(
            LaunchError::SpawnFailed,
        ),
        (LaunchState::Polling(k), LaunchEvent::ReadOk(content)) => match scan_spec(content@) {
            ScanOutcome::Incomplete => if k == 0 {
                LaunchState::Failed(LaunchError::TimedOut)
            } else {
                LaunchState::Polling((k - 1) as u32)
            },
            ScanOutcome::Resolved(p) => LaunchState::Done(p),
            ScanOutcome::MissingKey => LaunchState::Failed(LaunchError::MissingSock),
            ScanOutcome::BadValue => LaunchState::Failed(LaunchError::BadPortValue),
        },
        (LaunchState::Polling(_), LaunchEvent::ReadErr) => LaunchState::Failed(
            LaunchError::ReadFailed,
        ),
        (s, _) => s,
    }
}

/// A read of a still-incomplete record never resolves the launch: with
/// budget left the machine simply polls again, and with the budget
/// exhausted it fails with `TimedOut`; in neither case does it reach
/// `Done`, so only a later, complete read can resolve the call.
pub proof fn lemma_incomplete_read_never_done(k: u32, event: LaunchEvent)
    requires
        event matches LaunchEvent::ReadOk(c) && !record_complete(c@),
    ensures
        k > 0 ==> step_spec(LaunchState::Polling(k), event) == LaunchState::Polling(
            (k - 1) as u32,
        ),
        k == 0 ==> step_spec(LaunchState::Polling(k), event) == LaunchState::Failed(
            LaunchError::TimedOut,
        ),
        !(step_spec(LaunchState::Polling(k), event) is Done),
{
}

/// A read whose record scans to a port resolves the launch to exactly that
/// port, whatever poll budget remains.
pub proof fn lemma_resolved_read_is_done(k: u32, event: LaunchEvent, p: i32)
    requires
        event matches LaunchEvent::ReadOk(c) && scan_spec(c@) == ScanOutcome::Resolved(p),
    ensures
        step_spec(LaunchState::Polling(k), event) == LaunchState::Done(p),
{
}

/// A launch only ever resolves to a nonnegative port: success and failure
/// are distinct, and no failure can surface as a port number.
pub proof fn lemma_done_port_nonnegative(k: u32, event: LaunchEvent, p: i32)
    requires
        step_spec(LaunchState::Polling(k), event) == LaunchState::Done(p),
    ensures
        p >= 0,
{
    match event {
        LaunchEvent::ReadOk(c) => {
            crate::record::lemma_resolved_port_nonnegative(c@, p);
        },
        _ => {
        },
    }
}

/// Advances the launch by one event, exactly as `step_spec` describes.
pub fn step(state: LaunchState, event: LaunchEvent) -> (next: LaunchState)
    ensures
        next == step_spec(state, event),
{
    match (state, &event) {
        (LaunchState::Spawning(k), LaunchEvent::SpawnOk) => LaunchState::Polling(k),
        (LaunchState::Spawning(_), LaunchEvent::SpawnErr) => LaunchState::Failed(
            LaunchError::SpawnFailed,
        ),
        (LaunchState::Polling(k), LaunchEvent::ReadOk(content)) => match scan_record(
            content.as_slice(),
        ) {
            ScanOutcome::Incomplete => if k == 0 {
                LaunchState::Failed(LaunchError::TimedOut)
            } else {
                LaunchState::Polling(k - 1)
            },
            ScanOutcome::Resolved(p) => LaunchState::Done(p),
            ScanOutcome::MissingKey => LaunchState::Failed(LaunchError::MissingSock),
            ScanOutcome::BadValue => LaunchState::Failed(LaunchError::BadPortValue),
        },
        (LaunchState::Polling(_), LaunchEvent::ReadErr) => LaunchState::Failed(
            LaunchError::ReadFailed,
        ),
        (s, _) => s,
    }
}

} // verus!
