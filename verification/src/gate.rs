//! The availability gate: decides, from the driver's probes, whether the
//! content-addressable store can be used, must first be initialized, or is
//! missing altogether.  The pipeline never installs software; a missing
//! binary is reported for manual installation.

use vstd::prelude::*;

verus! {

use vstd::string::StringExecFns;
use crate::pipeline::{Stage, ErrorKind, StageError};

/// The availability outcome for the store daemon.
#[derive(Clone, Copy, PartialEq, Eq, Structural, Debug)]
pub enum GatePlan {
    MissingBinary,
    InitThenStart,
    StartOnly,
}

/// Maps the two probe results to an availability outcome: a failed
/// version probe means the binary is missing; an absent data directory
/// calls for `init` before the daemon starts; otherwise the daemon can
/// start at once.
pub fn gate_plan(version_ok: bool, repo_initialized: bool) -> (r: GatePlan)
    ensures
        r == GatePlan::MissingBinary <==> !version_ok,
        r == GatePlan::InitThenStart <==> version_ok && !repo_initialized,
        r == GatePlan::StartOnly <==> version_ok && repo_initialized,
{
    if !version_ok {
        GatePlan::MissingBinary
    } else if !repo_initialized {
        GatePlan::InitThenStart
    } else {
        GatePlan::StartOnly
    }
}

/// Judges the version probe: success exactly when the binary answered;
/// otherwise the fatal gate-stage report that manual installation is
/// required.
pub fn probe_outcome(version_ok: bool) -> (r: Result<(), StageError>)
    ensures
        r is Ok <==> version_ok,
        r matches Err(e) ==> e.stage == Stage::Gate && e.kind == ErrorKind::Tool && e.detail@
            == "store binary not installed; manual installation required"@,
{
    if version_ok {
        Ok(())
    } else {
        Err(
            StageError {
                stage: Stage::Gate,
                kind: ErrorKind::Tool,
                detail: String::from_str(
                    "store binary not installed; manual installation required",
                ),
            },
        )
    }
}

/// Judges the store's `init`: success exactly on a zero exit status.
pub fn init_outcome(exit_ok: bool) -> (r: Result<(), StageError>)
    ensures
        r is Ok <==> exit_ok,
        r matches Err(e) ==> e.stage == Stage::Gate && e.kind == ErrorKind::Tool && e.detail@
            == "store initialization failed"@,
{
    if exit_ok {
        Ok(())
    } else {
        Err(
            StageError {
                stage: Stage::Gate,
                kind: ErrorKind::Tool,
                detail: String::from_str("store initialization failed"),
            },
        )
    }
}

/// Judges the daemon spawn: success exactly when the process could be
/// started.  The driver then waits the configured settle interval before
/// publishing.
pub fn daemon_outcome(spawn_ok: bool) -> (r: Result<(), StageError>)
    ensures
        r is Ok <==> spawn_ok,
        r matches Err(e) ==> e.stage == Stage::Gate && e.kind == ErrorKind::Io && e.detail@
            == "failed to start store daemon"@,
{
    if spawn_ok {
        Ok(())
    } else {
        Err(
            StageError {
                stage: Stage::Gate,
                kind: ErrorKind::Io,
                detail: String::from_str("failed to start store daemon"),
            },
        )
    }
}

} // verus!
