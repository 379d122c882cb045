//! The orchestrator: six stages run strictly in order, any failure is final.
//!
//! The pipeline is GENERATE, WRITE, ENCRYPT, GATE, PUBLISH, AUDIT; success
//! after AUDIT, and failure from any stage, are terminal.  The driver loop
//! performs each stage's outside work and feeds the outcome back through
//! [`step`]; this module proves that the resulting sequencing can never
//! reach publication without encryption having succeeded first.

use vstd::prelude::*;

verus! {

use vstd::string::StringExecFns;
use vstd::utf8::encode_utf8;

/// The six stages, in execution order.
#[derive(Clone, Copy, PartialEq, Eq, Structural, Debug)]
pub enum Stage {
    Generate,
    Write,
    Encrypt,
    Gate,
    Publish,
    Audit,
}

/// The position of a stage in the execution order.
pub open spec fn stage_index(s: Stage) -> int {
    match s {
        Stage::Generate => 0,
        Stage::Write => 1,
        Stage::Encrypt => 2,
        Stage::Gate => 3,
        Stage::Publish => 4,
        Stage::Audit => 5,
    }
}

/// The stage that follows `s`, if any.
pub open spec fn spec_next_stage(s: Stage) -> Option<Stage> {
    match s {
        Stage::Generate => Some(Stage::Write),
        Stage::Write => Some(Stage::Encrypt),
        Stage::Encrypt => Some(Stage::Gate),
        Stage::Gate => Some(Stage::Publish),
        Stage::Publish => Some(Stage::Audit),
        Stage::Audit => None,
    }
}

/// What went wrong: an I/O failure, an external tool failing or missing
/// (with its captured diagnostics), malformed output from a subprocess, or
/// a service that never became ready (reserved for drivers that poll
/// instead of waiting a fixed settle interval).
#[derive(Clone, Copy, PartialEq, Eq, Structural, Debug)]
pub enum ErrorKind {
    Io,
    Tool,
    Encoding,
    Readiness,
}

/// A failure, tagged with the stage that produced it.
#[derive(Clone, Debug)]
pub struct StageError {
    pub stage: Stage,
    pub kind: ErrorKind,
    pub detail: String,
}

/// Where a pipeline invocation stands.
#[derive(Clone, Debug)]
pub enum PipelineState {
    Running(Stage),
    Succeeded,
    Failed(StageError),
}

/// A run's progress with error details abstracted away.
#[derive(Clone, Copy, PartialEq, Eq, Structural, Debug)]
pub enum RunProgress {
    At(Stage),
    Done,
    Stopped(Stage),
}

/// The progress a state represents.
pub open spec fn progress_of(s: PipelineState) -> RunProgress {
    match s {
        PipelineState::Running(st) => RunProgress::At(st),
        PipelineState::Succeeded => RunProgress::Done,
        PipelineState::Failed(e) => RunProgress::Stopped(e.stage),
    }
}

/// How progress advances on one stage outcome; terminal progress is kept.
pub open spec fn advance_progress(p: RunProgress, ok: bool) -> RunProgress {
    match p {
        RunProgress::At(st) => if !ok {
            RunProgress::Stopped(st)
        } else {
            match spec_next_stage(st) {
                Some(n) => RunProgress::At(n),
                None => RunProgress::Done,
            }
        },
        _ => p,
    }
}

/// The progress after a whole sequence of stage outcomes, starting fresh.
pub open spec fn run_trace(outs: Seq<bool>) -> RunProgress
    decreases outs.len(),
{
    if outs.len() == 0 {
        RunProgress::At(Stage::Generate)
    } else {
        advance_progress(run_trace(outs.drop_last()), outs.last())
    }
}

/// The state a fresh invocation starts in.
pub fn initial_state() -> (r: PipelineState)
    ensures
        r == PipelineState::Running(Stage::Generate),
{
    PipelineState::Running(Stage::Generate)
}

/// Advances the pipeline by one stage outcome.  A success moves to the next
/// stage (or to the terminal success after the last); a failure is final and
/// keeps the reported error; terminal states absorb further outcomes.
pub fn step(state: PipelineState, outcome: Result<(), StageError>) -> (r: PipelineState)
    requires
        state matches PipelineState::Running(st) ==> (outcome matches Err(e) ==> e.stage == st),
    ensures
        progress_of(r) == advance_progress(progress_of(state), outcome is Ok),
        state matches PipelineState::Running(st) ==> (outcome matches Err(e) ==> r
            == PipelineState::Failed(e)),
        !(state matches PipelineState::Running(st)) ==> r == state,
{
    match state {
        PipelineState::Running(st) => match outcome {
            Ok(()) => match next_stage(st) {
                Some(n) => PipelineState::Running(n),
                None => PipelineState::Succeeded,
            },
            Err(e) => PipelineState::Failed(e),
        },
        _ => state,
    }
}

/// The stage that follows `s` in execution order, if any.
pub fn next_stage(s: Stage) -> (r: Option<Stage>)
    ensures
        r == spec_next_stage(s),
{
    match s {
        Stage::Generate => Some(Stage::Write),
        Stage::Write => Some(Stage::Encrypt),
        Stage::Encrypt => Some(Stage::Gate),
        Stage::Gate => Some(Stage::Publish),
        Stage::Publish => Some(Stage::Audit),
        Stage::Audit => None,
    }
}

/// A run stands at a stage only when every earlier stage succeeded: the
/// outcome trace is exactly one `true` per completed stage.
pub proof fn lemma_progress_reached(outs: Seq<bool>, st: Stage)
    requires
        run_trace(outs) == RunProgress::At(st),
    ensures
        outs.len() == stage_index(st),
        forall|i: int| 0 <= i < outs.len() ==> outs[i],
    decreases outs.len(),
{
    if outs.len() > 0 {
        let prev = run_trace(outs.drop_last());
        match prev {
            RunProgress::At(p) => {
                assert(outs.last());
                assert(spec_next_stage(p) == Some(st));
                lemma_progress_reached(outs.drop_last(), p);
                assert(stage_index(st) == stage_index(p) + 1);
                assert forall|i: int| 0 <= i < outs.len() implies outs[i] by {
                    if i < outs.len() - 1 {
                        assert(outs[i] == outs.drop_last()[i]);
                    }
                }
            },
            RunProgress::Done => {
                assert(false);
            },
            RunProgress::Stopped(_) => {
                assert(false);
            },
        }
    }
}

/// Publication is reached only after generation, persistence, encryption
/// and the availability gate have all succeeded; in particular the
/// encryption stage completed before anything is published.
pub proof fn lemma_publish_after_encrypt(outs: Seq<bool>)
    requires
        run_trace(outs) == RunProgress::At(Stage::Publish),
    ensures
        outs.len() == 4,
        outs[stage_index(Stage::Encrypt)],
{
    lemma_progress_reached(outs, Stage::Publish);
}

/// Where the pipeline's artifacts live, and how long to let the
/// content-addressable store daemon settle after starting it.
pub struct PipelineConfig {
    pub artifact_path: String,
    pub latest_cid_path: String,
    pub audit_log_path: String,
    pub settle_secs: u64,
}

impl PipelineConfig {
    /// The standard locations under the operator-controlled secure root,
    /// and the documented settle interval of seven seconds.
    pub fn standard() -> (r: Self)
        ensures
            r.artifact_path@ == "/secure/state_hashes/vsc_master_kernel_fingerprint.sha512"@,
            r.latest_cid_path@ == "/secure/state_hashes/_latest_ipfs_fingerprint.cid"@,
            r.audit_log_path@ == "/secure/logs/kernel_resource_enforcement.log"@,
            r.settle_secs == 7,
    {
        PipelineConfig {
            artifact_path: String::from_str(
                "/secure/state_hashes/vsc_master_kernel_fingerprint.sha512",
            ),
            latest_cid_path: String::from_str("/secure/state_hashes/_latest_ipfs_fingerprint.cid"),
            audit_log_path: String::from_str("/secure/logs/kernel_resource_enforcement.log"),
            settle_secs: 7,
        }
    }
}

/// The persisted artifacts as mathematical values: the plaintext artifact,
/// its ciphertext, the latest-pointer file, and the audit log.
pub struct StoreModel {
    pub artifact: Seq<u8>,
    pub encrypted: Seq<u8>,
    pub pointer: Seq<char>,
    pub audit_log: Seq<char>,
}

/// What one successful run persists: the artifact, ciphertext and pointer
/// are overwritten; the audit log is only appended to.
pub open spec fn run_effects(
    s: StoreModel,
    fingerprint: Seq<char>,
    ciphertext: Seq<u8>,
    cid: Seq<char>,
    record: Seq<char>,
) -> StoreModel {
    StoreModel {
        artifact: encode_utf8(fingerprint),
        encrypted: ciphertext,
        pointer: cid,
        audit_log: s.audit_log + record,
    }
}

/// Each run appends exactly its one record to the audit log, which
/// therefore only ever grows, never shrinks or changes past entries.
pub proof fn lemma_run_appends_one_record(
    s: StoreModel,
    fingerprint: Seq<char>,
    ciphertext: Seq<u8>,
    cid: Seq<char>,
    record: Seq<char>,
)
    ensures
        run_effects(s, fingerprint, ciphertext, cid, record).audit_log == s.audit_log + record,
        run_effects(s, fingerprint, ciphertext, cid, record).audit_log.len() == s.audit_log.len()
            + record.len(),
        s.audit_log.is_prefix_of(run_effects(s, fingerprint, ciphertext, cid, record).audit_log),
{
    assert(s.audit_log.is_prefix_of(s.audit_log + record)) by {
        assert((s.audit_log + record).take(s.audit_log.len() as int) =~= s.audit_log);
    }
}

/// Running twice with an unchanged fingerprint overwrites the plaintext
/// artifact with identical bytes; when the cipher and store are also
/// deterministic (equal ciphertext and CID), the ciphertext and pointer are
/// likewise overwritten identically, while the audit log gains exactly one
/// record per run.
pub proof fn lemma_idempotent_overwrite(
    s0: StoreModel,
    fingerprint: Seq<char>,
    c1: Seq<u8>,
    c2: Seq<u8>,
    cid1: Seq<char>,
    cid2: Seq<char>,
    r1: Seq<char>,
    r2: Seq<char>,
)
    ensures
        ({
            let s1 = run_effects(s0, fingerprint, c1, cid1, r1);
            let s2 = run_effects(s1, fingerprint, c2, cid2, r2);
            &&& s2.artifact == s1.artifact
            &&& (c1 == c2 ==> s2.encrypted == s1.encrypted)
            &&& (cid1 == cid2 ==> s2.pointer == s1.pointer)
            &&& s1.audit_log == s0.audit_log + r1
            &&& s2.audit_log == s0.audit_log + r1 + r2
            &&& s2.audit_log.len() == s0.audit_log.len() + r1.len() + r2.len()
        }),
{
}

} // verus!
