use kernel_fingerprint::artifact::{
    encrypt_command_args, encrypt_outcome, encrypted_artifact_path, protected_write_plan,
};
use kernel_fingerprint::audit::{audit_line, make_audit_line, utc_now_rfc3339};
use kernel_fingerprint::gate::{daemon_outcome, gate_plan, init_outcome, probe_outcome, GatePlan};
use kernel_fingerprint::pipeline::{
    initial_state, next_stage, step, ErrorKind, PipelineConfig, PipelineState, Stage, StageError,
};
use kernel_fingerprint::publish::{parse_cid, publish_command_args};
use kernel_fingerprint::fingerprint::{generate_fingerprint, FileEntry};

#[test]
fn protected_write_plan_restricts_mode_to_owner() {
    let plan = protected_write_plan("/secure/state_hashes/fp.sha512", "abc123");
    assert_eq!(plan.mode, 0o600);
    assert_eq!(plan.mode & 0o077, 0);
    assert_eq!(plan.path, "/secure/state_hashes/fp.sha512");
    assert_eq!(plan.contents, b"abc123".to_vec());
}

#[test]
fn encrypted_path_is_sibling_with_suffix() {
    let p = encrypted_artifact_path("/secure/state_hashes/fp.sha512");
    assert_eq!(p, "/secure/state_hashes/fp.sha512.gpg");
    assert_ne!(p, "/secure/state_hashes/fp.sha512");
}

#[test]
fn encrypt_invocation_is_batch_symmetric_aes256() {
    let args = encrypt_command_args("/secure/state_hashes/fp.sha512");
    assert_eq!(
        args,
        vec![
            String::from("--batch"),
            String::from("--yes"),
            String::from("--symmetric"),
            String::from("--cipher-algo"),
            String::from("AES256"),
            String::from("/secure/state_hashes/fp.sha512"),
        ]
    );
}

#[test]
fn encrypt_outcome_maps_exit_status() {
    assert!(encrypt_outcome(true, String::new()).is_ok());
    let e = encrypt_outcome(false, String::from("bad passphrase")).unwrap_err();
    assert_eq!(e.stage, Stage::Encrypt);
    assert_eq!(e.kind, ErrorKind::Tool);
    assert_eq!(e.detail, "bad passphrase");
}

#[test]
fn gate_plan_covers_all_probe_results() {
    assert_eq!(gate_plan(false, false), GatePlan::MissingBinary);
    assert_eq!(gate_plan(false, true), GatePlan::MissingBinary);
    assert_eq!(gate_plan(true, false), GatePlan::InitThenStart);
    assert_eq!(gate_plan(true, true), GatePlan::StartOnly);
}

#[test]
fn gate_outcomes_report_their_stage() {
    assert!(probe_outcome(true).is_ok());
    let e = probe_outcome(false).unwrap_err();
    assert_eq!(e.stage, Stage::Gate);
    assert_eq!(e.kind, ErrorKind::Tool);
    assert!(init_outcome(true).is_ok());
    let e = init_outcome(false).unwrap_err();
    assert_eq!(e.stage, Stage::Gate);
    assert_eq!(e.kind, ErrorKind::Tool);
    assert!(daemon_outcome(true).is_ok());
    let e = daemon_outcome(false).unwrap_err();
    assert_eq!(e.stage, Stage::Gate);
    assert_eq!(e.kind, ErrorKind::Io);
}

#[test]
fn parse_cid_trims_whitespace() {
    let cid = parse_cid(b" \tQmYwAPJzv5CZsnA625s3Xf2nemtYgPpHdWEz79ojWnPbdG\n".to_vec()).unwrap();
    assert_eq!(cid, "QmYwAPJzv5CZsnA625s3Xf2nemtYgPpHdWEz79ojWnPbdG");
}

#[test]
fn parse_cid_rejects_empty_output() {
    let e = parse_cid(Vec::new()).unwrap_err();
    assert_eq!(e.stage, Stage::Publish);
    assert_eq!(e.kind, ErrorKind::Tool);
    let e = parse_cid(b" \n\t ".to_vec()).unwrap_err();
    assert_eq!(e.stage, Stage::Publish);
    assert_eq!(e.kind, ErrorKind::Tool);
}

#[test]
fn parse_cid_rejects_malformed_utf8() {
    let e = parse_cid(vec![0xff, 0xfe, 0x51]).unwrap_err();
    assert_eq!(e.stage, Stage::Publish);
    assert_eq!(e.kind, ErrorKind::Encoding);
}

#[test]
fn publish_invocation_is_quiet_short_form() {
    let args = publish_command_args("/secure/state_hashes/fp.sha512.gpg");
    assert_eq!(
        args,
        vec![
            String::from("add"),
            String::from("-Q"),
            String::from("/secure/state_hashes/fp.sha512.gpg"),
        ]
    );
}

#[test]
fn publisher_is_handed_the_encrypted_path_only() {
    // The publish stage is reached only downstream of encryption, and the
    // submission names the ciphertext's path, never the plaintext's.
    let plain = "/secure/state_hashes/fp.sha512";
    let encrypted = encrypted_artifact_path(plain);
    let args = publish_command_args(&encrypted);
    assert_eq!(args[2], encrypted);
    assert_ne!(args[2], plain);
}

#[test]
fn audit_line_has_the_exact_persisted_shape() {
    let line = audit_line(
        "2025-01-01T00:00:00+00:00",
        "cafe",
        "QmYwAPJzv5CZsnA625s3Xf2nemtYgPpHdWEz79ojWnPbdG",
    );
    assert_eq!(
        line,
        "[2025-01-01T00:00:00+00:00] Kernel Fingerprint Encrypted & IPFS Synced: \
         HASH=cafe | CID=QmYwAPJzv5CZsnA625s3Xf2nemtYgPpHdWEz79ojWnPbdG\n"
    );
}

#[test]
fn stamped_audit_line_carries_a_real_timestamp() {
    let line = make_audit_line("cafe", "QmX");
    assert!(line.starts_with('['));
    assert!(line.ends_with("HASH=cafe | CID=QmX\n"));
    let close = line.find(']').unwrap();
    let ts = &line[1..close];
    assert!(chrono::DateTime::parse_from_rfc3339(ts).is_ok());
}

#[test]
fn clock_wrapper_yields_rfc3339() {
    let now = utc_now_rfc3339();
    assert!(chrono::DateTime::parse_from_rfc3339(&now).is_ok());
}

#[test]
fn stages_run_in_documented_order() {
    assert_eq!(next_stage(Stage::Generate), Some(Stage::Write));
    assert_eq!(next_stage(Stage::Write), Some(Stage::Encrypt));
    assert_eq!(next_stage(Stage::Encrypt), Some(Stage::Gate));
    assert_eq!(next_stage(Stage::Gate), Some(Stage::Publish));
    assert_eq!(next_stage(Stage::Publish), Some(Stage::Audit));
    assert_eq!(next_stage(Stage::Audit), None);
}

#[test]
fn all_successes_reach_the_terminal_success() {
    let mut state = initial_state();
    for _ in 0..6 {
        state = step(state, Ok(()));
    }
    assert!(matches!(state, PipelineState::Succeeded));
    // Terminal states absorb further outcomes.
    state = step(state, Ok(()));
    assert!(matches!(state, PipelineState::Succeeded));
}

#[test]
fn a_failure_is_final_and_tagged_with_its_stage() {
    let mut state = initial_state();
    state = step(state, Ok(()));
    state = step(state, Ok(()));
    // Now at the encryption stage; its failure stops the run for good.
    state = step(
        state,
        Err(StageError {
            stage: Stage::Encrypt,
            kind: ErrorKind::Tool,
            detail: String::from("gpg exited nonzero"),
        }),
    );
    match &state {
        PipelineState::Failed(e) => {
            assert_eq!(e.stage, Stage::Encrypt);
            assert_eq!(e.kind, ErrorKind::Tool);
            assert_eq!(e.detail, "gpg exited nonzero");
        }
        other => panic!("expected failure, got {:?}", other),
    }
    let state = step(state, Ok(()));
    assert!(matches!(state, PipelineState::Failed(_)));
}

#[test]
fn rerunning_an_unchanged_tree_overwrites_identically_and_appends() {
    let tree = || {
        vec![
            FileEntry { path: b"a.txt".to_vec(), content: b"hello".to_vec() },
            FileEntry { path: b"b.txt".to_vec(), content: b"world".to_vec() },
        ]
    };
    let fp1 = generate_fingerprint(tree());
    let fp2 = generate_fingerprint(tree());
    // The overwritten artifact and pointer carry identical bytes.
    let plan1 = protected_write_plan("/secure/fp", &fp1);
    let plan2 = protected_write_plan("/secure/fp", &fp2);
    assert_eq!(plan1.contents, plan2.contents);
    assert_eq!(encrypted_artifact_path("/secure/fp"), encrypted_artifact_path("/secure/fp"));
    // The audit log gains exactly one record per run and never shrinks.
    let mut log = String::new();
    log.push_str(&audit_line("2025-01-01T00:00:00+00:00", &fp1, "QmX"));
    let after_one = log.clone();
    log.push_str(&audit_line("2025-01-01T00:05:00+00:00", &fp2, "QmX"));
    assert!(log.starts_with(&after_one));
    assert_eq!(after_one.matches('\n').count(), 1);
    assert_eq!(log.matches('\n').count(), 2);
}

#[test]
fn standard_config_uses_the_secure_root() {
    let cfg = PipelineConfig::standard();
    assert_eq!(cfg.artifact_path, "/secure/state_hashes/vsc_master_kernel_fingerprint.sha512");
    assert_eq!(cfg.latest_cid_path, "/secure/state_hashes/_latest_ipfs_fingerprint.cid");
    assert_eq!(cfg.audit_log_path, "/secure/logs/kernel_resource_enforcement.log");
    assert_eq!(cfg.settle_secs, 7);
}
