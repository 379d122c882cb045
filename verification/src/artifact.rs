//! The protected writer and the encryptor's plumbing.
//!
//! The writer persists the fingerprint as the entire content of a file
//! whose mode grants access to nobody but the owner; the encryptor derives
//! the ciphertext's path from the artifact's and fixes the non-interactive
//! symmetric invocation of the external cipher tool.  The actual filesystem
//! and subprocess work is the driver's; it executes these plans verbatim.

use vstd::prelude::*;

verus! {

use vstd::string::{StringExecFns, StrSliceExecFns};
use vstd::utf8::encode_utf8;
use crate::pipeline::{Stage, ErrorKind, StageError};

/// A pending file write: where, what, and with which access mode.
pub struct WritePlan {
    pub path: String,
    pub contents: Vec<u8>,
    pub mode: u32,
}

/// The mode's group and other classes grant nothing, and its owner class
/// grants exactly read and write.
pub open spec fn owner_only_rw(mode: u32) -> bool {
    &&& mode & 0o077 == 0
    &&& mode & 0o700 == 0o600
}

/// The protected write: the artifact holds exactly the fingerprint text
/// (no trailing metadata), and only the owning principal may read or write
/// it.
pub fn protected_write_plan(path: &str, fingerprint: &str) -> (r: WritePlan)
    ensures
        r.path@ == path@,
        r.contents@ == encode_utf8(fingerprint@),
        r.mode == 0o600,
        owner_only_rw(r.mode),
{
    proof {
        assert(0o600u32 & 0o077 == 0) by (bit_vector);
        assert(0o600u32 & 0o700 == 0o600) by (bit_vector);
    }
    WritePlan { path: path.to_owned(), contents: fingerprint.as_bytes_vec(), mode: 0o600 }
}

/// The ciphertext's path: the artifact's path with the encryption suffix.
/// It never collides with the plaintext path.
pub fn encrypted_artifact_path(path: &str) -> (r: String)
    ensures
        r@ == path@ + ".gpg"@,
        r@.len() == path@.len() + 4,
        r@ != path@,
{
    proof {
        reveal_strlit(".gpg");
    }
    let mut s = path.to_owned();
    s.append(".gpg");
    s
}

/// The non-interactive symmetric invocation of the external cipher tool:
/// batch mode, overwrite consent, symmetric encryption under AES256, then
/// the file to encrypt.  The passphrase is supplied out of band by the
/// tool's own agent, never by this crate.
pub fn encrypt_command_args(path: &str) -> (r: Vec<String>)
    ensures
        r@.len() == 6,
        r@[0]@ == "--batch"@,
        r@[1]@ == "--yes"@,
        r@[2]@ == "--symmetric"@,
        r@[3]@ == "--cipher-algo"@,
        r@[4]@ == "AES256"@,
        r@[5]@ == path@,
{
    let mut v: Vec<String> = Vec::new();
    v.push(String::from_str("--batch"));
    v.push(String::from_str("--yes"));
    v.push(String::from_str("--symmetric"));
    v.push(String::from_str("--cipher-algo"));
    v.push(String::from_str("AES256"));
    v.push(path.to_owned());
    v
}

/// Judges the cipher tool's exit: success exactly on a zero status, and
/// otherwise a fatal encryption-stage error carrying the tool's
/// diagnostics.
pub fn encrypt_outcome(exit_ok: bool, diagnostics: String) -> (r: Result<(), StageError>)
    ensures
        r is Ok <==> exit_ok,
        r matches Err(e) ==> e.stage == Stage::Encrypt && e.kind == ErrorKind::Tool && e.detail@
            == diagnostics@,
{
    if exit_ok {
        Ok(())
    } else {
        Err(StageError { stage: Stage::Encrypt, kind: ErrorKind::Tool, detail: diagnostics })
    }
}

} // verus!
