//! The audit logger: one immutable record per run, binding the plaintext
//! fingerprint to the published content identifier under a timestamp.  The
//! record's exact shape is a persisted contract that other tooling may
//! parse; the log itself is append-only.

use vstd::prelude::*;

verus! {

use vstd::string::StringExecFns;

/// The record format: a bracketed RFC 3339 timestamp, then the fingerprint
/// and the content identifier under fixed labels, ending in a newline.
pub open spec fn audit_record(ts: Seq<char>, fingerprint: Seq<char>, cid: Seq<char>) -> Seq<char> {
    "["@ + ts + "] Kernel Fingerprint Encrypted & IPFS Synced: HASH="@ + fingerprint + " | CID="@
        + cid + "\n"@
}

/// Relies on `chrono::Utc::now` and `DateTime::to_rfc3339` for the current
/// wall-clock time; nothing is assumed about the value, so everything
/// proved about a record holds whatever the clock said.
#[verifier::external_body]
pub fn utc_now_rfc3339() -> String {
    chrono::Utc::now().to_rfc3339()
}

/// Lays out one audit record from the given timestamp.
pub fn audit_line(ts: &str, fingerprint: &str, cid: &str) -> (r: String)
    ensures
        r@ == audit_record(ts@, fingerprint@, cid@),
{
    let mut s = String::from_str("[");
    s.append(ts);
    s.append("] Kernel Fingerprint Encrypted & IPFS Synced: HASH=");
    s.append(fingerprint);
    s.append(" | CID=");
    s.append(cid);
    s.append("\n");
    s
}

/// Stamps one audit record with the current time.
pub fn make_audit_line(fingerprint: &str, cid: &str) -> (r: String)
    ensures
        exists|ts: Seq<char>| r@ == audit_record(ts, fingerprint@, cid@),
{
    let ts = utc_now_rfc3339();
    let r = audit_line(ts.as_str(), fingerprint, cid);
    proof {
        assert(r@ == audit_record(ts@, fingerprint@, cid@));
    }
    r
}

} // verus!
