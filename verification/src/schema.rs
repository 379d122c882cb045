//! Configuration records for the secure-boot collaborators that may invoke
//! the fingerprint pipeline.  These are plain data; the pipeline itself does
//! not read them.

use vstd::prelude::*;

verus! {

/// Top-level boot configuration handed to the boot sequence.
pub struct BootConfig {
    pub enforcement: EnforcementLayer,
    pub ai_models: Vec<AIModelDescriptor>,
    pub filesystem: FileSystemConfig,
    pub compliance: ComplianceConfig,
}

/// Which hardening measures the boot sequence applies.
pub struct EnforcementLayer {
    pub restrict_shell: bool,
    pub lock_resources: bool,
    pub harden_kernel: bool,
}

/// A model slot announced during boot.
pub struct AIModelDescriptor {
    pub name: &'static str,
    pub version: &'static str,
    pub security_level: u8,
    pub isolated: bool,
}

/// Where the secure data volume is mounted and how it is encrypted.
pub struct FileSystemConfig {
    pub mount_at: &'static str,
    pub encryption: CryptoProfile,
}

/// The cipher the secure data volume uses.
pub struct CryptoProfile {
    pub algorithm: &'static str,
    pub quantum_resistant: bool,
}

/// Which compliance regimes are switched on.
pub struct ComplianceConfig {
    pub gdpr: bool,
    pub ccpa: bool,
    pub audit_log: bool,
}

} // verus!
