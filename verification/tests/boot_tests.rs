use kernel_fingerprint::integrity::{hash_pass, status, verify};
use kernel_fingerprint::schema::{
    AIModelDescriptor, BootConfig, ComplianceConfig, CryptoProfile, EnforcementLayer,
    FileSystemConfig,
};

#[test]
fn integrity_chain_reports_intact() {
    assert!(hash_pass());
    assert!(verify().is_ok());
    assert_eq!(status(), "SECURE | READY | CHAINED");
}

#[test]
fn boot_config_round_trips_its_fields() {
    let config = BootConfig {
        enforcement: EnforcementLayer {
            restrict_shell: true,
            lock_resources: true,
            harden_kernel: true,
        },
        ai_models: vec![AIModelDescriptor {
            name: "APU-3.0",
            version: "v1.68.2",
            security_level: 5,
            isolated: true,
        }],
        filesystem: FileSystemConfig {
            mount_at: "/secure_data",
            encryption: CryptoProfile { algorithm: "PQ-AES-256-GCM", quantum_resistant: true },
        },
        compliance: ComplianceConfig { gdpr: true, ccpa: true, audit_log: true },
    };
    assert!(config.enforcement.harden_kernel);
    assert_eq!(config.ai_models.len(), 1);
    assert_eq!(config.ai_models[0].name, "APU-3.0");
    assert_eq!(config.ai_models[0].security_level, 5);
    assert_eq!(config.filesystem.mount_at, "/secure_data");
    assert_eq!(config.filesystem.encryption.algorithm, "PQ-AES-256-GCM");
    assert!(config.compliance.audit_log);
}
