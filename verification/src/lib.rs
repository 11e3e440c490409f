//! Governance-and-audit core: an authenticated approval workflow for
//! privileged modification requests, a rule-based risk classifier, an
//! admin auth guard with brute-force lockout, and a durable rotating
//! audit log that records every security-relevant decision.

pub mod audit;
pub mod auth;
pub mod classify;
pub mod decode;
pub mod errors;
pub mod record;
pub mod security;
pub mod text;
pub mod tier;

pub use audit::AuditLogger;
pub use audit::LogArchive;
pub use audit::LogEffect;
pub use audit::LogStatistics;
pub use auth::AuthGuard;
pub use auth::SecuritySettings;
pub use auth::VerifyOutcome;
pub use auth::digest_secret;
pub use classify::SecurityRule;
pub use classify::default_security_rules;
pub use decode::decode_record;
pub use errors::GovernError;
pub use record::AuditLogEntry;
pub use record::encode_record;
pub use security::CodeModificationRequest;
pub use security::SecurityManager;
pub use tier::LogLevel;
pub use tier::ModificationStatus;
pub use tier::RiskLevel;
