//! The enumerated severities and states of the governance core: the risk
//! tier assigned to a modification request, the lifecycle status of a
//! request, and the severity level of an audit entry.

use vstd::prelude::*;

verus! {

/// Risk tier assigned to a modification request by the classifier.
#[derive(Clone, Copy, Debug, PartialEq, Eq, Structural)]
pub enum RiskLevel {
    Low,
    Medium,
    High,
    Critical,
}

impl RiskLevel {
    /// Numeric rank of a tier; higher means more severe.
    pub open spec fn rank(self) -> int {
        match self {
            RiskLevel::Low => 0,
            RiskLevel::Medium => 1,
            RiskLevel::High => 2,
            RiskLevel::Critical => 3,
        }
    }

    /// Short tag naming the tier, used when a tier is recorded in an
    /// audit entry.
    pub fn tag(self) -> (r: &'static str)
        ensures
            r@ == self.spec_tag(),
    {
        proof {
            reveal_strlit("low");
            reveal_strlit("medium");
            reveal_strlit("high");
            reveal_strlit("critical");
        }
        match self {
            RiskLevel::Low => "low",
            RiskLevel::Medium => "medium",
            RiskLevel::High => "high",
            RiskLevel::Critical => "critical",
        }
    }

    pub open spec fn spec_tag(self) -> Seq<char> {
        match self {
            RiskLevel::Low => "low"@,
            RiskLevel::Medium => "medium"@,
            RiskLevel::High => "high"@,
            RiskLevel::Critical => "critical"@,
        }
    }
}

/// Lifecycle status of a modification request.
///
/// The only legal movements are `Pending` to `Approved` or `Rejected`,
/// and `Approved` to `Applied`; `Rejected` and `Applied` are terminal.
#[derive(Clone, Copy, Debug, PartialEq, Eq, Structural)]
pub enum ModificationStatus {
    Pending,
    Approved,
    Rejected,
    Applied,
}

impl ModificationStatus {
    /// The transition relation of the request state machine: `self` may
    /// become `next` (staying put is always allowed).
    pub open spec fn can_become(self, next: ModificationStatus) -> bool {
        self == next || (self == ModificationStatus::Pending && (next
            == ModificationStatus::Approved || next == ModificationStatus::Rejected)) || (self
            == ModificationStatus::Approved && next == ModificationStatus::Applied)
    }

    /// Short tag naming the status, used when a transition is recorded
    /// in an audit entry.
    pub fn tag(self) -> (r: &'static str)
        ensures
            r@ == self.spec_tag(),
    {
        proof {
            reveal_strlit("pending");
            reveal_strlit("approved");
            reveal_strlit("rejected");
            reveal_strlit("applied");
        }
        match self {
            ModificationStatus::Pending => "pending",
            ModificationStatus::Approved => "approved",
            ModificationStatus::Rejected => "rejected",
            ModificationStatus::Applied => "applied",
        }
    }

    pub open spec fn spec_tag(self) -> Seq<char> {
        match self {
            ModificationStatus::Pending => "pending"@,
            ModificationStatus::Approved => "approved"@,
            ModificationStatus::Rejected => "rejected"@,
            ModificationStatus::Applied => "applied"@,
        }
    }
}

/// Severity level of an audit log entry.
#[derive(Clone, Copy, Debug, PartialEq, Eq, Structural)]
pub enum LogLevel {
    Info,
    Warning,
    Error,
    Critical,
    Security,
}

impl LogLevel {
    /// Single-character tag written into an encoded audit record.
    pub fn code(self) -> (r: char)
        ensures
            r == self.spec_code(),
    {
        match self {
            LogLevel::Info => 'I',
            LogLevel::Warning => 'W',
            LogLevel::Error => 'E',
            LogLevel::Critical => 'C',
            LogLevel::Security => 'S',
        }
    }

    pub open spec fn spec_code(self) -> char {
        match self {
            LogLevel::Info => 'I',
            LogLevel::Warning => 'W',
            LogLevel::Error => 'E',
            LogLevel::Critical => 'C',
            LogLevel::Security => 'S',
        }
    }
}

} // verus!
