//! The error taxonomy of the governance core.

use vstd::prelude::*;

verus! {

/// Every way an operation of the governance core can fail.
///
/// Authorization and state-transition failures are deliberate business
/// outcomes returned to the immediate caller; `StorageFailure` is
/// reserved for the durability layer around the library, which must
/// surface an audit write that did not reach storage as a hard error.
#[derive(Clone, Copy, Debug, PartialEq, Eq, Structural)]
pub enum GovernError {
    /// The presented secret does not match the stored reference secret.
    Unauthorized,
    /// The identity is temporarily locked out after repeated failures.
    LockedOut,
    /// A transition that needs a `Pending` request found another status.
    NotPending,
    /// A transition that needs an `Approved` request found another status.
    NotApproved,
    /// No request carries the given id.
    NotFound,
    /// An enabled rule with the same name is already registered.
    DuplicateRule,
    /// An audit record could not be made durable.
    StorageFailure,
}

impl GovernError {
    /// Short tag naming the error, used when a failed attempt is
    /// recorded in an audit entry.
    pub fn tag(self) -> (r: &'static str)
        ensures
            r@ == self.spec_tag(),
    {
        proof {
            reveal_strlit("unauthorized");
            reveal_strlit("locked_out");
            reveal_strlit("not_pending");
            reveal_strlit("not_approved");
            reveal_strlit("not_found");
            reveal_strlit("duplicate_rule");
            reveal_strlit("storage_failure");
        }
        match self {
            GovernError::Unauthorized => "unauthorized",
            GovernError::LockedOut => "locked_out",
            GovernError::NotPending => "not_pending",
            GovernError::NotApproved => "not_approved",
            GovernError::NotFound => "not_found",
            GovernError::DuplicateRule => "duplicate_rule",
            GovernError::StorageFailure => "storage_failure",
        }
    }

    pub open spec fn spec_tag(self) -> Seq<char> {
        match self {
            GovernError::Unauthorized => "unauthorized"@,
            GovernError::LockedOut => "locked_out"@,
            GovernError::NotPending => "not_pending"@,
            GovernError::NotApproved => "not_approved"@,
            GovernError::NotFound => "not_found"@,
            GovernError::DuplicateRule => "duplicate_rule"@,
            GovernError::StorageFailure => "storage_failure"@,
        }
    }
}

} // verus!
